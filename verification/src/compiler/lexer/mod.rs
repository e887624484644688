//! Tokens of the DATEX script language and the lexer that produces them.
pub mod chars;
pub mod rules;
pub mod token;

pub use token::{DecimalLiteral, IntegerLiteral, Token, TypedLiteral};
pub mod scan;
pub mod scan_numbers;
pub mod scan_texts;
pub mod select;
pub mod lexer;
