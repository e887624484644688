pub mod ast;
pub mod compiler;
pub mod core_compiler;
pub mod global;
pub mod utils;
pub mod values;
