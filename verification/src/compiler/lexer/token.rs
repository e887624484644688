//! The tokens of DATEX script.
use vstd::prelude::*;
use crate::values::typed_variants::{integer_suffix, DecimalTypeVariant, IntegerTypeVariant};
use crate::utils::strings::{chars_of, string_from_chars};

verus! {

/// A numeric literal split into its number part and its optional type suffix.
#[derive(Debug, Clone, PartialEq, Eq)]
pub struct TypedLiteral<T> {
    pub value: String,
    pub variant: Option<T>,
}

pub type IntegerLiteral = TypedLiteral<IntegerTypeVariant>;

pub type DecimalLiteral = TypedLiteral<DecimalTypeVariant>;

/// A token of DATEX script.
#[derive(Debug, Clone, PartialEq, Eq)]
pub enum Token {
    LineDoc(String),
    LeftParen,
    RightParen,
    LeftBracket,
    ListStart,
    MapStart,
    RightBracket,
    LeftCurly,
    RightCurly,
    LeftAngle,
    RightAngle,
    Percent,
    Plus,
    Minus,
    Star,
    Slash,
    Colon,
    DoubleColon,
    TripleColon,
    Semicolon,
    Dot,
    Comma,
    Assign,
    Increment,
    Decrement,
    Conjunction,
    Disjunction,
    AddAssign,
    SubAssign,
    MulAssign,
    DivAssign,
    ModAssign,
    Arrow,
    FatArrow,
    Range,
    RangeInclusive,
    Spread,
    At,
    Ampersand,
    Pipe,
    Exclamation,
    Backtick,
    LessEqual,
    NotStructuralEqual,
    NotEqual,
    StructuralEqual,
    Equal,
    Is,
    Matches,
    True,
    False,
    Null,
    Placeholder,
    Const,
    Variable,
    Mutable,
    Function,
    If,
    Else,
    Infinity(String),
    Nan,
    DecimalLiteral(DecimalLiteral),
    DecimalIntegerLiteral(IntegerLiteral),
    BinaryIntegerLiteral(IntegerLiteral),
    OctalIntegerLiteral(IntegerLiteral),
    HexadecimalIntegerLiteral(IntegerLiteral),
    FractionLiteral(String),
    StringLiteral(String),
    Endpoint(String),
    Identifier(String),
    Slot(String),
    NamedSlot(String),
    Whitespace,
    Error,
}

/// What `as_string` gives for a token: a fixed spelling in single quotes, the name of a
/// kind of literal, or the identifier itself.
pub open spec fn token_description(tok: Token) -> Seq<char> {
    match tok {
        Token::LeftParen => seq!['\'', '(', '\''],
        Token::RightParen => seq!['\'', ')', '\''],
        Token::LeftBracket => seq!['\'', '[', '\''],
        Token::RightBracket => seq!['\'', ']', '\''],
        Token::LeftCurly => seq!['\'', '{', '\''],
        Token::RightCurly => seq!['\'', '}', '\''],
        Token::LeftAngle => seq!['\'', '<', '\''],
        Token::RightAngle => seq!['\'', '>', '\''],
        Token::Percent => seq!['\'', '%', '\''],
        Token::Plus => seq!['\'', '+', '\''],
        Token::Minus => seq!['\'', '-', '\''],
        Token::Slash => seq!['\'', '/', '\''],
        Token::Colon => seq!['\'', ':', '\''],
        Token::DoubleColon => seq!['\'', ':', ':', '\''],
        Token::TripleColon => seq!['\'', ':', ':', ':', '\''],
        Token::Semicolon => seq!['\'', ';', '\''],
        Token::Dot => seq!['\'', '.', '\''],
        Token::Comma => seq!['\'', ',', '\''],
        Token::Assign => seq!['\'', '=', '\''],
        Token::Increment => seq!['\'', '+', '+', '\''],
        Token::Decrement => seq!['\'', '-', '-', '\''],
        Token::Conjunction => seq!['\'', '&', '&', '\''],
        Token::Disjunction => seq!['\'', '|', '|', '\''],
        Token::AddAssign => seq!['\'', '+', '=', '\''],
        Token::SubAssign => seq!['\'', '-', '=', '\''],
        Token::MulAssign => seq!['\'', '*', '=', '\''],
        Token::DivAssign => seq!['\'', '/', '=', '\''],
        Token::ModAssign => seq!['\'', '%', '=', '\''],
        Token::Arrow => seq!['\'', '-', '>', '\''],
        Token::FatArrow => seq!['\'', '=', '>', '\''],
        Token::Range => seq!['\'', '.', '.', '\''],
        Token::RangeInclusive => seq!['\'', '.', '.', '=', '\''],
        Token::Spread => seq!['\'', '.', '.', '.', '\''],
        Token::At => seq!['\'', '@', '\''],
        Token::Ampersand => seq!['\'', '&', '\''],
        Token::Pipe => seq!['\'', '|', '\''],
        Token::Backtick => seq!['\'', '`', '\''],
        Token::LessEqual => seq!['\'', '<', '=', '\''],
        Token::NotStructuralEqual => seq!['\'', '!', '=', '\''],
        Token::NotEqual => seq!['\'', '!', '=', '=', '\''],
        Token::StructuralEqual => seq!['\'', '=', '=', '\''],
        Token::Equal => seq!['\'', '=', '=', '=', '\''],
        Token::Is => seq!['\'', 'i', 's', '\''],
        Token::True => seq!['\'', 't', 'r', 'u', 'e', '\''],
        Token::False => seq!['\'', 'f', 'a', 'l', 's', 'e', '\''],
        Token::Null => seq!['\'', 'n', 'u', 'l', 'l', '\''],
        Token::Placeholder => seq!['\'', '?', '\''],
        Token::Const => seq!['\'', 'c', 'o', 'n', 's', 't', '\''],
        Token::Variable => seq!['\'', 'v', 'a', 'r', '\''],
        Token::Mutable => seq!['\'', 'm', 'u', 't', '\''],
        Token::Function => seq!['\'', 'f', 'u', 'n', 'c', 't', 'i', 'o', 'n', '\''],
        Token::Whitespace => seq!['\'', ' ', '\''],
        Token::Error => seq!['\'', 'e', 'r', 'r', 'o', 'r', '\''],
        Token::Infinity(_) => seq!['\'', 'i', 'n', 'f', 'i', 'n', 'i', 't', 'y', '\''],
        Token::Nan => seq!['\'', 'n', 'a', 'n', '\''],
        Token::Star => seq!['\'', '*', '\''],
        Token::Exclamation => seq!['\'', '!', '\''],
        Token::LineDoc(_) => seq!['l', 'i', 'n', 'e', ' ', 'd', 'o', 'c'],
        Token::DecimalLiteral(_) => seq!['d', 'e', 'c', 'i', 'm', 'a', 'l', ' ', 'l', 'i', 't', 'e', 'r', 'a', 'l'],
        Token::DecimalIntegerLiteral(_) => seq!['d', 'e', 'c', 'i', 'm', 'a', 'l', ' ', 'i', 'n', 't', 'e', 'g', 'e', 'r', ' ', 'l', 'i', 't', 'e', 'r', 'a', 'l'],
        Token::BinaryIntegerLiteral(_) => seq!['b', 'i', 'n', 'a', 'r', 'y', ' ', 'i', 'n', 't', 'e', 'g', 'e', 'r', ' ', 'l', 'i', 't', 'e', 'r', 'a', 'l'],
        Token::OctalIntegerLiteral(_) => seq!['o', 'c', 't', 'a', 'l', ' ', 'i', 'n', 't', 'e', 'g', 'e', 'r', ' ', 'l', 'i', 't', 'e', 'r', 'a', 'l'],
        Token::HexadecimalIntegerLiteral(_) => seq!['h', 'e', 'x', 'a', 'd', 'e', 'c', 'i', 'm', 'a', 'l', ' ', 'i', 'n', 't', 'e', 'g', 'e', 'r', ' ', 'l', 'i', 't', 'e', 'r', 'a', 'l'],
        Token::FractionLiteral(_) => seq!['f', 'r', 'a', 'c', 't', 'i', 'o', 'n', ' ', 'l', 'i', 't', 'e', 'r', 'a', 'l'],
        Token::StringLiteral(_) => seq!['s', 't', 'r', 'i', 'n', 'g', ' ', 'l', 'i', 't', 'e', 'r', 'a', 'l'],
        Token::Endpoint(_) => seq!['e', 'n', 'd', 'p', 'o', 'i', 'n', 't'],
        Token::Slot(_) => seq!['s', 'l', 'o', 't'],
        Token::NamedSlot(_) => seq!['n', 'a', 'm', 'e', 'd', ' ', 's', 'l', 'o', 't'],
        Token::Matches => seq!['m', 'a', 't', 'c', 'h', 'e', 's'],
        Token::If => seq!['i', 'f'],
        Token::Else => seq!['e', 'l', 's', 'e'],
        Token::Identifier(s) => s@,
        Token::ListStart | Token::MapStart => Seq::empty(),
    }
}

/// `as_string` describes every token but the list and map openers.
pub open spec fn has_description(tok: Token) -> bool {
    !(tok is ListStart || tok is MapStart)
}

impl Token {
    /// A human-readable description of the token, used in error messages.
    pub fn as_string(&self) -> (res: String)
        requires
            has_description(*self),
        ensures
            res@ == token_description(*self),
    {
        match self {
            Token::LeftParen => {
                proof { reveal_strlit("'('"); }
                "'('".to_owned()
            },
            Token::RightParen => {
                proof { reveal_strlit("')'"); }
                "')'".to_owned()
            },
            Token::LeftBracket => {
                proof { reveal_strlit("'['"); }
                "'['".to_owned()
            },
            Token::RightBracket => {
                proof { reveal_strlit("']'"); }
                "']'".to_owned()
            },
            Token::LeftCurly => {
                proof { reveal_strlit("'{'"); }
                "'{'".to_owned()
            },
            Token::RightCurly => {
                proof { reveal_strlit("'}'"); }
                "'}'".to_owned()
            },
            Token::LeftAngle => {
                proof { reveal_strlit("'<'"); }
                "'<'".to_owned()
            },
            Token::RightAngle => {
                proof { reveal_strlit("'>'"); }
                "'>'".to_owned()
            },
            Token::Percent => {
                proof { reveal_strlit("'%'"); }
                "'%'".to_owned()
            },
            Token::Plus => {
                proof { reveal_strlit("'+'"); }
                "'+'".to_owned()
            },
            Token::Minus => {
                proof { reveal_strlit("'-'"); }
                "'-'".to_owned()
            },
            Token::Slash => {
                proof { reveal_strlit("'/'"); }
                "'/'".to_owned()
            },
            Token::Colon => {
                proof { reveal_strlit("':'"); }
                "':'".to_owned()
            },
            Token::DoubleColon => {
                proof { reveal_strlit("'::'"); }
                "'::'".to_owned()
            },
            Token::TripleColon => {
                proof { reveal_strlit("':::'"); }
                "':::'".to_owned()
            },
            Token::Semicolon => {
                proof { reveal_strlit("';'"); }
                "';'".to_owned()
            },
            Token::Dot => {
                proof { reveal_strlit("'.'"); }
                "'.'".to_owned()
            },
            Token::Comma => {
                proof { reveal_strlit("','"); }
                "','".to_owned()
            },
            Token::Assign => {
                proof { reveal_strlit("'='"); }
                "'='".to_owned()
            },
            Token::Increment => {
                proof { reveal_strlit("'++'"); }
                "'++'".to_owned()
            },
            Token::Decrement => {
                proof { reveal_strlit("'--'"); }
                "'--'".to_owned()
            },
            Token::Conjunction => {
                proof { reveal_strlit("'&&'"); }
                "'&&'".to_owned()
            },
            Token::Disjunction => {
                proof { reveal_strlit("'||'"); }
                "'||'".to_owned()
            },
            Token::AddAssign => {
                proof { reveal_strlit("'+='"); }
                "'+='".to_owned()
            },
            Token::SubAssign => {
                proof { reveal_strlit("'-='"); }
                "'-='".to_owned()
            },
            Token::MulAssign => {
                proof { reveal_strlit("'*='"); }
                "'*='".to_owned()
            },
            Token::DivAssign => {
                proof { reveal_strlit("'/='"); }
                "'/='".to_owned()
            },
            Token::ModAssign => {
                proof { reveal_strlit("'%='"); }
                "'%='".to_owned()
            },
            Token::Arrow => {
                proof { reveal_strlit("'->'"); }
                "'->'".to_owned()
            },
            Token::FatArrow => {
                proof { reveal_strlit("'=>'"); }
                "'=>'".to_owned()
            },
            Token::Range => {
                proof { reveal_strlit("'..'"); }
                "'..'".to_owned()
            },
            Token::RangeInclusive => {
                proof { reveal_strlit("'..='"); }
                "'..='".to_owned()
            },
            Token::Spread => {
                proof { reveal_strlit("'...'"); }
                "'...'".to_owned()
            },
            Token::At => {
                proof { reveal_strlit("'@'"); }
                "'@'".to_owned()
            },
            Token::Ampersand => {
                proof { reveal_strlit("'&'"); }
                "'&'".to_owned()
            },
            Token::Pipe => {
                proof { reveal_strlit("'|'"); }
                "'|'".to_owned()
            },
            Token::Backtick => {
                proof { reveal_strlit("'`'"); }
                "'`'".to_owned()
            },
            Token::LessEqual => {
                proof { reveal_strlit("'<='"); }
                "'<='".to_owned()
            },
            Token::NotStructuralEqual => {
                proof { reveal_strlit("'!='"); }
                "'!='".to_owned()
            },
            Token::NotEqual => {
                proof { reveal_strlit("'!=='"); }
                "'!=='".to_owned()
            },
            Token::StructuralEqual => {
                proof { reveal_strlit("'=='"); }
                "'=='".to_owned()
            },
            Token::Equal => {
                proof { reveal_strlit("'==='"); }
                "'==='".to_owned()
            },
            Token::Is => {
                proof { reveal_strlit("'is'"); }
                "'is'".to_owned()
            },
            Token::True => {
                proof { reveal_strlit("'true'"); }
                "'true'".to_owned()
            },
            Token::False => {
                proof { reveal_strlit("'false'"); }
                "'false'".to_owned()
            },
            Token::Null => {
                proof { reveal_strlit("'null'"); }
                "'null'".to_owned()
            },
            Token::Placeholder => {
                proof { reveal_strlit("'?'"); }
                "'?'".to_owned()
            },
            Token::Const => {
                proof { reveal_strlit("'const'"); }
                "'const'".to_owned()
            },
            Token::Variable => {
                proof { reveal_strlit("'var'"); }
                "'var'".to_owned()
            },
            Token::Mutable => {
                proof { reveal_strlit("'mut'"); }
                "'mut'".to_owned()
            },
            Token::Function => {
                proof { reveal_strlit("'function'"); }
                "'function'".to_owned()
            },
            Token::Whitespace => {
                proof { reveal_strlit("' '"); }
                "' '".to_owned()
            },
            Token::Error => {
                proof { reveal_strlit("'error'"); }
                "'error'".to_owned()
            },
            Token::Infinity(_) => {
                proof { reveal_strlit("'infinity'"); }
                "'infinity'".to_owned()
            },
            Token::Nan => {
                proof { reveal_strlit("'nan'"); }
                "'nan'".to_owned()
            },
            Token::Star => {
                proof { reveal_strlit("'*'"); }
                "'*'".to_owned()
            },
            Token::Exclamation => {
                proof { reveal_strlit("'!'"); }
                "'!'".to_owned()
            },
            Token::LineDoc(_) => {
                proof { reveal_strlit("line doc"); }
                "line doc".to_owned()
            },
            Token::DecimalLiteral(_) => {
                proof { reveal_strlit("decimal literal"); }
                "decimal literal".to_owned()
            },
            Token::DecimalIntegerLiteral(_) => {
                proof { reveal_strlit("decimal integer literal"); }
                "decimal integer literal".to_owned()
            },
            Token::BinaryIntegerLiteral(_) => {
                proof { reveal_strlit("binary integer literal"); }
                "binary integer literal".to_owned()
            },
            Token::OctalIntegerLiteral(_) => {
                proof { reveal_strlit("octal integer literal"); }
                "octal integer literal".to_owned()
            },
            Token::HexadecimalIntegerLiteral(_) => {
                proof { reveal_strlit("hexadecimal integer literal"); }
                "hexadecimal integer literal".to_owned()
            },
            Token::FractionLiteral(_) => {
                proof { reveal_strlit("fraction literal"); }
                "fraction literal".to_owned()
            },
            Token::StringLiteral(_) => {
                proof { reveal_strlit("string literal"); }
                "string literal".to_owned()
            },
            Token::Endpoint(_) => {
                proof { reveal_strlit("endpoint"); }
                "endpoint".to_owned()
            },
            Token::Slot(_) => {
                proof { reveal_strlit("slot"); }
                "slot".to_owned()
            },
            Token::NamedSlot(_) => {
                proof { reveal_strlit("named slot"); }
                "named slot".to_owned()
            },
            Token::Matches => {
                proof { reveal_strlit("matches"); }
                "matches".to_owned()
            },
            Token::If => {
                proof { reveal_strlit("if"); }
                "if".to_owned()
            },
            Token::Else => {
                proof { reveal_strlit("else"); }
                "else".to_owned()
            },
            Token::Identifier(s) => s.as_str().to_owned(),
            Token::ListStart | Token::MapStart => String::new(),
        }
    }
}

impl TypedLiteral<IntegerTypeVariant> {
    /// The literal as written: the number part followed by the type suffix, if any.
    pub fn to_string(&self) -> (res: String)
        ensures
            res@ == self.value@ + match self.variant {
                Some(v) => integer_suffix(v),
                None => Seq::empty(),
            },
    {
        let mut chars = chars_of(self.value.as_str());
        match &self.variant {
            Some(v) => {
                let mut suffix = chars_of(v.as_str());
                chars.append(&mut suffix);
            },
            None => {},
        }
        let n = chars.len();
        let res = string_from_chars(&chars, 0, n);
        assert(chars@.subrange(0, n as int) =~= chars@);
        res
    }
}

} // verus!
