//! The token grammar: one matching rule per kind of token, each a predicate on
//! the matched text, and the priorities that decide between rules that match
//! text of the same length.
use vstd::prelude::*;
use super::chars::{
    is_bin_digit_or_sep, is_digit, is_digit_or_sep, is_endpoint_char, is_hex_digit_or_sep,
    is_ident_continue, is_ident_start, is_lower_or_digit, is_oct_digit_or_sep, is_sign,
    is_slot_name_char, is_whitespace,
};
use super::token::Token;

verus! {

/// The rules of the token grammar.
#[derive(Debug, Clone, Copy, PartialEq, Eq, Structural)]
pub enum Rule {
    /// Operators, separators and keywords with a fixed spelling.
    Fixed,
    LineDoc,
    LineComment,
    BlockComment,
    ListStart,
    MapStart,
    Infinity,
    Nan,
    Decimal,
    DecimalInteger,
    BinaryInteger,
    OctalInteger,
    HexadecimalInteger,
    Fraction,
    StringLiteral,
    Endpoint,
    Slot,
    NamedSlot,
    Whitespace,
    Identifier,
}

/// Rules whose matches are skipped instead of being returned as tokens.
pub open spec fn is_skipped(r: Rule) -> bool {
    r == Rule::LineComment || r == Rule::BlockComment
}

/// Between two rules that match the same text, the one with the higher priority wins.
pub open spec fn priority(r: Rule) -> int {
    match r {
        Rule::Fixed => 30,
        Rule::LineDoc => 29,
        Rule::LineComment => 28,
        Rule::BlockComment => 27,
        Rule::Infinity => 26,
        Rule::Nan => 25,
        Rule::ListStart => 24,
        Rule::MapStart => 23,
        Rule::Decimal => 22,
        Rule::DecimalInteger => 21,
        Rule::BinaryInteger => 20,
        Rule::OctalInteger => 19,
        Rule::HexadecimalInteger => 18,
        Rule::Fraction => 17,
        Rule::StringLiteral => 16,
        Rule::Endpoint => 15,
        Rule::Slot => 14,
        Rule::NamedSlot => 13,
        Rule::Whitespace => 12,
        Rule::Identifier => 11,
    }
}

/// The token with the fixed spelling `t`, if there is one.
pub open spec fn fixed_token(t: Seq<char>) -> Option<Token> {
    if t.len() == 1 {
        let c = t[0];
        if c == '(' { Some(Token::LeftParen) }
        else if c == ')' { Some(Token::RightParen) }
        else if c == '[' { Some(Token::LeftBracket) }
        else if c == ']' { Some(Token::RightBracket) }
        else if c == '{' { Some(Token::LeftCurly) }
        else if c == '}' { Some(Token::RightCurly) }
        else if c == '<' { Some(Token::LeftAngle) }
        else if c == '>' { Some(Token::RightAngle) }
        else if c == '%' { Some(Token::Percent) }
        else if c == '+' { Some(Token::Plus) }
        else if c == '-' { Some(Token::Minus) }
        else if c == '*' { Some(Token::Star) }
        else if c == '/' { Some(Token::Slash) }
        else if c == ':' { Some(Token::Colon) }
        else if c == ';' { Some(Token::Semicolon) }
        else if c == '.' { Some(Token::Dot) }
        else if c == ',' { Some(Token::Comma) }
        else if c == '=' { Some(Token::Assign) }
        else if c == '@' { Some(Token::At) }
        else if c == '&' { Some(Token::Ampersand) }
        else if c == '|' { Some(Token::Pipe) }
        else if c == '!' { Some(Token::Exclamation) }
        else if c == '`' { Some(Token::Backtick) }
        else if c == '?' { Some(Token::Placeholder) }
        else { None }
    } else if t.len() == 2 {
        let a = t[0];
        let b = t[1];
        if a == ':' && b == ':' { Some(Token::DoubleColon) }
        else if a == '+' && b == '+' { Some(Token::Increment) }
        else if a == '-' && b == '-' { Some(Token::Decrement) }
        else if a == '&' && b == '&' { Some(Token::Conjunction) }
        else if a == '|' && b == '|' { Some(Token::Disjunction) }
        else if a == '+' && b == '=' { Some(Token::AddAssign) }
        else if a == '-' && b == '=' { Some(Token::SubAssign) }
        else if a == '*' && b == '=' { Some(Token::MulAssign) }
        else if a == '/' && b == '=' { Some(Token::DivAssign) }
        else if a == '%' && b == '=' { Some(Token::ModAssign) }
        else if a == '-' && b == '>' { Some(Token::Arrow) }
        else if a == '=' && b == '>' { Some(Token::FatArrow) }
        else if a == '.' && b == '.' { Some(Token::Range) }
        else if a == '<' && b == '=' { Some(Token::LessEqual) }
        else if a == '!' && b == '=' { Some(Token::NotStructuralEqual) }
        else if a == '=' && b == '=' { Some(Token::StructuralEqual) }
        else if a == 'i' && b == 's' { Some(Token::Is) }
        else if a == 'i' && b == 'f' { Some(Token::If) }
        else { None }
    } else if t.len() == 3 {
        let a = t[0];
        let b = t[1];
        let c = t[2];
        if a == ':' && b == ':' && c == ':' { Some(Token::TripleColon) }
        else if a == '.' && b == '.' && c == '=' { Some(Token::RangeInclusive) }
        else if a == '.' && b == '.' && c == '.' { Some(Token::Spread) }
        else if a == '!' && b == '=' && c == '=' { Some(Token::NotEqual) }
        else if a == '=' && b == '=' && c == '=' { Some(Token::Equal) }
        else if a == 'v' && b == 'a' && c == 'r' { Some(Token::Variable) }
        else if a == 'm' && b == 'u' && c == 't' { Some(Token::Mutable) }
        else { None }
    } else if t.len() == 4 {
        if t[0] == 't' && t[1] == 'r' && t[2] == 'u' && t[3] == 'e' { Some(Token::True) }
        else if t[0] == 'n' && t[1] == 'u' && t[2] == 'l' && t[3] == 'l' { Some(Token::Null) }
        else if t[0] == 'e' && t[1] == 'l' && t[2] == 's' && t[3] == 'e' { Some(Token::Else) }
        else { None }
    } else if t.len() == 5 {
        if t[0] == 'f' && t[1] == 'a' && t[2] == 'l' && t[3] == 's' && t[4] == 'e' { Some(Token::False) }
        else if t[0] == 'c' && t[1] == 'o' && t[2] == 'n' && t[3] == 's' && t[4] == 't' { Some(Token::Const) }
        else { None }
    } else if t.len() == 7 {
        if t[0] == 'm' && t[1] == 'a' && t[2] == 't' && t[3] == 'c' && t[4] == 'h' && t[5] == 'e'
            && t[6] == 's' { Some(Token::Matches) }
        else { None }
    } else if t.len() == 8 {
        if t[0] == 'f' && t[1] == 'u' && t[2] == 'n' && t[3] == 'c' && t[4] == 't' && t[5] == 'i'
            && t[6] == 'o' && t[7] == 'n' { Some(Token::Function) }
        else { None }
    } else {
        None
    }
}

/// Length of an optional leading sign.
pub open spec fn sign_len(t: Seq<char>) -> int {
    if t.len() > 0 && is_sign(t[0]) { 1 } else { 0 }
}

/// `///` followed by anything but a newline.
pub open spec fn is_line_doc(t: Seq<char>) -> bool {
    &&& t.len() >= 3
    &&& t[0] == '/' && t[1] == '/' && t[2] == '/'
    &&& forall|k: int| 3 <= k < t.len() ==> t[k] != '\n'
}

/// `//` followed by anything but a newline.
pub open spec fn is_line_comment(t: Seq<char>) -> bool {
    &&& t.len() >= 2
    &&& t[0] == '/' && t[1] == '/'
    &&& forall|k: int| 2 <= k < t.len() ==> t[k] != '\n'
}

/// `/*`, then text without `*/`, then `*/`.
pub open spec fn is_block_comment(t: Seq<char>) -> bool {
    &&& t.len() >= 4
    &&& t[0] == '/' && t[1] == '*'
    &&& t[t.len() - 2] == '*' && t[t.len() - 1] == '/'
    &&& forall|k: int| 2 <= k < t.len() - 2 ==> !(t[k] == '*' && #[trigger] t[k + 1] == '/')
}

/// `List`, spaces, `[`.
pub open spec fn is_list_start(t: Seq<char>) -> bool {
    &&& t.len() >= 5
    &&& t[0] == 'L' && t[1] == 'i' && t[2] == 's' && t[3] == 't'
    &&& t[t.len() - 1] == '['
    &&& forall|k: int| 4 <= k < t.len() - 1 ==> t[k] == ' '
}

/// `Map`, spaces, `{`.
pub open spec fn is_map_start(t: Seq<char>) -> bool {
    &&& t.len() >= 4
    &&& t[0] == 'M' && t[1] == 'a' && t[2] == 'p'
    &&& t[t.len() - 1] == '{'
    &&& forall|k: int| 3 <= k < t.len() - 1 ==> t[k] == ' '
}

pub open spec fn infinity_word_at(t: Seq<char>, b: int) -> bool {
    &&& t[b] == 'I' || t[b] == 'i'
    &&& t[b + 1] == 'n' && t[b + 2] == 'f' && t[b + 3] == 'i' && t[b + 4] == 'n'
    &&& t[b + 5] == 'i' && t[b + 6] == 't' && t[b + 7] == 'y'
}

/// An optional sign, then `Infinity` or `infinity`.
pub open spec fn is_infinity(t: Seq<char>) -> bool {
    ||| t.len() == 8 && infinity_word_at(t, 0)
    ||| t.len() == 9 && is_sign(t[0]) && infinity_word_at(t, 1)
}

pub open spec fn nan_word_at(t: Seq<char>, b: int) -> bool {
    ||| t[b] == 'n' && t[b + 1] == 'a' && t[b + 2] == 'n'
    ||| t[b] == 'N' && t[b + 1] == 'a' && t[b + 2] == 'N'
}

/// An optional sign, then `nan` or `NaN`.
pub open spec fn is_nan(t: Seq<char>) -> bool {
    ||| t.len() == 3 && nan_word_at(t, 0)
    ||| t.len() == 4 && is_sign(t[0]) && nan_word_at(t, 1)
}

/// The `l` characters of `t` from `e` on are one of the integer type suffixes `u8`, `u16`,
/// `u32`, `u64`, `u128`, `i8`, `i16`, `i32`, `i64`, `i128`, `big`.
pub open spec fn int_suffix_chars(t: Seq<char>, e: int, l: int) -> bool {
    ||| l == 2 && (t[e] == 'u' || t[e] == 'i') && t[e + 1] == '8'
    ||| l == 3 && (t[e] == 'u' || t[e] == 'i') && (
        (t[e + 1] == '1' && t[e + 2] == '6')
        || (t[e + 1] == '3' && t[e + 2] == '2')
        || (t[e + 1] == '6' && t[e + 2] == '4'))
    ||| l == 4 && (t[e] == 'u' || t[e] == 'i') && t[e + 1] == '1' && t[e + 2] == '2'
        && t[e + 3] == '8'
    ||| l == 3 && t[e] == 'b' && t[e + 1] == 'i' && t[e + 2] == 'g'
}

/// `t[e..]` is an integer type suffix.
pub open spec fn is_int_suffix_at(t: Seq<char>, e: int) -> bool {
    0 <= e <= t.len() && int_suffix_chars(t, e, t.len() - e)
}

/// The `l` characters of `t` from `e` on are one of the decimal type suffixes `f32`, `f64`.
pub open spec fn dec_suffix_chars(t: Seq<char>, e: int, l: int) -> bool {
    &&& l == 3
    &&& t[e] == 'f'
    &&& (t[e + 1] == '3' && t[e + 2] == '2') || (t[e + 1] == '6' && t[e + 2] == '4')
}

/// `t[e..]` is a decimal type suffix.
pub open spec fn is_dec_suffix_at(t: Seq<char>, e: int) -> bool {
    0 <= e <= t.len() && dec_suffix_chars(t, e, t.len() - e)
}

/// Digits and separators of `t[lo..hi]`.
pub open spec fn digit_or_sep_run(t: Seq<char>, lo: int, hi: int) -> bool {
    forall|k: int| lo <= k < hi ==> is_digit_or_sep(t[k])
}

/// `t[lo..hi]` is an integer part: a digit, then digits and separators.
pub open spec fn int_part(t: Seq<char>, lo: int, hi: int) -> bool {
    &&& lo < hi
    &&& is_digit(t[lo])
    &&& digit_or_sep_run(t, lo + 1, hi)
}

/// `t[lo..hi]` is an exponent: `e` or `E`, an optional sign, digits and separators.
pub open spec fn exponent(t: Seq<char>, lo: int, hi: int) -> bool {
    &&& hi - lo >= 2
    &&& t[lo] == 'e' || t[lo] == 'E'
    &&& {
        let c = if is_sign(t[lo + 1]) { lo + 2 } else { lo + 1 };
        hi > c && digit_or_sep_run(t, c, hi)
    }
}

/// A decimal integer split at `e` into number part and suffix:
/// optional sign, a digit, digits and separators, then an optional integer suffix.
pub open spec fn decimal_integer_split(t: Seq<char>, e: int) -> bool {
    let b = sign_len(t);
    &&& b < e <= t.len()
    &&& int_part(t, b, e)
    &&& e == t.len() || is_int_suffix_at(t, e)
}

pub open spec fn is_decimal_integer(t: Seq<char>) -> bool {
    exists|e: int| #[trigger] decimal_integer_split(t, e)
}

/// The first two characters form `0b`, `0o` or `0x` (in either case).
pub open spec fn radix_prefix(t: Seq<char>, lower: char, upper: char) -> bool {
    t.len() >= 2 && t[0] == '0' && (t[1] == lower || t[1] == upper)
}

/// `0b`, binary digits and separators up to `e`, then an optional integer suffix.
pub open spec fn binary_split(t: Seq<char>, e: int) -> bool {
    &&& radix_prefix(t, 'b', 'B')
    &&& 2 <= e <= t.len()
    &&& forall|k: int| 2 <= k < e ==> is_bin_digit_or_sep(t[k])
    &&& e == t.len() || is_int_suffix_at(t, e)
}

pub open spec fn is_binary_integer(t: Seq<char>) -> bool {
    exists|e: int| #[trigger] binary_split(t, e)
}

/// `0o`, octal digits and separators up to `e`, then an optional integer suffix.
pub open spec fn octal_split(t: Seq<char>, e: int) -> bool {
    &&& radix_prefix(t, 'o', 'O')
    &&& 2 <= e <= t.len()
    &&& forall|k: int| 2 <= k < e ==> is_oct_digit_or_sep(t[k])
    &&& e == t.len() || is_int_suffix_at(t, e)
}

pub open spec fn is_octal_integer(t: Seq<char>) -> bool {
    exists|e: int| #[trigger] octal_split(t, e)
}

/// `0x`, hexadecimal digits and separators up to `e`, then an optional integer suffix.
pub open spec fn hex_split(t: Seq<char>, e: int) -> bool {
    &&& radix_prefix(t, 'x', 'X')
    &&& 2 <= e <= t.len()
    &&& forall|k: int| 2 <= k < e ==> is_hex_digit_or_sep(t[k])
    &&& e == t.len() || is_int_suffix_at(t, e)
}

pub open spec fn is_hex_integer(t: Seq<char>) -> bool {
    exists|e: int| #[trigger] hex_split(t, e)
}

/// Decimal body with a point at `d` and fraction digits up to `f`:
/// optional integer part, `.`, digits and separators, optional exponent up to `e`;
/// the integer part or the fraction digits must not be empty.
pub open spec fn dotted_body(t: Seq<char>, b: int, d: int, f: int, e: int) -> bool {
    &&& b <= d < f <= e
    &&& t[d] == '.'
    &&& d == b || int_part(t, b, d)
    &&& digit_or_sep_run(t, d + 1, f)
    &&& d > b || f > d + 1
    &&& f == e || exponent(t, f, e)
}

/// Decimal body without a point: integer part up to `i`, then an exponent up to `e`.
pub open spec fn exponent_body(t: Seq<char>, b: int, i: int, e: int) -> bool {
    &&& int_part(t, b, i)
    &&& i < e
    &&& exponent(t, i, e)
}

/// A decimal split at `e` into number part and suffix.
pub open spec fn decimal_split(t: Seq<char>, e: int) -> bool {
    let b = sign_len(t);
    &&& b < e <= t.len()
    &&& (exists|d: int, f: int| #[trigger] dotted_body(t, b, d, f, e))
        || (exists|i: int| #[trigger] exponent_body(t, b, i, e))
    &&& e == t.len() || is_dec_suffix_at(t, e)
}

/// Decimal literal: optional sign, then `int.frac`, `.frac`, `int.` or `int` with an
/// exponent (the forms with a point may carry an exponent too), then an optional
/// `f32`/`f64` suffix.
pub open spec fn is_decimal(t: Seq<char>) -> bool {
    exists|e: int| #[trigger] decimal_split(t, e)
}

/// Optional sign, digits, `/`, digits.
pub open spec fn fraction_split(t: Seq<char>, j: int) -> bool {
    let b = sign_len(t);
    &&& b < j < t.len() - 1
    &&& t[j] == '/'
    &&& forall|k: int| b <= k < j ==> is_digit(t[k])
    &&& forall|k: int| j < k < t.len() ==> is_digit(t[k])
}

pub open spec fn is_fraction(t: Seq<char>) -> bool {
    exists|j: int| #[trigger] fraction_split(t, j)
}

/// `t[lo..hi]` is the inside of a quoted text delimited by `q`: every character is
/// either a backslash followed by a character other than a newline (an escape), or a
/// character other than backslash and `q`.
pub open spec fn quoted_content(t: Seq<char>, lo: int, hi: int, q: char) -> bool
    decreases hi - lo,
{
    if hi <= lo {
        hi == lo
    } else if t[lo] == '\\' {
        lo + 1 < hi && t[lo + 1] != '\n' && quoted_content(t, lo + 2, hi, q)
    } else {
        t[lo] != q && quoted_content(t, lo + 1, hi, q)
    }
}

/// A prefix of lower-case letters and digits up to `p`, then a text in double or single quotes.
pub open spec fn string_split(t: Seq<char>, p: int) -> bool {
    &&& 0 <= p
    &&& p + 2 <= t.len()
    &&& forall|k: int| 0 <= k < p ==> is_lower_or_digit(t[k])
    &&& t[p] == '"' || t[p] == '\''
    &&& t[t.len() - 1] == t[p]
    &&& quoted_content(t, p + 1, t.len() - 1, t[p])
}

pub open spec fn is_string_literal(t: Seq<char>) -> bool {
    exists|p: int| #[trigger] string_split(t, p)
}

/// `@`, optionally `+` or `@`, then at least one letter, digit, `_` or `-`.
pub open spec fn is_endpoint(t: Seq<char>) -> bool {
    let c = if t.len() > 1 && (t[1] == '+' || t[1] == '@') { 2int } else { 1int };
    &&& t.len() > c
    &&& t[0] == '@'
    &&& forall|k: int| c <= k < t.len() ==> is_endpoint_char(t[k])
}

/// `_` or a letter, then `_`, letters and numbers.
pub open spec fn is_identifier(t: Seq<char>) -> bool {
    &&& t.len() >= 1
    &&& is_ident_start(t[0])
    &&& forall|k: int| 1 <= k < t.len() ==> is_ident_continue(t[k])
}

/// `#` followed by digits.
pub open spec fn is_slot(t: Seq<char>) -> bool {
    &&& t.len() >= 2
    &&& t[0] == '#'
    &&& forall|k: int| 1 <= k < t.len() ==> is_digit(t[k])
}

/// `#` followed by letters and `_`.
pub open spec fn is_named_slot(t: Seq<char>) -> bool {
    &&& t.len() >= 2
    &&& t[0] == '#'
    &&& forall|k: int| 1 <= k < t.len() ==> is_slot_name_char(t[k])
}

/// A single space, tab, newline or form feed.
pub open spec fn is_whitespace_token(t: Seq<char>) -> bool {
    t.len() == 1 && is_whitespace(t[0])
}

/// Whether rule `r` matches the whole of `t`.
pub open spec fn rule_matches(r: Rule, t: Seq<char>) -> bool {
    match r {
        Rule::Fixed => fixed_token(t) is Some,
        Rule::LineDoc => is_line_doc(t),
        Rule::LineComment => is_line_comment(t),
        Rule::BlockComment => is_block_comment(t),
        Rule::ListStart => is_list_start(t),
        Rule::MapStart => is_map_start(t),
        Rule::Infinity => is_infinity(t),
        Rule::Nan => is_nan(t),
        Rule::Decimal => is_decimal(t),
        Rule::DecimalInteger => is_decimal_integer(t),
        Rule::BinaryInteger => is_binary_integer(t),
        Rule::OctalInteger => is_octal_integer(t),
        Rule::HexadecimalInteger => is_hex_integer(t),
        Rule::Fraction => is_fraction(t),
        Rule::StringLiteral => is_string_literal(t),
        Rule::Endpoint => is_endpoint(t),
        Rule::Slot => is_slot(t),
        Rule::NamedSlot => is_named_slot(t),
        Rule::Whitespace => is_whitespace_token(t),
        Rule::Identifier => is_identifier(t),
    }
}

/// The `m` characters of `s` from `pos` on.
pub open spec fn window(s: Seq<char>, pos: int, m: int) -> Seq<char> {
    s.subrange(pos, pos + m)
}

/// `n` is the length of the longest non-empty match of `r` at `pos`, or `0` if `r`
/// matches no non-empty text there.
pub open spec fn is_longest(r: Rule, s: Seq<char>, pos: int, n: int) -> bool {
    &&& 0 <= pos <= s.len()
    &&& 0 <= n <= s.len() - pos
    &&& n > 0 ==> rule_matches(r, window(s, pos, n))
    &&& forall|m: int| n < m <= s.len() - pos ==> !#[trigger] rule_matches(r, window(s, pos, m))
}

/// Rule `r` wins at `pos` with a match of length `n`: no rule matches longer text there,
/// and every other rule that matches these `n` characters has a lower priority.
pub open spec fn is_best(s: Seq<char>, pos: int, r: Rule, n: int) -> bool {
    &&& 0 <= pos
    &&& 0 < n <= s.len() - pos
    &&& rule_matches(r, window(s, pos, n))
    &&& forall|r2: Rule, m: int| n < m <= s.len() - pos ==> !#[trigger] rule_matches(r2, window(s, pos, m))
    &&& forall|r2: Rule| r2 != r && #[trigger] rule_matches(r2, window(s, pos, n)) ==> priority(r2) < priority(r)
}

/// No rule matches any non-empty text at `pos`.
pub open spec fn no_rule_matches(s: Seq<char>, pos: int) -> bool {
    forall|r: Rule, m: int| 0 < m <= s.len() - pos ==> !#[trigger] rule_matches(r, window(s, pos, m))
}

} // verus!
