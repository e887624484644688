//! The parser: from the tokens of a DATEX script to its expression tree.
//!
//! The grammar is a parsing expression grammar: every alternative is tried in order, every
//! repetition is greedy, and a repetition step that fails leaves its input untouched. The
//! `*_syntax` spec functions state it over the token sequence; each returns what it parsed
//! together with the number of tokens it consumed.
use vstd::prelude::*;
use crate::ast::expression::DatexExpression;
use crate::compiler::lexer::lexer::{skips_to, token_of};
use crate::compiler::lexer::rules::{is_best, is_skipped, no_rule_matches, window, Rule};
use crate::compiler::lexer::token::Token;
use crate::compiler::operations::{ComparisonOperator, OperationMode};
use crate::compiler::text::{decode_unicode_escapes, unescape_sequences, unescape_text};
use crate::utils::strings::chars_of;
use crate::values::core_values::{Decimal, Integer, TypedInteger};
use crate::values::typed_variants::IntegerTypeVariant;
use crate::compiler::bytecode::typed_integer_value;
use crate::compiler::type_inference::integer_variant;

verus! {

/// A parsed expression, as a mathematical tree.
pub enum Syntax {
    Null,
    Boolean(bool),
    Text(Seq<char>),
    Decimal(Decimal),
    Integer(Integer),
    TypedInteger(TypedInteger),
    List(Seq<Syntax>),
    KeyValueMap(Seq<(Syntax, Syntax)>),
    Statements(Seq<Syntax>, bool),
    VariableAccess(Seq<char>),
    BinaryOperation(OperationMode, Box<Syntax>, Box<Syntax>),
    ComparisonOperation(ComparisonOperator, Box<Syntax>, Box<Syntax>),
    Placeholder,
}

/// `e` is the expression that the tree `s` describes.
pub open spec fn expression_is(e: DatexExpression, s: Syntax) -> bool
    decreases e,
{
    match e {
        DatexExpression::Null => s is Null,
        DatexExpression::Boolean(b) => s == Syntax::Boolean(b),
        DatexExpression::Text(x) => s matches Syntax::Text(y) && x@ == y,
        DatexExpression::Decimal(d) => s == Syntax::Decimal(d),
        DatexExpression::Integer(i) => s == Syntax::Integer(i),
        DatexExpression::TypedInteger(i) => s == Syntax::TypedInteger(i),
        DatexExpression::List(items) => s matches Syntax::List(ss) && items@.len() == ss.len()
            && forall|i: int| 0 <= i < ss.len() ==> expression_is(#[trigger] items@[i], ss[i]),
        DatexExpression::KeyValueMap(entries) => s matches Syntax::KeyValueMap(ss)
            && entries@.len() == ss.len() && forall|i: int|
            0 <= i < ss.len() ==> entry_is(#[trigger] entries@[i], ss[i]),
        DatexExpression::Statements(items, term, unbounded) => s matches Syntax::Statements(ss, t)
            && t == term && unbounded is None && items@.len() == ss.len() && forall|i: int|
            0 <= i < ss.len() ==> expression_is(#[trigger] items@[i], ss[i]),
        DatexExpression::VariableAccess(name) => s matches Syntax::VariableAccess(n) && name@ == n,
        DatexExpression::BinaryOperation(m, l, r) => s matches Syntax::BinaryOperation(m2, ls, rs)
            && m == m2 && expression_is(*l, *ls) && expression_is(*r, *rs),
        DatexExpression::ComparisonOperation(c, l, r) => s matches Syntax::ComparisonOperation(
            c2,
            ls,
            rs,
        ) && c == c2 && expression_is(*l, *ls) && expression_is(*r, *rs),
        DatexExpression::Placeholder => s is Placeholder,
        _ => false,
    }
}

/// `entry` is the map entry that the pair of trees `s` describes.
pub open spec fn entry_is(entry: (DatexExpression, DatexExpression), s: (Syntax, Syntax)) -> bool
    decreases entry,
{
    expression_is(entry.0, s.0) && expression_is(entry.1, s.1)
}

/// Each of `v` is the expression that the tree at its index in `s` describes.
pub open spec fn expressions_are(v: Seq<DatexExpression>, s: Seq<Syntax>) -> bool {
    v.len() == s.len() && forall|i: int| 0 <= i < s.len() ==> expression_is(#[trigger] v[i], s[i])
}

/// Each of `v` is the map entry that the pair at its index in `s` describes.
pub open spec fn entries_are(v: Seq<(DatexExpression, DatexExpression)>, s: Seq<(Syntax, Syntax)>) -> bool {
    v.len() == s.len() && forall|i: int| 0 <= i < s.len() ==> entry_is(#[trigger] v[i], s[i])
}

// ---------------------------------------------------------------------------------------------
// Literals
// ---------------------------------------------------------------------------------------------

/// The value of a digit in `radix`, for the digits `0-9`, `a-z` and `A-Z`.
pub open spec fn digit_value(c: char, radix: nat) -> Option<nat> {
    let u = c as u32;
    let v: int = if 48 <= u <= 57 {
        u - 48
    } else if 97 <= u <= 122 {
        u - 97 + 10
    } else if 65 <= u <= 90 {
        u - 65 + 10
    } else {
        radix as int
    };
    if v < radix {
        Some(v as nat)
    } else {
        None
    }
}

/// The value of the digits `s` in `radix`, where `_` separates digits and counts for nothing;
/// `None` when some character is neither.
pub open spec fn digits_value(s: Seq<char>, radix: nat) -> Option<nat>
    decreases s.len(),
{
    if s.len() == 0 {
        Some(0)
    } else {
        match digits_value(s.drop_last(), radix) {
            None => None,
            Some(v) => if s.last() == '_' {
                Some(v)
            } else {
                match digit_value(s.last(), radix) {
                    Some(d) => Some(v * radix + d),
                    None => None,
                }
            },
        }
    }
}

/// `s` holds a digit, not only `_`.
pub open spec fn has_digit(s: Seq<char>) -> bool {
    exists|i: int| 0 <= i < s.len() && s[i] != '_'
}

/// The value of the number `s` in `radix`.
pub open spec fn number_value(s: Seq<char>, radix: nat) -> Option<nat> {
    if has_digit(s) {
        digits_value(s, radix)
    } else {
        None
    }
}

/// The integer of the given type variant with value `n`, if it has one.
pub open spec fn typed_integer_of(n: int, v: IntegerTypeVariant) -> Option<TypedInteger> {
    match v {
        IntegerTypeVariant::U8 => if 0 <= n <= u8::MAX { Some(TypedInteger::U8(n as u8)) } else { None },
        IntegerTypeVariant::U16 => if 0 <= n <= u16::MAX { Some(TypedInteger::U16(n as u16)) } else { None },
        IntegerTypeVariant::U32 => if 0 <= n <= u32::MAX { Some(TypedInteger::U32(n as u32)) } else { None },
        IntegerTypeVariant::U64 => if 0 <= n <= u64::MAX { Some(TypedInteger::U64(n as u64)) } else { None },
        IntegerTypeVariant::U128 => if 0 <= n <= u128::MAX { Some(TypedInteger::U128(n as u128)) } else { None },
        IntegerTypeVariant::I8 => if i8::MIN <= n <= i8::MAX { Some(TypedInteger::I8(n as i8)) } else { None },
        IntegerTypeVariant::I16 => if i16::MIN <= n <= i16::MAX { Some(TypedInteger::I16(n as i16)) } else { None },
        IntegerTypeVariant::I32 => if i32::MIN <= n <= i32::MAX { Some(TypedInteger::I32(n as i32)) } else { None },
        IntegerTypeVariant::I64 => if i64::MIN <= n <= i64::MAX { Some(TypedInteger::I64(n as i64)) } else { None },
        IntegerTypeVariant::I128 => if i128::MIN <= n <= i128::MAX { Some(TypedInteger::I128(n as i128)) } else { None },
        IntegerTypeVariant::Big => if i128::MIN <= n <= i128::MAX {
            Some(TypedInteger::Big(Integer { value: n as i128 }))
        } else {
            None
        },
    }
}

/// The integer `n`, typed by the literal's suffix where it has one.
pub open spec fn integer_syntax(n: int, variant: Option<IntegerTypeVariant>) -> Option<Syntax> {
    match variant {
        None => if i128::MIN <= n <= i128::MAX {
            Some(Syntax::Integer(Integer { value: n as i128 }))
        } else {
            None
        },
        Some(v) => match typed_integer_of(n, v) {
            Some(i) => Some(Syntax::TypedInteger(i)),
            None => None,
        },
    }
}

/// A decimal integer literal `[+-]digits`: its sign and its digits.
pub open spec fn signed_digits(s: Seq<char>) -> (bool, Seq<char>) {
    if s.len() > 0 && (s[0] == '-' || s[0] == '+') {
        (s[0] == '-', s.skip(1))
    } else {
        (false, s)
    }
}

/// The integer that the number part `s` of a literal denotes: decimal with an optional sign
/// for `radix` 10, otherwise after its two-character prefix (`0x`, `0o`, `0b`).
pub open spec fn literal_integer(s: Seq<char>, radix: nat) -> Option<int> {
    if radix == 10 {
        let (neg, digits) = signed_digits(s);
        match number_value(digits, 10) {
            Some(v) => Some(if neg { -v } else { v as int }),
            None => None,
        }
    } else if s.len() >= 2 {
        match number_value(s.skip(2), radix) {
            Some(v) => Some(v as int),
            None => None,
        }
    } else {
        None
    }
}

/// The expression of an integer literal token.
pub open spec fn integer_token_syntax(tok: Token) -> Option<Syntax> {
    let (lit, radix): (Option<crate::compiler::lexer::token::IntegerLiteral>, nat) = match tok {
        Token::DecimalIntegerLiteral(l) => (Some(l), 10),
        Token::HexadecimalIntegerLiteral(l) => (Some(l), 16),
        Token::OctalIntegerLiteral(l) => (Some(l), 8),
        Token::BinaryIntegerLiteral(l) => (Some(l), 2),
        _ => (None, 0),
    };
    match lit {
        Some(l) => match literal_integer(l.value@, radix) {
            Some(n) => integer_syntax(n, l.variant),
            None => None,
        },
        None => None,
    }
}

/// The text of a text literal: the characters between its first and its last one, with escape
/// sequences replaced.
pub open spec fn text_literal(s: Seq<char>) -> Option<Seq<char>> {
    if s.len() >= 2 && (s[0] as u32) < 0x80 && (s.last() as u32) < 0x80 {
        Some(decode_unicode_escapes(unescape_sequences(s.subrange(1, s.len() - 1))))
    } else {
        None
    }
}

/// The decimal of an infinity literal: negative where it starts with `-`.
pub open spec fn infinity_of(s: Seq<char>) -> Decimal {
    if s.len() > 0 && s[0] == '-' {
        Decimal::NegInfinity
    } else {
        Decimal::Infinity
    }
}

/// The expression of a literal that can be a map key: a text, a decimal or an integer.
pub open spec fn key_literal_syntax(tok: Token) -> Option<Syntax> {
    match tok {
        Token::StringLiteral(s) => match text_literal(s@) {
            Some(x) => Some(Syntax::Text(x)),
            None => None,
        },
        Token::Nan => Some(Syntax::Decimal(Decimal::Nan)),
        Token::Infinity(s) => Some(Syntax::Decimal(infinity_of(s@))),
        _ => integer_token_syntax(tok),
    }
}

/// The expression of a token that is an expression on its own.
pub open spec fn literal_syntax(tok: Token) -> Option<Syntax> {
    match tok {
        Token::True => Some(Syntax::Boolean(true)),
        Token::False => Some(Syntax::Boolean(false)),
        Token::Null => Some(Syntax::Null),
        Token::Placeholder => Some(Syntax::Placeholder),
        Token::Identifier(s) => Some(Syntax::VariableAccess(s@)),
        _ => key_literal_syntax(tok),
    }
}

// ---------------------------------------------------------------------------------------------
// The grammar
// ---------------------------------------------------------------------------------------------

/// How many tokens are left from position `p`: the measure by which parsing terminates.
pub open spec fn dist(t: Seq<Token>, p: nat) -> nat {
    if p < t.len() {
        (t.len() - p) as nat
    } else {
        0
    }
}

/// The number of whitespace tokens from `p` on.
pub open spec fn ws_run(t: Seq<Token>, p: nat) -> nat
    decreases dist(t, p),
{
    if p < t.len() && t[p as int] is Whitespace {
        1 + ws_run(t, p + 1)
    } else {
        0
    }
}

/// The number of consecutive `;` tokens from `p` on.
pub open spec fn semicolon_run(t: Seq<Token>, p: nat) -> nat
    decreases dist(t, p),
{
    if p < t.len() && t[p as int] is Semicolon {
        1 + semicolon_run(t, p + 1)
    } else {
        0
    }
}

/// A separator at `q`: a `,` (where `comma`) or a `;`, with whitespace on both sides. The number
/// of tokens it takes.
pub open spec fn separator(t: Seq<Token>, q: nat, comma: bool) -> Option<nat> {
    let w = ws_run(t, q);
    let r = q + w;
    if r < t.len() && (if comma { t[r as int] is Comma } else { t[r as int] is Semicolon }) {
        Some(w + 1 + ws_run(t, r + 1))
    } else {
        None
    }
}

/// The number of tokens that the `;` separators from `q` on take.
pub open spec fn semicolons(t: Seq<Token>, q: nat) -> nat
    decreases dist(t, q),
{
    match separator(t, q, false) {
        Some(n) => n + semicolons(t, q + n),
        None => 0,
    }
}

/// The operators of precedence level `lvl`: `*` `/` (1), `+` `-` (2), comparisons (3).
pub open spec fn level_op(tok: Token, lvl: nat) -> bool {
    if lvl == 1 {
        tok is Star || tok is Slash
    } else if lvl == 2 {
        tok is Plus || tok is Minus
    } else if lvl == 3 {
        tok is StructuralEqual || tok is Equal || tok is NotStructuralEqual || tok is NotEqual
            || tok is Is
    } else {
        false
    }
}

/// The operation of operator `tok` on `l` and `r`.
pub open spec fn combine(tok: Token, l: Syntax, r: Syntax) -> Syntax {
    match tok {
        Token::Star => Syntax::BinaryOperation(OperationMode::Multiply, Box::new(l), Box::new(r)),
        Token::Slash => Syntax::BinaryOperation(OperationMode::Divide, Box::new(l), Box::new(r)),
        Token::Plus => Syntax::BinaryOperation(OperationMode::Add, Box::new(l), Box::new(r)),
        Token::Minus => Syntax::BinaryOperation(OperationMode::Subtract, Box::new(l), Box::new(r)),
        Token::StructuralEqual => Syntax::ComparisonOperation(
            ComparisonOperator::StructuralEqual,
            Box::new(l),
            Box::new(r),
        ),
        Token::Equal => Syntax::ComparisonOperation(ComparisonOperator::Equal, Box::new(l), Box::new(r)),
        Token::NotStructuralEqual => Syntax::ComparisonOperation(
            ComparisonOperator::NotStructuralEqual,
            Box::new(l),
            Box::new(r),
        ),
        Token::NotEqual => Syntax::ComparisonOperation(
            ComparisonOperator::NotEqual,
            Box::new(l),
            Box::new(r),
        ),
        _ => Syntax::ComparisonOperation(ComparisonOperator::Is, Box::new(l), Box::new(r)),
    }
}

/// A block of statements: a single statement without `;` stands for its expression.
pub open spec fn statements_syntax(items: Seq<Syntax>, terminated: bool) -> Syntax {
    if items.len() == 1 && !terminated {
        items[0]
    } else {
        Syntax::Statements(items, terminated)
    }
}

/// An atom at `p`: a list, a map, a block in parentheses, or a literal.
pub open spec fn atom_syntax(t: Seq<Token>, p: nat) -> Option<(Syntax, nat)>
    decreases dist(t, p), 0nat,
{
    if p >= t.len() {
        None
    } else {
        match t[p as int] {
            Token::LeftBracket => match list_syntax(t, p + 1) {
                Some((s, k)) => Some((s, k + 1)),
                None => None,
            },
            Token::LeftCurly => match map_syntax(t, p + 1) {
                Some((s, k)) => Some((s, k + 1)),
                None => None,
            },
            Token::LeftParen => match wrapped_syntax(t, p + 1) {
                Some((s, k)) => Some((s, k + 1)),
                None => None,
            },
            tok => match literal_syntax(tok) {
                Some(s) => Some((s, 1)),
                None => None,
            },
        }
    }
}

/// A map key at `p`: a text, a decimal, an integer, an identifier (as a text) or a block in
/// parentheses.
pub open spec fn key_syntax(t: Seq<Token>, p: nat) -> Option<(Syntax, nat)>
    decreases dist(t, p), 1nat,
{
    if p >= t.len() {
        None
    } else {
        match t[p as int] {
            Token::LeftParen => match wrapped_syntax(t, p + 1) {
                Some((s, k)) => Some((s, k + 1)),
                None => None,
            },
            Token::Identifier(name) => Some((Syntax::Text(name@), 1)),
            tok => match key_literal_syntax(tok) {
                Some(s) => Some((s, 1)),
                None => None,
            },
        }
    }
}

/// A map entry at `p`: a key, `:` and a value.
pub open spec fn entry_syntax(t: Seq<Token>, p: nat) -> Option<((Syntax, Syntax), nat)>
    decreases dist(t, p), 2nat,
{
    match key_syntax(t, p) {
        None => None,
        Some((ks, k1)) => {
            let c = p + k1;
            let w = ws_run(t, c);
            if c + w < t.len() && t[(c + w) as int] is Colon {
                let w2 = ws_run(t, c + w + 1);
                match level_syntax(t, c + w + 1 + w2, 3) {
                    Some((v, k2)) => Some(((ks, v), k1 + w + 1 + w2 + k2)),
                    None => None,
                }
            } else {
                None
            }
        },
    }
}

/// An operand chain of precedence level `lvl` at `p` (level 0: an atom), folded to the left.
pub open spec fn level_syntax(t: Seq<Token>, p: nat, lvl: nat) -> Option<(Syntax, nat)>
    decreases dist(t, p), lvl + 1,
{
    if lvl == 0 {
        atom_syntax(t, p)
    } else {
        match level_syntax(t, p, (lvl - 1) as nat) {
            None => None,
            Some((l, k)) => {
                let (e, k2) = rest_syntax(t, p + k, l, lvl);
                Some((e, k + k2))
            },
        }
    }
}

/// The rest of a chain of level `lvl` after `lhs`: each step is an operator of the level with
/// whitespace on both sides, then an operand of the level below.
pub open spec fn rest_syntax(t: Seq<Token>, q: nat, lhs: Syntax, lvl: nat) -> (Syntax, nat)
    decreases dist(t, q), 0nat,
{
    let w = ws_run(t, q);
    let o = q + w;
    if w > 0 && o < t.len() && lvl >= 1 && level_op(t[o as int], lvl) {
        let w2 = ws_run(t, o + 1);
        if w2 > 0 {
            match level_syntax(t, o + 1 + w2, (lvl - 1) as nat) {
                Some((r, k)) => {
                    let (e, k3) = rest_syntax(t, o + 1 + w2 + k, combine(t[o as int], lhs, r), lvl);
                    (e, w + 1 + w2 + k + k3)
                },
                None => (lhs, 0),
            }
        } else {
            (lhs, 0)
        }
    } else {
        (lhs, 0)
    }
}

/// An expression at `p`, with the whitespace around it.
pub open spec fn expr_syntax(t: Seq<Token>, p: nat) -> Option<(Syntax, nat)>
    decreases dist(t, p), 5nat,
{
    let w = ws_run(t, p);
    match level_syntax(t, p + w, 3) {
        None => None,
        Some((e, k)) => Some((e, w + k + ws_run(t, p + w + k))),
    }
}

/// The statements from `p` on, after the statements `acc`: each is an expression followed by
/// `;` separators, and the last may lack them. The statements, whether the last is terminated,
/// and the number of tokens taken.
pub open spec fn statements_from(t: Seq<Token>, p: nat, acc: Seq<Syntax>) -> (Seq<Syntax>, bool, nat)
    decreases dist(t, p), 6nat,
{
    if p >= t.len() {
        (acc, acc.len() > 0, 0)
    } else {
        match expr_syntax(t, p) {
            None => (acc, acc.len() > 0, 0),
            Some((e, k)) => {
                let s = semicolons(t, p + k);
                if s > 0 {
                    let (items, term, k2) = statements_from(t, p + k + s, acc.push(e));
                    (items, term, k + s + k2)
                } else {
                    (acc.push(e), false, k)
                }
            },
        }
    }
}

/// A block after `(`: statements and `)`.
pub open spec fn wrapped_syntax(t: Seq<Token>, q: nat) -> Option<(Syntax, nat)>
    decreases dist(t, q), 8nat,
{
    let (items, term, k) = statements_from(t, q, Seq::empty());
    let e = q + k;
    if e < t.len() && t[e as int] is RightParen {
        Some((statements_syntax(items, term), k + 1))
    } else {
        None
    }
}

/// A list after `[`: expressions separated by `,` (a trailing `,` allowed), then `]`.
pub open spec fn list_syntax(t: Seq<Token>, q: nat) -> Option<(Syntax, nat)>
    decreases dist(t, q), 8nat,
{
    let w = ws_run(t, q);
    let (items, k): (Seq<Syntax>, nat) = match level_syntax(t, q + w, 3) {
        None => (Seq::empty(), 0),
        Some((e, k1)) => {
            let (items, k2) = items_rest(t, q + w + k1, seq![e]);
            (items, k1 + k2)
        },
    };
    let e = q + w + k;
    let w2 = ws_run(t, e);
    if e + w2 < t.len() && t[(e + w2) as int] is RightBracket {
        Some((Syntax::List(items), w + k + w2 + 1))
    } else {
        None
    }
}

/// The further list items from `q` on, after the items `acc`.
pub open spec fn items_rest(t: Seq<Token>, q: nat, acc: Seq<Syntax>) -> (Seq<Syntax>, nat)
    decreases dist(t, q), 0nat,
{
    match separator(t, q, true) {
        None => (acc, 0),
        Some(n) => match level_syntax(t, q + n, 3) {
            None => (acc, n),
            Some((e, k)) => {
                let (items, k2) = items_rest(t, q + n + k, acc.push(e));
                (items, n + k + k2)
            },
        },
    }
}

/// A map after `{`: entries separated by `,` (a trailing `,` allowed), then `}`.
pub open spec fn map_syntax(t: Seq<Token>, q: nat) -> Option<(Syntax, nat)>
    decreases dist(t, q), 8nat,
{
    let w = ws_run(t, q);
    let (entries, k): (Seq<(Syntax, Syntax)>, nat) = match entry_syntax(t, q + w) {
        None => (Seq::empty(), 0),
        Some((e, k1)) => {
            let (entries, k2) = entries_rest(t, q + w + k1, seq![e]);
            (entries, k1 + k2)
        },
    };
    let e = q + w + k;
    let w2 = ws_run(t, e);
    if e + w2 < t.len() && t[(e + w2) as int] is RightCurly {
        Some((Syntax::KeyValueMap(entries), w + k + w2 + 1))
    } else {
        None
    }
}

/// The further map entries from `q` on, after the entries `acc`.
pub open spec fn entries_rest(t: Seq<Token>, q: nat, acc: Seq<(Syntax, Syntax)>) -> (
    Seq<(Syntax, Syntax)>,
    nat,
)
    decreases dist(t, q), 0nat,
{
    match separator(t, q, true) {
        None => (acc, 0),
        Some(n) => match entry_syntax(t, q + n) {
            None => (acc, n),
            Some((e, k)) => {
                let (entries, k2) = entries_rest(t, q + n + k, acc.push(e));
                (entries, n + k + k2)
            },
        },
    }
}

/// The expression of a whole script, if its tokens form one: either only `;` tokens (at least
/// one, consecutive, with whitespace around them), which is an empty block, or statements that
/// take all tokens.
pub open spec fn script_syntax(t: Seq<Token>) -> Option<Syntax> {
    let w = ws_run(t, 0);
    let n = semicolon_run(t, w);
    if n > 0 {
        if w + n + ws_run(t, w + n) == t.len() {
            Some(Syntax::Statements(Seq::empty(), false))
        } else {
            None
        }
    } else {
        let (items, term, k) = statements_from(t, 0, Seq::empty());
        if k == t.len() {
            Some(statements_syntax(items, term))
        } else {
            None
        }
    }
}

// ---------------------------------------------------------------------------------------------
// Reading literals
// ---------------------------------------------------------------------------------------------

/// Digits that hold an invalid character before position `j` hold one overall.
proof fn lemma_digits_prefix_none(s: Seq<char>, radix: nat, j: int)
    requires
        0 <= j <= s.len(),
        digits_value(s.take(j), radix) is None,
    ensures
        digits_value(s, radix) is None,
    decreases s.len(),
{
    if j < s.len() {
        assert(s.drop_last().take(j) =~= s.take(j));
        lemma_digits_prefix_none(s.drop_last(), radix, j);
    } else {
        assert(s.take(j) =~= s);
    }
}

/// The value of digit `c` in `radix`.
fn digit_of(c: char, radix: u32) -> (r: Option<u32>)
    requires
        radix <= 36,
    ensures
        match r {
            Some(d) => digit_value(c, radix as nat) == Some(d as nat),
            None => digit_value(c, radix as nat) is None,
        },
{
    let u = c as u32;
    let v: u32 = if 48 <= u && u <= 57 {
        u - 48
    } else if 97 <= u && u <= 122 {
        u - 97 + 10
    } else if 65 <= u && u <= 90 {
        u - 65 + 10
    } else {
        radix
    };
    if v < radix {
        Some(v)
    } else {
        None
    }
}

/// The value of the number `s[start..]` in `radix`; `None` when it holds an invalid
/// character or no digit, or when its value exceeds `u128::MAX`.
fn number_of(s: &Vec<char>, start: usize, radix: u32) -> (r: Option<u128>)
    requires
        start <= s@.len(),
        2 <= radix <= 16,
    ensures
        match r {
            Some(v) => number_value(s@.skip(start as int), radix as nat) == Some(v as nat),
            None => number_value(s@.skip(start as int), radix as nat) matches Some(v) ==> v
                > u128::MAX,
        },
{
    let ghost d = s@.skip(start as int);
    let mut acc: u128 = 0;
    let mut over = false;
    let mut seen = false;
    let mut i = start;
    while i < s.len()
        invariant
            start <= i <= s@.len(),
            d == s@.skip(start as int),
            2 <= radix <= 16,
            digits_value(d.take(i - start), radix as nat) matches Some(v) && (over ==> v
                > u128::MAX) && (!over ==> v == acc),
            seen == has_digit(d.take(i - start)),
        decreases s@.len() - i,
    {
        let c = s[i];
        let ghost prefix = d.take(i - start);
        let ghost next = d.take(i - start + 1);
        assert(next.drop_last() =~= prefix);
        assert(next.last() == c);
        if c == '_' {
            assert(has_digit(next) == has_digit(prefix)) by {
                if has_digit(next) {
                    let j = choose|j: int| 0 <= j < next.len() && next[j] != '_';
                    assert(j < prefix.len() && prefix[j] == next[j]);
                }
                if has_digit(prefix) {
                    let j = choose|j: int| 0 <= j < prefix.len() && prefix[j] != '_';
                    assert(next[j] == prefix[j]);
                }
            }
        } else {
            match digit_of(c, radix) {
                None => {
                    proof {
                        lemma_digits_prefix_none(d, radix as nat, i - start + 1);
                    }
                    return None;
                },
                Some(dv) => {
                    assert(has_digit(next)) by {
                        assert(next[next.len() - 1] != '_');
                    }
                    let ghost v = digits_value(prefix, radix as nat)->0;
                    assert(v * radix >= v) by (nonlinear_arith)
                        requires
                            radix >= 2,
                    ;
                    if !over {
                        match acc.checked_mul(radix as u128) {
                            None => {
                                over = true;
                            },
                            Some(m) => match m.checked_add(dv as u128) {
                                None => {
                                    over = true;
                                },
                                Some(a) => {
                                    acc = a;
                                },
                            },
                        }
                    }
                    seen = true;
                },
            }
        }
        i = i + 1;
    }
    assert(d.take(i - start) =~= d);
    if !seen || over {
        None
    } else {
        Some(acc)
    }
}

/// The sign and magnitude of the integer that the number part `s` of a literal denotes (see
/// `literal_integer`); `None` when it denotes none or one beyond `u128::MAX` in magnitude.
fn literal_integer_of(s: &String, radix: u32) -> (r: Option<(bool, u128)>)
    requires
        radix == 2 || radix == 8 || radix == 10 || radix == 16,
    ensures
        match r {
            Some((neg, m)) => literal_integer(s@, radix as nat) == Some(
                if neg { -(m as int) } else { m as int },
            ),
            None => literal_integer(s@, radix as nat) matches Some(n) ==> (n > u128::MAX || n
                < -u128::MAX),
        },
{
    let cs = chars_of(s.as_str());
    if radix == 10 {
        let signed = cs.len() > 0 && (cs[0] == '-' || cs[0] == '+');
        let neg = cs.len() > 0 && cs[0] == '-';
        let start: usize = if signed { 1 } else { 0 };
        assert(cs@.skip(0) =~= cs@);
        match number_of(&cs, start, radix) {
            Some(m) => Some((neg, m)),
            None => None,
        }
    } else if cs.len() >= 2 {
        match number_of(&cs, 2, radix) {
            Some(m) => Some((false, m)),
            None => None,
        }
    } else {
        None
    }
}

/// The integer expression of sign `neg` and magnitude `m`, typed by `variant` where given.
fn integer_expression(neg: bool, m: u128, variant: Option<IntegerTypeVariant>) -> (r: Option<
    DatexExpression,
>)
    ensures
        match integer_syntax(if neg { -(m as int) } else { m as int }, variant) {
            Some(s) => r matches Some(e) && expression_is(e, s),
            None => r is None,
        },
{
    let ghost n: int = if neg { -(m as int) } else { m as int };
    let signed: Option<i128> = if neg {
        if m < 0x8000_0000_0000_0000_0000_0000_0000_0000u128 {
            Some(-(m as i128))
        } else if m == 0x8000_0000_0000_0000_0000_0000_0000_0000u128 {
            Some(i128::MIN)
        } else {
            None
        }
    } else if m <= 0x7fff_ffff_ffff_ffff_ffff_ffff_ffff_ffffu128 {
        Some(m as i128)
    } else {
        None
    };
    assert(signed matches Some(v) ==> v == n);
    assert(signed is None ==> !(i128::MIN <= n <= i128::MAX));
    let unsigned: Option<u128> = if neg && m != 0 {
        None
    } else {
        Some(m)
    };
    assert(unsigned matches Some(v) ==> v == n);
    assert(unsigned is None ==> n < 0);
    match variant {
        None => match signed {
            Some(v) => Some(DatexExpression::Integer(Integer { value: v })),
            None => None,
        },
        Some(IntegerTypeVariant::Big) => match signed {
            Some(v) => Some(DatexExpression::TypedInteger(TypedInteger::Big(Integer { value: v }))),
            None => None,
        },
        Some(IntegerTypeVariant::I128) => match signed {
            Some(v) => Some(DatexExpression::TypedInteger(TypedInteger::I128(v))),
            None => None,
        },
        Some(IntegerTypeVariant::I64) => match signed {
            Some(v) => if -0x8000_0000_0000_0000i128 <= v && v <= 0x7fff_ffff_ffff_ffffi128 {
                Some(DatexExpression::TypedInteger(TypedInteger::I64(v as i64)))
            } else {
                None
            },
            None => None,
        },
        Some(IntegerTypeVariant::I32) => match signed {
            Some(v) => if -0x8000_0000i128 <= v && v <= 0x7fff_ffffi128 {
                Some(DatexExpression::TypedInteger(TypedInteger::I32(v as i32)))
            } else {
                None
            },
            None => None,
        },
        Some(IntegerTypeVariant::I16) => match signed {
            Some(v) => if -0x8000i128 <= v && v <= 0x7fffi128 {
                Some(DatexExpression::TypedInteger(TypedInteger::I16(v as i16)))
            } else {
                None
            },
            None => None,
        },
        Some(IntegerTypeVariant::I8) => match signed {
            Some(v) => if -0x80i128 <= v && v <= 0x7fi128 {
                Some(DatexExpression::TypedInteger(TypedInteger::I8(v as i8)))
            } else {
                None
            },
            None => None,
        },
        Some(IntegerTypeVariant::U128) => match unsigned {
            Some(v) => Some(DatexExpression::TypedInteger(TypedInteger::U128(v))),
            None => None,
        },
        Some(IntegerTypeVariant::U64) => match unsigned {
            Some(v) => if v <= 0xffff_ffff_ffff_ffffu128 {
                Some(DatexExpression::TypedInteger(TypedInteger::U64(v as u64)))
            } else {
                None
            },
            None => None,
        },
        Some(IntegerTypeVariant::U32) => match unsigned {
            Some(v) => if v <= 0xffff_ffffu128 {
                Some(DatexExpression::TypedInteger(TypedInteger::U32(v as u32)))
            } else {
                None
            },
            None => None,
        },
        Some(IntegerTypeVariant::U16) => match unsigned {
            Some(v) => if v <= 0xffffu128 {
                Some(DatexExpression::TypedInteger(TypedInteger::U16(v as u16)))
            } else {
                None
            },
            None => None,
        },
        Some(IntegerTypeVariant::U8) => match unsigned {
            Some(v) => if v <= 0xffu128 {
                Some(DatexExpression::TypedInteger(TypedInteger::U8(v as u8)))
            } else {
                None
            },
            None => None,
        },
    }
}

/// The expression of an integer literal token of the given radix.
fn integer_literal_expression(
    lit: &crate::compiler::lexer::token::IntegerLiteral,
    radix: u32,
) -> (r: Option<DatexExpression>)
    requires
        radix == 2 || radix == 8 || radix == 10 || radix == 16,
    ensures
        match (match literal_integer(lit.value@, radix as nat) {
            Some(n) => integer_syntax(n, lit.variant),
            None => None,
        }) {
            Some(s) => r matches Some(e) && expression_is(e, s),
            None => r is None,
        },
{
    match literal_integer_of(&lit.value, radix) {
        Some((neg, m)) => integer_expression(neg, m, lit.variant),
        None => None,
    }
}

/// The text of a text literal (see `text_literal`).
fn text_literal_of(s: &String) -> (r: Option<String>)
    ensures
        match text_literal(s@) {
            Some(x) => r matches Some(y) && y@ == x,
            None => r is None,
        },
{
    let cs = chars_of(s.as_str());
    let n = cs.len();
    if n >= 2 && (cs[0] as u32) < 0x80 && (cs[n - 1] as u32) < 0x80 {
        Some(unescape_text(s.as_str()))
    } else {
        None
    }
}

/// The expression of a token that can be a map key on its own (see `key_literal_syntax`).
fn key_literal_expression(tok: &Token) -> (r: Option<DatexExpression>)
    ensures
        match key_literal_syntax(*tok) {
            Some(s) => r matches Some(e) && expression_is(e, s),
            None => r is None,
        },
{
    match tok {
        Token::StringLiteral(s) => match text_literal_of(s) {
            Some(x) => Some(DatexExpression::Text(x)),
            None => None,
        },
        Token::Nan => Some(DatexExpression::Decimal(Decimal::Nan)),
        Token::Infinity(s) => {
            let cs = chars_of(s.as_str());
            if cs.len() > 0 && cs[0] == '-' {
                Some(DatexExpression::Decimal(Decimal::NegInfinity))
            } else {
                Some(DatexExpression::Decimal(Decimal::Infinity))
            }
        },
        Token::DecimalIntegerLiteral(l) => integer_literal_expression(l, 10),
        Token::HexadecimalIntegerLiteral(l) => integer_literal_expression(l, 16),
        Token::OctalIntegerLiteral(l) => integer_literal_expression(l, 8),
        Token::BinaryIntegerLiteral(l) => integer_literal_expression(l, 2),
        _ => None,
    }
}

/// The expression of a token that is an expression on its own (see `literal_syntax`).
fn literal_expression(tok: &Token) -> (r: Option<DatexExpression>)
    ensures
        match literal_syntax(*tok) {
            Some(s) => r matches Some(e) && expression_is(e, s),
            None => r is None,
        },
{
    match tok {
        Token::True => Some(DatexExpression::Boolean(true)),
        Token::False => Some(DatexExpression::Boolean(false)),
        Token::Null => Some(DatexExpression::Null),
        Token::Placeholder => Some(DatexExpression::Placeholder),
        Token::Identifier(name) => Some(DatexExpression::VariableAccess(name.clone())),
        _ => key_literal_expression(tok),
    }
}

// ---------------------------------------------------------------------------------------------
// The parser
// ---------------------------------------------------------------------------------------------

/// Why a script could not be parsed.
#[derive(Debug, PartialEq, Eq)]
pub enum ParserError {
    /// The tokens do not form a script.
    UnexpectedToken,
    /// No token starts at a position of the source.
    InvalidToken(core::ops::Range<usize>),
}

/// `res` is what the grammar gives at `p` (`spec`): nothing, or the expression that the tree
/// describes and the same number of tokens, which lie within `t`.
pub open spec fn parsed(
    t: Seq<Token>,
    p: nat,
    res: Option<(DatexExpression, usize)>,
    spec: Option<(Syntax, nat)>,
) -> bool {
    match spec {
        None => res is None,
        Some((s, k)) => res matches Some((e, k2)) && k2 == k && expression_is(e, s) && p + k
            <= t.len(),
    }
}

/// As `parsed`, for a map entry.
pub open spec fn parsed_entry(
    t: Seq<Token>,
    p: nat,
    res: Option<((DatexExpression, DatexExpression), usize)>,
    spec: Option<((Syntax, Syntax), nat)>,
) -> bool {
    match spec {
        None => res is None,
        Some((s, k)) => res matches Some((e, k2)) && k2 == k && entry_is(e, s) && p + k
            <= t.len(),
    }
}

/// The number of whitespace tokens from `p` on.
fn ws_count(t: &Vec<Token>, p: usize) -> (n: usize)
    requires
        p <= t@.len(),
    ensures
        n == ws_run(t@, p as nat),
        p + n <= t@.len(),
    decreases t@.len() - p,
{
    if p < t.len() {
        match &t[p] {
            Token::Whitespace => {
                let n = ws_count(t, p + 1);
                n + 1
            },
            _ => 0,
        }
    } else {
        0
    }
}

/// The number of consecutive `;` tokens from `p` on.
fn semicolon_count(t: &Vec<Token>, p: usize) -> (n: usize)
    requires
        p <= t@.len(),
    ensures
        n == semicolon_run(t@, p as nat),
        p + n <= t@.len(),
    decreases t@.len() - p,
{
    if p < t.len() {
        match &t[p] {
            Token::Semicolon => {
                let n = semicolon_count(t, p + 1);
                n + 1
            },
            _ => 0,
        }
    } else {
        0
    }
}

/// The separator at `q` (see `separator`).
fn separator_len(t: &Vec<Token>, q: usize, comma: bool) -> (r: Option<usize>)
    requires
        q <= t@.len(),
    ensures
        match separator(t@, q as nat, comma) {
            Some(n) => r == Some(n as usize) && q + n <= t@.len(),
            None => r is None,
        },
        r matches Some(n) ==> n >= 1 && q < t@.len(),
{
    let len = t.len();
    let w = ws_count(t, q);
    let r = q + w;
    if r < len {
        let hit = match &t[r] {
            Token::Comma => comma,
            Token::Semicolon => !comma,
            _ => false,
        };
        if hit {
            let w2 = ws_count(t, r + 1);
            Some(w + 1 + w2)
        } else {
            None
        }
    } else {
        None
    }
}

/// The number of tokens that the `;` separators from `q` on take.
fn semicolons_len(t: &Vec<Token>, q: usize) -> (n: usize)
    requires
        q <= t@.len(),
    ensures
        n == semicolons(t@, q as nat),
        q + n <= t@.len(),
    decreases t@.len() - q,
{
    let len = t.len();
    match separator_len(t, q, false) {
        Some(n) => {
            let m = semicolons_len(t, q + n);
            n + m
        },
        None => 0,
    }
}

/// Whether `tok` is an operator of precedence level `lvl`.
fn is_level_op(tok: &Token, lvl: usize) -> (b: bool)
    ensures
        b == level_op(*tok, lvl as nat),
{
    match tok {
        Token::Star | Token::Slash => lvl == 1,
        Token::Plus | Token::Minus => lvl == 2,
        Token::StructuralEqual | Token::Equal | Token::NotStructuralEqual | Token::NotEqual
        | Token::Is => lvl == 3,
        _ => false,
    }
}

/// The operation of operator `tok` on `l` and `r` (see `combine`).
fn combine_expressions(
    tok: &Token,
    l: DatexExpression,
    r: DatexExpression,
    Ghost(ls): Ghost<Syntax>,
    Ghost(rs): Ghost<Syntax>,
) -> (e: DatexExpression)
    requires
        expression_is(l, ls),
        expression_is(r, rs),
    ensures
        expression_is(e, combine(*tok, ls, rs)),
{
    let (l, r) = (Box::new(l), Box::new(r));
    match tok {
        Token::Star => DatexExpression::BinaryOperation(OperationMode::Multiply, l, r),
        Token::Slash => DatexExpression::BinaryOperation(OperationMode::Divide, l, r),
        Token::Plus => DatexExpression::BinaryOperation(OperationMode::Add, l, r),
        Token::Minus => DatexExpression::BinaryOperation(OperationMode::Subtract, l, r),
        Token::StructuralEqual => DatexExpression::ComparisonOperation(
            ComparisonOperator::StructuralEqual,
            l,
            r,
        ),
        Token::Equal => DatexExpression::ComparisonOperation(ComparisonOperator::Equal, l, r),
        Token::NotStructuralEqual => DatexExpression::ComparisonOperation(
            ComparisonOperator::NotStructuralEqual,
            l,
            r,
        ),
        Token::NotEqual => DatexExpression::ComparisonOperation(ComparisonOperator::NotEqual, l, r),
        _ => DatexExpression::ComparisonOperation(ComparisonOperator::Is, l, r),
    }
}

/// A block of the statements `items` (see `statements_syntax`).
fn block_of(items: Vec<DatexExpression>, terminated: bool, Ghost(ss): Ghost<Seq<Syntax>>) -> (e:
    DatexExpression)
    requires
        expressions_are(items@, ss),
    ensures
        expression_is(e, statements_syntax(ss, terminated)),
{
    if items.len() == 1 && !terminated {
        let mut items = items;
        let e = items.pop().unwrap();
        assert(expression_is(e, ss[0]));
        e
    } else {
        DatexExpression::Statements(items, terminated, None)
    }
}

/// The atom at `p` (see `atom_syntax`).
fn parse_atom(t: &Vec<Token>, p: usize) -> (res: Option<(DatexExpression, usize)>)
    requires
        p <= t@.len(),
    ensures
        parsed(t@, p as nat, res, atom_syntax(t@, p as nat)),
    decreases dist(t@, p as nat), 0nat,
{
    let len = t.len();
    if p >= len {
        return None;
    }
    match &t[p] {
        Token::LeftBracket => match parse_list(t, p + 1) {
            Some((e, k)) => Some((e, k + 1)),
            None => None,
        },
        Token::LeftCurly => match parse_map(t, p + 1) {
            Some((e, k)) => Some((e, k + 1)),
            None => None,
        },
        Token::LeftParen => match parse_wrapped(t, p + 1) {
            Some((e, k)) => Some((e, k + 1)),
            None => None,
        },
        tok => match literal_expression(tok) {
            Some(e) => Some((e, 1)),
            None => None,
        },
    }
}

/// The map key at `p` (see `key_syntax`).
fn parse_key(t: &Vec<Token>, p: usize) -> (res: Option<(DatexExpression, usize)>)
    requires
        p <= t@.len(),
    ensures
        parsed(t@, p as nat, res, key_syntax(t@, p as nat)),
    decreases dist(t@, p as nat), 1nat,
{
    let len = t.len();
    if p >= len {
        return None;
    }
    match &t[p] {
        Token::LeftParen => match parse_wrapped(t, p + 1) {
            Some((e, k)) => Some((e, k + 1)),
            None => None,
        },
        Token::Identifier(name) => Some((DatexExpression::Text(name.clone()), 1)),
        tok => match key_literal_expression(tok) {
            Some(e) => Some((e, 1)),
            None => None,
        },
    }
}

/// The map entry at `p` (see `entry_syntax`).
fn parse_entry(t: &Vec<Token>, p: usize) -> (res: Option<((DatexExpression, DatexExpression), usize)>)
    requires
        p <= t@.len(),
    ensures
        parsed_entry(t@, p as nat, res, entry_syntax(t@, p as nat)),
    decreases dist(t@, p as nat), 2nat,
{
    let len = t.len();
    match parse_key(t, p) {
        None => None,
        Some((key, k1)) => {
            let c = p + k1;
            let w = ws_count(t, c);
            if c + w < len {
                match &t[c + w] {
                    Token::Colon => {
                        let w2 = ws_count(t, c + w + 1);
                        match parse_level(t, c + w + 1 + w2, 3) {
                            Some((value, k2)) => Some(((key, value), k1 + w + 1 + w2 + k2)),
                            None => None,
                        }
                    },
                    _ => None,
                }
            } else {
                None
            }
        },
    }
}

/// The operand chain of level `lvl` at `p` (see `level_syntax`).
fn parse_level(t: &Vec<Token>, p: usize, lvl: usize) -> (res: Option<(DatexExpression, usize)>)
    requires
        p <= t@.len(),
        lvl <= 3,
    ensures
        parsed(t@, p as nat, res, level_syntax(t@, p as nat, lvl as nat)),
    decreases dist(t@, p as nat), lvl + 1,
{
    let len = t.len();
    if lvl == 0 {
        return parse_atom(t, p);
    }
    match parse_level(t, p, lvl - 1) {
        None => None,
        Some((l, k)) => {
            let ghost ls = level_syntax(t@, p as nat, (lvl - 1) as nat).unwrap().0;
            let (e, k2) = parse_rest(t, p + k, l, Ghost(ls), lvl);
            Some((e, k + k2))
        },
    }
}

/// The rest of a chain of level `lvl` after `lhs` (see `rest_syntax`).
fn parse_rest(t: &Vec<Token>, q: usize, lhs: DatexExpression, Ghost(ls): Ghost<Syntax>, lvl: usize) -> (res: (
    DatexExpression,
    usize,
))
    requires
        q <= t@.len(),
        1 <= lvl <= 3,
        expression_is(lhs, ls),
    ensures
        expression_is(res.0, rest_syntax(t@, q as nat, ls, lvl as nat).0),
        res.1 == rest_syntax(t@, q as nat, ls, lvl as nat).1,
        q + res.1 <= t@.len(),
    decreases dist(t@, q as nat), 0nat,
{
    let len = t.len();
    let w = ws_count(t, q);
    let o = q + w;
    if w > 0 && o < len && is_level_op(&t[o], lvl) {
        let w2 = ws_count(t, o + 1);
        if w2 > 0 {
            match parse_level(t, o + 1 + w2, lvl - 1) {
                Some((r, k)) => {
                    let ghost rs = level_syntax(t@, (o + 1 + w2) as nat, (lvl - 1) as nat).unwrap().0;
                    let c = combine_expressions(&t[o], lhs, r, Ghost(ls), Ghost(rs));
                    let (e, k3) = parse_rest(
                        t,
                        o + 1 + w2 + k,
                        c,
                        Ghost(combine(t@[o as int], ls, rs)),
                        lvl,
                    );
                    (e, w + 1 + w2 + k + k3)
                },
                None => (lhs, 0),
            }
        } else {
            (lhs, 0)
        }
    } else {
        (lhs, 0)
    }
}

/// The expression at `p` (see `expr_syntax`).
fn parse_expr(t: &Vec<Token>, p: usize) -> (res: Option<(DatexExpression, usize)>)
    requires
        p <= t@.len(),
    ensures
        parsed(t@, p as nat, res, expr_syntax(t@, p as nat)),
    decreases dist(t@, p as nat), 5nat,
{
    let len = t.len();
    let w = ws_count(t, p);
    match parse_level(t, p + w, 3) {
        None => None,
        Some((e, k)) => {
            let w2 = ws_count(t, p + w + k);
            Some((e, w + k + w2))
        },
    }
}

/// The statements from `p` on, after `acc` (see `statements_from`).
fn parse_statements_from(
    t: &Vec<Token>,
    p: usize,
    acc: Vec<DatexExpression>,
    Ghost(accs): Ghost<Seq<Syntax>>,
) -> (res: (Vec<DatexExpression>, bool, usize))
    requires
        p <= t@.len(),
        expressions_are(acc@, accs),
    ensures
        expressions_are(res.0@, statements_from(t@, p as nat, accs).0),
        res.1 == statements_from(t@, p as nat, accs).1,
        res.2 == statements_from(t@, p as nat, accs).2,
        p + res.2 <= t@.len(),
    decreases dist(t@, p as nat), 6nat,
{
    let len = t.len();
    if p >= len {
        let term = acc.len() > 0;
        return (acc, term, 0);
    }
    match parse_expr(t, p) {
        None => {
            let term = acc.len() > 0;
            (acc, term, 0)
        },
        Some((e, k)) => {
            let ghost es = expr_syntax(t@, p as nat).unwrap().0;
            let s = semicolons_len(t, p + k);
            let mut acc = acc;
            acc.push(e);
            assert(expressions_are(acc@, accs.push(es)));
            if s > 0 {
                let (items, term, k2) = parse_statements_from(t, p + k + s, acc, Ghost(accs.push(es)));
                (items, term, k + s + k2)
            } else {
                (acc, false, k)
            }
        },
    }
}

/// The block after `(` at `q` (see `wrapped_syntax`).
fn parse_wrapped(t: &Vec<Token>, q: usize) -> (res: Option<(DatexExpression, usize)>)
    requires
        q <= t@.len(),
    ensures
        parsed(t@, q as nat, res, wrapped_syntax(t@, q as nat)),
    decreases dist(t@, q as nat), 8nat,
{
    let len = t.len();
    let (items, term, k) = parse_statements_from(t, q, Vec::new(), Ghost(Seq::empty()));
    let ghost ss = statements_from(t@, q as nat, Seq::empty()).0;
    let e = q + k;
    if e < len {
        match &t[e] {
            Token::RightParen => Some((block_of(items, term, Ghost(ss)), k + 1)),
            _ => None,
        }
    } else {
        None
    }
}

/// The list after `[` at `q` (see `list_syntax`).
fn parse_list(t: &Vec<Token>, q: usize) -> (res: Option<(DatexExpression, usize)>)
    requires
        q <= t@.len(),
    ensures
        parsed(t@, q as nat, res, list_syntax(t@, q as nat)),
    decreases dist(t@, q as nat), 8nat,
{
    let len = t.len();
    let w = ws_count(t, q);
    let ghost mut ss: Seq<Syntax> = Seq::empty();
    let (items, k): (Vec<DatexExpression>, usize) = match parse_level(t, q + w, 3) {
        None => (Vec::new(), 0),
        Some((e, k1)) => {
            let ghost es = level_syntax(t@, (q + w) as nat, 3).unwrap().0;
            let mut v: Vec<DatexExpression> = Vec::new();
            v.push(e);
            let ghost first: Seq<Syntax> = seq![es];
            assert(expressions_are(v@, first));
            let (items, k2) = parse_items_rest(t, q + w + k1, v, Ghost(first));
            proof {
                ss = items_rest(t@, (q + w + k1) as nat, first).0;
            }
            (items, k1 + k2)
        },
    };
    assert(expressions_are(items@, ss));
    let e = q + w + k;
    let w2 = ws_count(t, e);
    if e + w2 < len {
        match &t[e + w2] {
            Token::RightBracket => Some((DatexExpression::List(items), w + k + w2 + 1)),
            _ => None,
        }
    } else {
        None
    }
}

/// The further list items from `q` on, after `acc` (see `items_rest`).
fn parse_items_rest(
    t: &Vec<Token>,
    q: usize,
    acc: Vec<DatexExpression>,
    Ghost(accs): Ghost<Seq<Syntax>>,
) -> (res: (Vec<DatexExpression>, usize))
    requires
        q <= t@.len(),
        expressions_are(acc@, accs),
    ensures
        expressions_are(res.0@, items_rest(t@, q as nat, accs).0),
        res.1 == items_rest(t@, q as nat, accs).1,
        q + res.1 <= t@.len(),
    decreases dist(t@, q as nat), 0nat,
{
    let len = t.len();
    match separator_len(t, q, true) {
        None => (acc, 0),
        Some(n) => match parse_level(t, q + n, 3) {
            None => (acc, n),
            Some((e, k)) => {
                let ghost es = level_syntax(t@, (q + n) as nat, 3).unwrap().0;
                let mut acc = acc;
                acc.push(e);
                assert(expressions_are(acc@, accs.push(es)));
                let (items, k2) = parse_items_rest(t, q + n + k, acc, Ghost(accs.push(es)));
                (items, n + k + k2)
            },
        },
    }
}

/// The map after `{` at `q` (see `map_syntax`).
fn parse_map(t: &Vec<Token>, q: usize) -> (res: Option<(DatexExpression, usize)>)
    requires
        q <= t@.len(),
    ensures
        parsed(t@, q as nat, res, map_syntax(t@, q as nat)),
    decreases dist(t@, q as nat), 8nat,
{
    let len = t.len();
    let w = ws_count(t, q);
    let ghost mut ss: Seq<(Syntax, Syntax)> = Seq::empty();
    let (entries, k): (Vec<(DatexExpression, DatexExpression)>, usize) = match parse_entry(t, q + w) {
        None => (Vec::new(), 0),
        Some((e, k1)) => {
            let ghost es = entry_syntax(t@, (q + w) as nat).unwrap().0;
            let mut v: Vec<(DatexExpression, DatexExpression)> = Vec::new();
            v.push(e);
            let ghost first: Seq<(Syntax, Syntax)> = seq![es];
            assert(entries_are(v@, first));
            let (entries, k2) = parse_entries_rest(t, q + w + k1, v, Ghost(first));
            proof {
                ss = entries_rest(t@, (q + w + k1) as nat, first).0;
            }
            (entries, k1 + k2)
        },
    };
    assert(entries_are(entries@, ss));
    let e = q + w + k;
    let w2 = ws_count(t, e);
    if e + w2 < len {
        match &t[e + w2] {
            Token::RightCurly => Some((DatexExpression::KeyValueMap(entries), w + k + w2 + 1)),
            _ => None,
        }
    } else {
        None
    }
}

/// The further map entries from `q` on, after `acc` (see `entries_rest`).
fn parse_entries_rest(
    t: &Vec<Token>,
    q: usize,
    acc: Vec<(DatexExpression, DatexExpression)>,
    Ghost(accs): Ghost<Seq<(Syntax, Syntax)>>,
) -> (res: (Vec<(DatexExpression, DatexExpression)>, usize))
    requires
        q <= t@.len(),
        entries_are(acc@, accs),
    ensures
        entries_are(res.0@, entries_rest(t@, q as nat, accs).0),
        res.1 == entries_rest(t@, q as nat, accs).1,
        q + res.1 <= t@.len(),
    decreases dist(t@, q as nat), 0nat,
{
    let len = t.len();
    match separator_len(t, q, true) {
        None => (acc, 0),
        Some(n) => match parse_entry(t, q + n) {
            None => (acc, n),
            Some((e, k)) => {
                let ghost es = entry_syntax(t@, (q + n) as nat).unwrap().0;
                let mut acc = acc;
                acc.push(e);
                assert(entries_are(acc@, accs.push(es)));
                let (entries, k2) = parse_entries_rest(t, q + n + k, acc, Ghost(accs.push(es)));
                (entries, n + k + k2)
            },
        },
    }
}

/// Parses the tokens of a script into its expression (see `script_syntax`): a script of
/// `;` tokens only is an empty block; otherwise its statements must take all tokens, and a
/// single statement without `;` is its expression.
pub fn parse_tokens(tokens: &Vec<Token>) -> (res: Result<DatexExpression, ParserError>)
    ensures
        match script_syntax(tokens@) {
            Some(s) => res matches Ok(e) && expression_is(e, s),
            None => res == Err::<DatexExpression, ParserError>(ParserError::UnexpectedToken),
        },
{
    let len = tokens.len();
    let w = ws_count(tokens, 0);
    let n = semicolon_count(tokens, w);
    if n > 0 {
        let w2 = ws_count(tokens, w + n);
        if w + n + w2 == len {
            Ok(DatexExpression::Statements(Vec::new(), false, None))
        } else {
            Err(ParserError::UnexpectedToken)
        }
    } else {
        let (items, term, k) = parse_statements_from(tokens, 0, Vec::new(), Ghost(Seq::empty()));
        let ghost ss = statements_from(tokens@, 0, Seq::empty()).0;
        if k == len {
            Ok(block_of(items, term, Ghost(ss)))
        } else {
            Err(ParserError::UnexpectedToken)
        }
    }
}

// ---------------------------------------------------------------------------------------------
// Parsing source text
// ---------------------------------------------------------------------------------------------

/// One step of the lexer from `p`: it skips comments up to `q`, where the winning rule `r`
/// matches `n` characters and gives `tok`; it ends at `e`.
pub open spec fn lex_step(s: Seq<char>, p: int, tok: Token, e: int) -> bool {
    exists|q: int, r: Rule, n: int|
        #![trigger is_best(s, q, r, n)]
        skips_to(s, p, q) && is_best(s, q, r, n) && !is_skipped(r) && token_of(tok, r, window(s, q, n))
            && e == q + n
}

/// Lexing from `p` gives the tokens `toks` and ends at `e`.
pub open spec fn lexed_to(s: Seq<char>, p: int, toks: Seq<Token>, e: int) -> bool
    decreases toks.len(),
{
    if toks.len() == 0 {
        p == e
    } else {
        exists|m: int|
            #![trigger lex_step(s, p, toks[0], m)]
            lex_step(s, p, toks[0], m) && lexed_to(s, m, toks.drop_first(), e)
    }
}

/// Lexing all of `s` gives the tokens `toks`.
pub open spec fn lexes(s: Seq<char>, toks: Seq<Token>) -> bool {
    exists|e: int| lexed_to(s, 0, toks, e) && skips_to(s, e, s.len() as int)
}

/// Lexing `s` reaches a position where no token starts.
pub open spec fn lex_fails(s: Seq<char>) -> bool {
    exists|toks: Seq<Token>, e: int, q: int|
        #![trigger lexed_to(s, 0, toks, e), no_rule_matches(s, q)]
        lexed_to(s, 0, toks, e) && skips_to(s, e, q) && q < s.len() && no_rule_matches(s, q)
}

/// The index of the first line break of `s` from `i` on (`s.len()` when there is none).
pub open spec fn line_end_from(s: Seq<char>, i: int) -> int
    decreases s.len() - i,
{
    if i >= s.len() {
        s.len() as int
    } else if s[i] == '\n' {
        i
    } else {
        line_end_from(s, i + 1)
    }
}

/// `s` starts with a shebang line (`#!`).
pub open spec fn has_shebang(s: Seq<char>) -> bool {
    s.len() >= 2 && s[0] == '#' && s[1] == '!'
}

/// The source without its shebang line, up to and with the first line break.
pub open spec fn without_shebang(s: Seq<char>) -> Seq<char> {
    if has_shebang(s) {
        s.skip(line_end_from(s, 0) + 1)
    } else {
        s
    }
}

/// A lexing that reaches `e` extends by a step from `e`.
proof fn lemma_lexed_push(s: Seq<char>, p: int, toks: Seq<Token>, e: int, tok: Token, e2: int)
    requires
        lexed_to(s, p, toks, e),
        lex_step(s, e, tok, e2),
    ensures
        lexed_to(s, p, toks.push(tok), e2),
    decreases toks.len(),
{
    let pushed = toks.push(tok);
    if toks.len() == 0 {
        assert(pushed.drop_first() =~= Seq::<Token>::empty());
        assert(p == e);
        assert(lexed_to(s, e2, pushed.drop_first(), e2));
        assert(lex_step(s, p, pushed[0], e2));
    } else {
        let m = choose|m: int|
            #![trigger lex_step(s, p, toks[0], m)]
            lex_step(s, p, toks[0], m) && lexed_to(s, m, toks.drop_first(), e);
        lemma_lexed_push(s, m, toks.drop_first(), e, tok, e2);
        assert(pushed.drop_first() =~= toks.drop_first().push(tok));
        assert(pushed[0] == toks[0]);
        assert(lex_step(s, p, pushed[0], m) && lexed_to(s, m, pushed.drop_first(), e2));
    }
}

/// The tokens of `source`, or the range of the first position where no token starts.
fn lex_all(source: &str) -> (res: Result<Vec<Token>, core::ops::Range<usize>>)
    ensures
        match res {
            Ok(toks) => lexes(source@, toks@),
            Err(_) => lex_fails(source@),
        },
{
    let mut lexer = Token::lexer(source);
    let mut toks: Vec<Token> = Vec::new();
    proof {
        lexer.lemma_within_source();
    }
    loop
        invariant
            lexer.wf(),
            lexer.source() == source@,
            lexed_to(source@, 0, toks@, lexer.position()),
            0 <= lexer.position() <= source@.len(),
        decreases source@.len() - lexer.position(),
    {
        let ghost p0 = lexer.position();
        let ghost toks0 = toks@;
        let next = lexer.next();
        proof {
            lexer.lemma_within_source();
        }
        match next {
            None => {
                assert(lexes(source@, toks@));
                return Ok(toks);
            },
            Some(Ok(tok)) => {
                proof {
                    let q = lexer.start();
                    let n = lexer.position() - q;
                    let r = choose|r: Rule| #[trigger] is_best(source@, q, r, n) && !is_skipped(r)
                        && token_of(tok, r, window(source@, q, n));
                    assert(lex_step(source@, p0, tok, lexer.position()));
                    lemma_lexed_push(source@, 0, toks0, p0, tok, lexer.position());
                }
                toks.push(tok);
            },
            Some(Err(range)) => {
                assert(no_rule_matches(source@, lexer.start()));
                return Err(range);
            },
        }
    }
}

/// Parses DATEX script text into its expression: a shebang line at its start is skipped, the
/// rest is split into tokens and parsed (see `parse_tokens`). Fails with `InvalidToken` where
/// no token starts at some position, and with `UnexpectedToken` where the tokens form no
/// script.
pub fn parse(src: &str) -> (res: Result<DatexExpression, Vec<ParserError>>)
    requires
        has_shebang(src@) ==> line_end_from(src@, 0) < src@.len(),
    ensures
        match res {
            Ok(e) => exists|toks: Seq<Token>|
                lexes(without_shebang(src@), toks) && (#[trigger] script_syntax(toks) matches Some(
                    x,
                ) && expression_is(e, x)),
            Err(errors) => errors@.len() == 1 && match errors@[0] {
                ParserError::InvalidToken(_) => lex_fails(without_shebang(src@)),
                ParserError::UnexpectedToken => exists|toks: Seq<Token>|
                    lexes(without_shebang(src@), toks) && #[trigger] script_syntax(toks) is None,
            },
        },
{
    let chars = chars_of(src);
    let n = chars.len();
    let lexed = if n >= 2 && chars[0] == '#' && chars[1] == '!' {
        let mut i: usize = 0;
        while i < n && chars[i] != '\n'
            invariant
                i <= n == chars@.len(),
                chars@ == src@,
                line_end_from(src@, 0) == line_end_from(src@, i as int),
            decreases n - i,
        {
            i = i + 1;
        }
        assert(i == line_end_from(src@, 0));
        let rest = crate::utils::strings::string_from_chars(&chars, i + 1, n);
        assert(rest@ =~= without_shebang(src@));
        lex_all(rest.as_str())
    } else {
        lex_all(src)
    };
    match lexed {
        Err(range) => {
            let mut errors: Vec<ParserError> = Vec::new();
            errors.push(ParserError::InvalidToken(range));
            Err(errors)
        },
        Ok(tokens) => match parse_tokens(&tokens) {
            Ok(e) => Ok(e),
            Err(e) => {
                let mut errors: Vec<ParserError> = Vec::new();
                errors.push(e);
                Err(errors)
            },
        },
    }
}

// ---------------------------------------------------------------------------------------------
// Laws
// ---------------------------------------------------------------------------------------------

/// A typed integer literal takes the type of its suffix and keeps its value: the integer of
/// variant `v` with value `n` where there is one, and none where no integer of that variant has
/// that value.
pub proof fn lemma_typed_integer_of(n: int, v: IntegerTypeVariant)
    ensures
        typed_integer_of(n, v) matches Some(i) ==> integer_variant(i) == v && typed_integer_value(i)
            == n,
        typed_integer_of(n, v) is None ==> forall|i: TypedInteger|
            integer_variant(i) == v ==> #[trigger] typed_integer_value(i) != n,
{
    if typed_integer_of(n, v) is None {
        assert forall|i: TypedInteger| integer_variant(i) == v implies #[trigger] typed_integer_value(i)
            != n by {
            match i {
                TypedInteger::Big(x) => assert(typed_integer_value(i) == x.value as int),
                _ => {},
            }
        }
    }
}

/// An integer literal token parses to a typed integer only where the literal has a type
/// suffix, and then to an integer of that type whose value is the literal's.
pub proof fn lemma_integer_literal_type(tok: Token)
    ensures
        literal_syntax(tok) matches Some(Syntax::TypedInteger(i)) ==> match tok {
            Token::DecimalIntegerLiteral(l) => l.variant == Some(integer_variant(i))
                && literal_integer(l.value@, 10) == Some(typed_integer_value(i)),
            Token::HexadecimalIntegerLiteral(l) => l.variant == Some(integer_variant(i))
                && literal_integer(l.value@, 16) == Some(typed_integer_value(i)),
            Token::OctalIntegerLiteral(l) => l.variant == Some(integer_variant(i))
                && literal_integer(l.value@, 8) == Some(typed_integer_value(i)),
            Token::BinaryIntegerLiteral(l) => l.variant == Some(integer_variant(i))
                && literal_integer(l.value@, 2) == Some(typed_integer_value(i)),
            _ => false,
        },
{
    let (lit, radix): (Option<crate::compiler::lexer::token::IntegerLiteral>, nat) = match tok {
        Token::DecimalIntegerLiteral(l) => (Some(l), 10),
        Token::HexadecimalIntegerLiteral(l) => (Some(l), 16),
        Token::OctalIntegerLiteral(l) => (Some(l), 8),
        Token::BinaryIntegerLiteral(l) => (Some(l), 2),
        _ => (None, 0),
    };
    if let Some(l) = lit {
        if let Some(n) = literal_integer(l.value@, radix) {
            if let Some(v) = l.variant {
                lemma_typed_integer_of(n, v);
            }
        }
    }
}

/// The arithmetic operation of an operator token.
pub open spec fn operation_of(tok: Token) -> OperationMode {
    match tok {
        Token::Star => OperationMode::Multiply,
        Token::Slash => OperationMode::Divide,
        Token::Plus => OperationMode::Add,
        _ => OperationMode::Subtract,
    }
}

/// The operation `op` on `l` and `r`.
pub open spec fn operation(op: Token, l: Syntax, r: Syntax) -> Syntax {
    Syntax::BinaryOperation(operation_of(op), Box::new(l), Box::new(r))
}

/// The script `a o1 b o2 c` of three literal tokens and two operators, with single spaces.
pub open spec fn three_operands(a: Token, o1: Token, b: Token, o2: Token, c: Token) -> Seq<Token> {
    seq![
        a,
        Token::Whitespace,
        o1,
        Token::Whitespace,
        b,
        Token::Whitespace,
        o2,
        Token::Whitespace,
        c,
    ]
}

/// A literal token at `p` is an atom of one token.
proof fn lemma_literal_atom(t: Seq<Token>, p: nat)
    requires
        p < t.len(),
        literal_syntax(t[p as int]) is Some,
    ensures
        level_syntax(t, p, 0) == Some((literal_syntax(t[p as int])->0, 1nat)),
        !(t[p as int] is Whitespace),
        !(t[p as int] is Semicolon),
{
    assert(atom_syntax(t, p) == Some((literal_syntax(t[p as int])->0, 1nat)));
}

/// The chain of level `lvl` at `p` is `s` taking `k` tokens when the chain below is, and no
/// operator of the level follows.
proof fn lemma_level_stops(t: Seq<Token>, p: nat, lvl: nat, s: Syntax, k: nat)
    requires
        1 <= lvl,
        level_syntax(t, p, (lvl - 1) as nat) == Some((s, k)),
        rest_syntax(t, p + k, s, lvl) == (s, 0nat),
    ensures
        level_syntax(t, p, lvl) == Some((s, k)),
{
}

/// The whole script `t` is the expression that the chain of level 3 at 0 gives, where that
/// chain takes all tokens and the script starts with a literal.
proof fn lemma_script_of_expression(t: Seq<Token>, s: Syntax)
    requires
        t.len() > 0,
        literal_syntax(t[0]) is Some,
        level_syntax(t, 0, 3) == Some((s, t.len())),
    ensures
        script_syntax(t) == Some(s),
{
    lemma_literal_atom(t, 0);
    assert(ws_run(t, 0) == 0);
    assert(ws_run(t, t.len()) == 0);
    assert(semicolon_run(t, 0) == 0);
    assert(expr_syntax(t, 0) == Some((s, t.len())));
    assert(separator(t, t.len(), false) is None);
    assert(semicolons(t, t.len()) == 0);
    let one: Seq<Syntax> = Seq::empty().push(s);
    assert(statements_from(t, 0, Seq::empty()) == (one, false, t.len()));
    assert(one.len() == 1 && one[0] == s);
}

/// Multiplication and division bind tighter than addition and subtraction: for literals
/// `a`, `b`, `c`, an additive operator `lo` and a multiplicative operator `hi`, the script
/// `a lo b hi c` is `lo(a, hi(b, c))` and the script `a hi b lo c` is `lo(hi(a, b), c)`.
pub proof fn lemma_multiplicative_binds_tighter(a: Token, lo: Token, b: Token, hi: Token, c: Token)
    requires
        literal_syntax(a) is Some,
        literal_syntax(b) is Some,
        literal_syntax(c) is Some,
        lo is Plus || lo is Minus,
        hi is Star || hi is Slash,
    ensures
        script_syntax(three_operands(a, lo, b, hi, c)) == Some(
            operation(
                lo,
                literal_syntax(a)->0,
                operation(hi, literal_syntax(b)->0, literal_syntax(c)->0),
            ),
        ),
        script_syntax(three_operands(a, hi, b, lo, c)) == Some(
            operation(
                lo,
                operation(hi, literal_syntax(a)->0, literal_syntax(b)->0),
                literal_syntax(c)->0,
            ),
        ),
{
    let sa = literal_syntax(a)->0;
    let sb = literal_syntax(b)->0;
    let sc = literal_syntax(c)->0;
    // a lo b hi c
    let t = three_operands(a, lo, b, hi, c);
    lemma_literal_atom(t, 0);
    lemma_literal_atom(t, 4);
    lemma_literal_atom(t, 8);
    assert(ws_run(t, 9) == 0);
    assert(ws_run(t, 8) == 0);
    assert(ws_run(t, 7) == 1);
    assert(ws_run(t, 4) == 0);
    assert(ws_run(t, 6) == 0);
    assert(ws_run(t, 5) == 1);
    assert(ws_run(t, 2) == 0);
    assert(ws_run(t, 3) == 1);
    assert(ws_run(t, 1) == 1);
    let d = operation(hi, sb, sc);
    assert(combine(hi, sb, sc) == d);
    assert(rest_syntax(t, 9, sc, 1) == (sc, 0nat));
    lemma_level_stops(t, 8, 1, sc, 1);
    assert(rest_syntax(t, 9, d, 1) == (d, 0nat));
    assert(rest_syntax(t, 5, sb, 1) == (d, 4nat));
    assert(level_syntax(t, 4, 1) == Some((d, 5nat)));
    assert(rest_syntax(t, 9, d, 2) == (d, 0nat));
    lemma_level_stops(t, 4, 2, d, 5);
    assert(rest_syntax(t, 1, sa, 1) == (sa, 0nat));
    lemma_level_stops(t, 0, 1, sa, 1);
    let e = operation(lo, sa, d);
    assert(combine(lo, sa, d) == e);
    assert(rest_syntax(t, 9, e, 2) == (e, 0nat));
    assert(rest_syntax(t, 1, sa, 2) == (e, 8nat));
    assert(level_syntax(t, 0, 2) == Some((e, 9nat)));
    assert(rest_syntax(t, 9, e, 3) == (e, 0nat));
    lemma_level_stops(t, 0, 3, e, 9);
    lemma_script_of_expression(t, e);
    // a hi b lo c
    let u = three_operands(a, hi, b, lo, c);
    lemma_literal_atom(u, 0);
    lemma_literal_atom(u, 4);
    lemma_literal_atom(u, 8);
    assert(ws_run(u, 9) == 0);
    assert(ws_run(u, 8) == 0);
    assert(ws_run(u, 7) == 1);
    assert(ws_run(u, 4) == 0);
    assert(ws_run(u, 6) == 0);
    assert(ws_run(u, 5) == 1);
    assert(ws_run(u, 2) == 0);
    assert(ws_run(u, 3) == 1);
    assert(ws_run(u, 1) == 1);
    let m = operation(hi, sa, sb);
    assert(combine(hi, sa, sb) == m);
    assert(rest_syntax(u, 5, m, 1) == (m, 0nat));
    assert(rest_syntax(u, 5, sb, 1) == (sb, 0nat));
    lemma_level_stops(u, 4, 1, sb, 1);
    assert(rest_syntax(u, 1, sa, 1) == (m, 4nat));
    assert(level_syntax(u, 0, 1) == Some((m, 5nat)));
    assert(rest_syntax(u, 9, sc, 1) == (sc, 0nat));
    lemma_level_stops(u, 8, 1, sc, 1);
    let f = operation(lo, m, sc);
    assert(combine(lo, m, sc) == f);
    assert(rest_syntax(u, 9, f, 2) == (f, 0nat));
    assert(rest_syntax(u, 5, m, 2) == (f, 4nat));
    assert(level_syntax(u, 0, 2) == Some((f, 9nat)));
    assert(rest_syntax(u, 9, f, 3) == (f, 0nat));
    lemma_level_stops(u, 0, 3, f, 9);
    lemma_script_of_expression(u, f);
}

/// The multiplicative operators `*` and `/`.
pub open spec fn is_multiplicative(tok: Token) -> bool {
    tok is Star || tok is Slash
}

/// The additive operators `+` and `-`.
pub open spec fn is_additive(tok: Token) -> bool {
    tok is Plus || tok is Minus
}

/// The comparison operators `==`, `===`, `!=`, `!==` and `is`.
pub open spec fn is_comparison(tok: Token) -> bool {
    tok is StructuralEqual || tok is Equal || tok is NotStructuralEqual || tok is NotEqual
        || tok is Is
}

/// The comparison of a comparison operator token.
pub open spec fn comparison_of(tok: Token) -> ComparisonOperator {
    match tok {
        Token::StructuralEqual => ComparisonOperator::StructuralEqual,
        Token::Equal => ComparisonOperator::Equal,
        Token::NotStructuralEqual => ComparisonOperator::NotStructuralEqual,
        Token::NotEqual => ComparisonOperator::NotEqual,
        _ => ComparisonOperator::Is,
    }
}

/// The operator token `op` applied to `l` and `r`: a comparison for a comparison operator,
/// else an arithmetic operation.
pub open spec fn applied(op: Token, l: Syntax, r: Syntax) -> Syntax {
    if is_comparison(op) {
        Syntax::ComparisonOperation(comparison_of(op), Box::new(l), Box::new(r))
    } else {
        operation(op, l, r)
    }
}

/// A script of one operator between two literals, `a op b`, is that operator applied to the
/// two literals, for every arithmetic and comparison operator.
pub proof fn lemma_single_operation(a: Token, op: Token, b: Token)
    requires
        literal_syntax(a) is Some,
        literal_syntax(b) is Some,
        is_multiplicative(op) || is_additive(op) || is_comparison(op),
    ensures
        script_syntax(seq![a, Token::Whitespace, op, Token::Whitespace, b]) == Some(
            applied(op, literal_syntax(a)->0, literal_syntax(b)->0),
        ),
{
    let sa = literal_syntax(a)->0;
    let sb = literal_syntax(b)->0;
    let t = seq![a, Token::Whitespace, op, Token::Whitespace, b];
    if is_multiplicative(op) {
        lemma_literal_atom(t, 0);
        lemma_literal_atom(t, 4);
        assert(ws_run(t, 5) == 0);
        assert(ws_run(t, 4) == 0);
        assert(ws_run(t, 2) == 0);
        assert(ws_run(t, 3) == 1);
        assert(ws_run(t, 1) == 1);
        assert(rest_syntax(t, 5, sb, 1) == (sb, 0nat));
        lemma_level_stops(t, 4, 1, sb, 1);
        assert(rest_syntax(t, 5, sb, 2) == (sb, 0nat));
        lemma_level_stops(t, 4, 2, sb, 1);
        assert(rest_syntax(t, 5, sb, 3) == (sb, 0nat));
        lemma_level_stops(t, 4, 3, sb, 1);
        let e = applied(op, sa, sb);
        assert(combine(op, sa, sb) == e);
        assert(rest_syntax(t, 5, e, 1) == (e, 0nat));
        assert(rest_syntax(t, 1, sa, 1) == (e, 4nat));
        assert(level_syntax(t, 0, 1) == Some((e, 5nat)));
        assert(rest_syntax(t, 5, e, 2) == (e, 0nat));
        lemma_level_stops(t, 0, 2, e, 5);
        assert(rest_syntax(t, 5, e, 3) == (e, 0nat));
        lemma_level_stops(t, 0, 3, e, 5);
        lemma_script_of_expression(t, e);
    } else if is_additive(op) {
        lemma_literal_atom(t, 0);
        lemma_literal_atom(t, 4);
        assert(ws_run(t, 5) == 0);
        assert(ws_run(t, 4) == 0);
        assert(ws_run(t, 2) == 0);
        assert(ws_run(t, 3) == 1);
        assert(ws_run(t, 1) == 1);
        assert(rest_syntax(t, 5, sb, 1) == (sb, 0nat));
        lemma_level_stops(t, 4, 1, sb, 1);
        assert(rest_syntax(t, 5, sb, 2) == (sb, 0nat));
        lemma_level_stops(t, 4, 2, sb, 1);
        assert(rest_syntax(t, 5, sb, 3) == (sb, 0nat));
        lemma_level_stops(t, 4, 3, sb, 1);
        assert(rest_syntax(t, 1, sa, 1) == (sa, 0nat));
        lemma_level_stops(t, 0, 1, sa, 1);
        let e = applied(op, sa, sb);
        assert(combine(op, sa, sb) == e);
        assert(rest_syntax(t, 5, e, 2) == (e, 0nat));
        assert(rest_syntax(t, 1, sa, 2) == (e, 4nat));
        assert(level_syntax(t, 0, 2) == Some((e, 5nat)));
        assert(rest_syntax(t, 5, e, 3) == (e, 0nat));
        lemma_level_stops(t, 0, 3, e, 5);
        lemma_script_of_expression(t, e);
    } else {
        lemma_literal_atom(t, 0);
        lemma_literal_atom(t, 4);
        assert(ws_run(t, 5) == 0);
        assert(ws_run(t, 4) == 0);
        assert(ws_run(t, 2) == 0);
        assert(ws_run(t, 3) == 1);
        assert(ws_run(t, 1) == 1);
        assert(rest_syntax(t, 5, sb, 1) == (sb, 0nat));
        lemma_level_stops(t, 4, 1, sb, 1);
        assert(rest_syntax(t, 5, sb, 2) == (sb, 0nat));
        lemma_level_stops(t, 4, 2, sb, 1);
        assert(rest_syntax(t, 5, sb, 3) == (sb, 0nat));
        lemma_level_stops(t, 4, 3, sb, 1);
        assert(rest_syntax(t, 1, sa, 1) == (sa, 0nat));
        lemma_level_stops(t, 0, 1, sa, 1);
        assert(rest_syntax(t, 1, sa, 2) == (sa, 0nat));
        lemma_level_stops(t, 0, 2, sa, 1);
        let e = applied(op, sa, sb);
        assert(combine(op, sa, sb) == e);
        assert(rest_syntax(t, 5, e, 3) == (e, 0nat));
        assert(rest_syntax(t, 1, sa, 3) == (e, 4nat));
        assert(level_syntax(t, 0, 3) == Some((e, 5nat)));
        lemma_script_of_expression(t, e);
    }
}

/// Comparisons bind loosest: for literals `a`, `b`, `c`, a comparison `cmp` and an
/// arithmetic operator `ar`, `a cmp b ar c` is `cmp(a, ar(b, c))` and `a ar b cmp c` is
/// `cmp(ar(a, b), c)`.
pub proof fn lemma_comparison_binds_loosest(a: Token, cmp: Token, b: Token, ar: Token, c: Token)
    requires
        literal_syntax(a) is Some,
        literal_syntax(b) is Some,
        literal_syntax(c) is Some,
        is_comparison(cmp),
        is_multiplicative(ar) || is_additive(ar),
    ensures
        script_syntax(three_operands(a, cmp, b, ar, c)) == Some(
            applied(
                cmp,
                literal_syntax(a)->0,
                applied(ar, literal_syntax(b)->0, literal_syntax(c)->0),
            ),
        ),
        script_syntax(three_operands(a, ar, b, cmp, c)) == Some(
            applied(
                cmp,
                applied(ar, literal_syntax(a)->0, literal_syntax(b)->0),
                literal_syntax(c)->0,
            ),
        ),
{
    let sa = literal_syntax(a)->0;
    let sb = literal_syntax(b)->0;
    let sc = literal_syntax(c)->0;
    let t = three_operands(a, cmp, b, ar, c);
    let u = three_operands(a, ar, b, cmp, c);
    if is_multiplicative(ar) {
        assert(script_syntax(t) == Some(applied(cmp, sa, applied(ar, sb, sc)))) by {
            lemma_literal_atom(t, 0);
            lemma_literal_atom(t, 4);
            lemma_literal_atom(t, 8);
            assert(ws_run(t, 9) == 0);
            assert(ws_run(t, 8) == 0);
            assert(ws_run(t, 6) == 0);
            assert(ws_run(t, 7) == 1);
            assert(ws_run(t, 4) == 0);
            assert(ws_run(t, 5) == 1);
            assert(ws_run(t, 2) == 0);
            assert(ws_run(t, 3) == 1);
            assert(ws_run(t, 1) == 1);
            let d = applied(ar, sb, sc);
            assert(combine(ar, sb, sc) == d);
            assert(rest_syntax(t, 9, d, 1) == (d, 0nat));
            assert(rest_syntax(t, 5, sb, 1) == (d, 4nat));
            assert(level_syntax(t, 4, 1) == Some((d, 5nat)));
            assert(rest_syntax(t, 9, d, 2) == (d, 0nat));
            lemma_level_stops(t, 4, 2, d, 5);
            assert(rest_syntax(t, 1, sa, 1) == (sa, 0nat));
            lemma_level_stops(t, 0, 1, sa, 1);
            assert(rest_syntax(t, 1, sa, 2) == (sa, 0nat));
            lemma_level_stops(t, 0, 2, sa, 1);
            let e = applied(cmp, sa, d);
            assert(combine(cmp, sa, d) == e);
            assert(rest_syntax(t, 9, e, 3) == (e, 0nat));
            assert(rest_syntax(t, 1, sa, 3) == (e, 8nat));
            assert(level_syntax(t, 0, 3) == Some((e, 9nat)));
            lemma_script_of_expression(t, e);
        }
        assert(script_syntax(u) == Some(applied(cmp, applied(ar, sa, sb), sc))) by {
            lemma_literal_atom(u, 0);
            lemma_literal_atom(u, 4);
            lemma_literal_atom(u, 8);
            assert(ws_run(u, 9) == 0);
            assert(ws_run(u, 8) == 0);
            assert(ws_run(u, 6) == 0);
            assert(ws_run(u, 7) == 1);
            assert(ws_run(u, 4) == 0);
            assert(ws_run(u, 5) == 1);
            assert(ws_run(u, 2) == 0);
            assert(ws_run(u, 3) == 1);
            assert(ws_run(u, 1) == 1);
            assert(rest_syntax(u, 9, sc, 1) == (sc, 0nat));
            lemma_level_stops(u, 8, 1, sc, 1);
            assert(rest_syntax(u, 9, sc, 2) == (sc, 0nat));
            lemma_level_stops(u, 8, 2, sc, 1);
            let m = applied(ar, sa, sb);
            assert(combine(ar, sa, sb) == m);
            assert(rest_syntax(u, 5, m, 1) == (m, 0nat));
            assert(rest_syntax(u, 1, sa, 1) == (m, 4nat));
            assert(level_syntax(u, 0, 1) == Some((m, 5nat)));
            assert(rest_syntax(u, 5, m, 2) == (m, 0nat));
            lemma_level_stops(u, 0, 2, m, 5);
            let f = applied(cmp, m, sc);
            assert(combine(cmp, m, sc) == f);
            assert(rest_syntax(u, 9, f, 3) == (f, 0nat));
            assert(rest_syntax(u, 5, m, 3) == (f, 4nat));
            assert(level_syntax(u, 0, 3) == Some((f, 9nat)));
            lemma_script_of_expression(u, f);
        }
    } else {
        assert(script_syntax(t) == Some(applied(cmp, sa, applied(ar, sb, sc)))) by {
            lemma_literal_atom(t, 0);
            lemma_literal_atom(t, 4);
            lemma_literal_atom(t, 8);
            assert(ws_run(t, 9) == 0);
            assert(ws_run(t, 8) == 0);
            assert(ws_run(t, 6) == 0);
            assert(ws_run(t, 7) == 1);
            assert(ws_run(t, 4) == 0);
            assert(ws_run(t, 5) == 1);
            assert(ws_run(t, 2) == 0);
            assert(ws_run(t, 3) == 1);
            assert(ws_run(t, 1) == 1);
            assert(rest_syntax(t, 9, sc, 1) == (sc, 0nat));
            lemma_level_stops(t, 8, 1, sc, 1);
            assert(rest_syntax(t, 5, sb, 1) == (sb, 0nat));
            lemma_level_stops(t, 4, 1, sb, 1);
            let d = applied(ar, sb, sc);
            assert(combine(ar, sb, sc) == d);
            assert(rest_syntax(t, 9, d, 2) == (d, 0nat));
            assert(rest_syntax(t, 5, sb, 2) == (d, 4nat));
            assert(level_syntax(t, 4, 2) == Some((d, 5nat)));
            assert(rest_syntax(t, 1, sa, 1) == (sa, 0nat));
            lemma_level_stops(t, 0, 1, sa, 1);
            assert(rest_syntax(t, 1, sa, 2) == (sa, 0nat));
            lemma_level_stops(t, 0, 2, sa, 1);
            let e = applied(cmp, sa, d);
            assert(combine(cmp, sa, d) == e);
            assert(rest_syntax(t, 9, e, 3) == (e, 0nat));
            assert(rest_syntax(t, 1, sa, 3) == (e, 8nat));
            assert(level_syntax(t, 0, 3) == Some((e, 9nat)));
            lemma_script_of_expression(t, e);
        }
        assert(script_syntax(u) == Some(applied(cmp, applied(ar, sa, sb), sc))) by {
            lemma_literal_atom(u, 0);
            lemma_literal_atom(u, 4);
            lemma_literal_atom(u, 8);
            assert(ws_run(u, 9) == 0);
            assert(ws_run(u, 8) == 0);
            assert(ws_run(u, 6) == 0);
            assert(ws_run(u, 7) == 1);
            assert(ws_run(u, 4) == 0);
            assert(ws_run(u, 5) == 1);
            assert(ws_run(u, 2) == 0);
            assert(ws_run(u, 3) == 1);
            assert(ws_run(u, 1) == 1);
            assert(rest_syntax(u, 9, sc, 1) == (sc, 0nat));
            lemma_level_stops(u, 8, 1, sc, 1);
            assert(rest_syntax(u, 9, sc, 2) == (sc, 0nat));
            lemma_level_stops(u, 8, 2, sc, 1);
            assert(rest_syntax(u, 5, sb, 1) == (sb, 0nat));
            lemma_level_stops(u, 4, 1, sb, 1);
            assert(rest_syntax(u, 1, sa, 1) == (sa, 0nat));
            lemma_level_stops(u, 0, 1, sa, 1);
            let m = applied(ar, sa, sb);
            assert(combine(ar, sa, sb) == m);
            assert(rest_syntax(u, 5, m, 2) == (m, 0nat));
            assert(rest_syntax(u, 1, sa, 2) == (m, 4nat));
            assert(level_syntax(u, 0, 2) == Some((m, 5nat)));
            let f = applied(cmp, m, sc);
            assert(combine(cmp, m, sc) == f);
            assert(rest_syntax(u, 9, f, 3) == (f, 0nat));
            assert(rest_syntax(u, 5, m, 3) == (f, 4nat));
            assert(level_syntax(u, 0, 3) == Some((f, 9nat)));
            lemma_script_of_expression(u, f);
        }
    }
}

/// Operators of the same precedence associate to the left: for literals `a`, `b`, `c` and
/// two operators `o1`, `o2` that are both multiplicative, both additive or both comparisons,
/// `a o1 b o2 c` is `o2(o1(a, b), c)`.
pub proof fn lemma_left_associative(a: Token, o1: Token, b: Token, o2: Token, c: Token)
    requires
        literal_syntax(a) is Some,
        literal_syntax(b) is Some,
        literal_syntax(c) is Some,
        (is_multiplicative(o1) && is_multiplicative(o2)) || (is_additive(o1) && is_additive(o2))
            || (is_comparison(o1) && is_comparison(o2)),
    ensures
        script_syntax(three_operands(a, o1, b, o2, c)) == Some(
            applied(
                o2,
                applied(o1, literal_syntax(a)->0, literal_syntax(b)->0),
                literal_syntax(c)->0,
            ),
        ),
{
    let sa = literal_syntax(a)->0;
    let sb = literal_syntax(b)->0;
    let sc = literal_syntax(c)->0;
    let t = three_operands(a, o1, b, o2, c);
    if is_multiplicative(o1) {
        lemma_literal_atom(t, 0);
        lemma_literal_atom(t, 4);
        lemma_literal_atom(t, 8);
        assert(ws_run(t, 9) == 0);
        assert(ws_run(t, 8) == 0);
        assert(ws_run(t, 6) == 0);
        assert(ws_run(t, 7) == 1);
        assert(ws_run(t, 4) == 0);
        assert(ws_run(t, 5) == 1);
        assert(ws_run(t, 2) == 0);
        assert(ws_run(t, 3) == 1);
        assert(ws_run(t, 1) == 1);
        let m = applied(o1, sa, sb);
        assert(combine(o1, sa, sb) == m);
        let f = applied(o2, m, sc);
        assert(combine(o2, m, sc) == f);
        assert(rest_syntax(t, 9, f, 1) == (f, 0nat));
        assert(rest_syntax(t, 5, m, 1) == (f, 4nat));
        assert(rest_syntax(t, 1, sa, 1) == (f, 8nat));
        assert(level_syntax(t, 0, 1) == Some((f, 9nat)));
        assert(rest_syntax(t, 9, f, 2) == (f, 0nat));
        lemma_level_stops(t, 0, 2, f, 9);
        assert(rest_syntax(t, 9, f, 3) == (f, 0nat));
        lemma_level_stops(t, 0, 3, f, 9);
        lemma_script_of_expression(t, f);
    } else if is_additive(o1) {
        lemma_literal_atom(t, 0);
        lemma_literal_atom(t, 4);
        lemma_literal_atom(t, 8);
        assert(ws_run(t, 9) == 0);
        assert(ws_run(t, 8) == 0);
        assert(ws_run(t, 6) == 0);
        assert(ws_run(t, 7) == 1);
        assert(ws_run(t, 4) == 0);
        assert(ws_run(t, 5) == 1);
        assert(ws_run(t, 2) == 0);
        assert(ws_run(t, 3) == 1);
        assert(ws_run(t, 1) == 1);
        assert(rest_syntax(t, 9, sc, 1) == (sc, 0nat));
        lemma_level_stops(t, 8, 1, sc, 1);
        assert(rest_syntax(t, 5, sb, 1) == (sb, 0nat));
        lemma_level_stops(t, 4, 1, sb, 1);
        assert(rest_syntax(t, 1, sa, 1) == (sa, 0nat));
        lemma_level_stops(t, 0, 1, sa, 1);
        let m = applied(o1, sa, sb);
        assert(combine(o1, sa, sb) == m);
        let f = applied(o2, m, sc);
        assert(combine(o2, m, sc) == f);
        assert(rest_syntax(t, 9, f, 2) == (f, 0nat));
        assert(rest_syntax(t, 5, m, 2) == (f, 4nat));
        assert(rest_syntax(t, 1, sa, 2) == (f, 8nat));
        assert(level_syntax(t, 0, 2) == Some((f, 9nat)));
        assert(rest_syntax(t, 9, f, 3) == (f, 0nat));
        lemma_level_stops(t, 0, 3, f, 9);
        lemma_script_of_expression(t, f);
    } else {
        lemma_literal_atom(t, 0);
        lemma_literal_atom(t, 4);
        lemma_literal_atom(t, 8);
        assert(ws_run(t, 9) == 0);
        assert(ws_run(t, 8) == 0);
        assert(ws_run(t, 6) == 0);
        assert(ws_run(t, 7) == 1);
        assert(ws_run(t, 4) == 0);
        assert(ws_run(t, 5) == 1);
        assert(ws_run(t, 2) == 0);
        assert(ws_run(t, 3) == 1);
        assert(ws_run(t, 1) == 1);
        assert(rest_syntax(t, 9, sc, 1) == (sc, 0nat));
        lemma_level_stops(t, 8, 1, sc, 1);
        assert(rest_syntax(t, 5, sb, 1) == (sb, 0nat));
        lemma_level_stops(t, 4, 1, sb, 1);
        assert(rest_syntax(t, 1, sa, 1) == (sa, 0nat));
        lemma_level_stops(t, 0, 1, sa, 1);
        assert(rest_syntax(t, 9, sc, 2) == (sc, 0nat));
        lemma_level_stops(t, 8, 2, sc, 1);
        assert(rest_syntax(t, 5, sb, 2) == (sb, 0nat));
        lemma_level_stops(t, 4, 2, sb, 1);
        assert(rest_syntax(t, 1, sa, 2) == (sa, 0nat));
        lemma_level_stops(t, 0, 2, sa, 1);
        let m = applied(o1, sa, sb);
        assert(combine(o1, sa, sb) == m);
        let f = applied(o2, m, sc);
        assert(combine(o2, m, sc) == f);
        assert(rest_syntax(t, 9, f, 3) == (f, 0nat));
        assert(rest_syntax(t, 5, m, 3) == (f, 4nat));
        assert(rest_syntax(t, 1, sa, 3) == (f, 8nat));
        assert(level_syntax(t, 0, 3) == Some((f, 9nat)));
        lemma_script_of_expression(t, f);
    }
}

/// Digits are read case-insensitively and letters count from ten: a lowercase letter has the
/// value of its uppercase form, `A` (or `a`) is ten, `B` eleven and so on, and the decimal
/// digits have their own values; a digit is valid exactly when its value is below the radix.
pub proof fn lemma_digit_values(c: char, radix: nat)
    ensures
        97 <= (c as u32) <= 122 ==> digit_value(c, radix) == digit_value(
            ((c as u32) - 32) as char,
            radix,
        ),
        65 <= (c as u32) <= 90 ==> digit_value(c, radix) == (if (c as u32) - 55 < radix {
            Some(((c as u32) - 55) as nat)
        } else {
            None
        }),
        48 <= (c as u32) <= 57 ==> digit_value(c, radix) == (if (c as u32) - 48 < radix {
            Some(((c as u32) - 48) as nat)
        } else {
            None
        }),
{
    if 97 <= (c as u32) <= 122 {
        let up = ((c as u32) - 32) as char;
        assert(up as u32 == (c as u32) - 32);
    }
}

} // verus!
