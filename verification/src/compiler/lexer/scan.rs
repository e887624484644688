//! Longest-match scanners, one per rule of the token grammar.
use vstd::prelude::*;
use super::chars::{
    bin_digit_or_sep, digit, digit_or_sep, endpoint_char, hex_digit_or_sep, ident_continue,
    ident_start, is_bin_digit_or_sep, is_digit, is_digit_or_sep, is_endpoint_char,
    is_hex_digit_or_sep, is_ident_continue, is_lower_or_digit,
    is_oct_digit_or_sep, is_sign, is_slot_name_char, lower_or_digit,
    oct_digit_or_sep, sign, slot_name_char, whitespace,
};
use super::rules::{
    is_longest, rule_matches, window, Rule, is_list_start, is_map_start, infinity_word_at,
    nan_word_at, fixed_token,
};
use super::token::Token;

verus! {

/// Character classes that tokens are made of.
#[derive(Clone, Copy)]
pub enum CharClass {
    Digit,
    DigitOrSep,
    BinDigitOrSep,
    OctDigitOrSep,
    HexDigitOrSep,
    IdentContinue,
    EndpointChar,
    SlotNameChar,
    LowerOrDigit,
    NotNewline,
    Space,
}

pub open spec fn in_class(cls: CharClass, c: char) -> bool {
    match cls {
        CharClass::Digit => is_digit(c),
        CharClass::DigitOrSep => is_digit_or_sep(c),
        CharClass::BinDigitOrSep => is_bin_digit_or_sep(c),
        CharClass::OctDigitOrSep => is_oct_digit_or_sep(c),
        CharClass::HexDigitOrSep => is_hex_digit_or_sep(c),
        CharClass::IdentContinue => is_ident_continue(c),
        CharClass::EndpointChar => is_endpoint_char(c),
        CharClass::SlotNameChar => is_slot_name_char(c),
        CharClass::LowerOrDigit => is_lower_or_digit(c),
        CharClass::NotNewline => c != '\n',
        CharClass::Space => c == ' ',
    }
}

fn class_contains(cls: CharClass, c: char) -> (res: bool)
    ensures
        res == in_class(cls, c),
{
    match cls {
        CharClass::Digit => digit(c),
        CharClass::DigitOrSep => digit_or_sep(c),
        CharClass::BinDigitOrSep => bin_digit_or_sep(c),
        CharClass::OctDigitOrSep => oct_digit_or_sep(c),
        CharClass::HexDigitOrSep => hex_digit_or_sep(c),
        CharClass::IdentContinue => ident_continue(c),
        CharClass::EndpointChar => endpoint_char(c),
        CharClass::SlotNameChar => slot_name_char(c),
        CharClass::LowerOrDigit => lower_or_digit(c),
        CharClass::NotNewline => c != '\n',
        CharClass::Space => c == ' ',
    }
}

/// The end of the run of characters of class `cls` that starts at `from`.
pub fn run_end(s: &Vec<char>, from: usize, cls: CharClass) -> (e: usize)
    requires
        from <= s.len(),
    ensures
        from <= e <= s.len(),
        forall|k: int| from <= k < e ==> in_class(cls, #[trigger] s@[k]),
        e == s.len() || !in_class(cls, s@[e as int]),
{
    let mut e = from;
    while e < s.len() && class_contains(cls, s[e])
        invariant
            from <= e <= s.len(),
            forall|k: int| from <= k < e ==> in_class(cls, #[trigger] s@[k]),
        decreases s.len() - e,
    {
        e = e + 1;
    }
    e
}

/// `_` or a letter, then `_`, letters and numbers.
pub fn scan_identifier(s: &Vec<char>, pos: usize) -> (n: usize)
    requires
        pos <= s.len(),
    ensures
        is_longest(Rule::Identifier, s@, pos as int, n as int),
{
    if pos < s.len() && ident_start(s[pos]) {
        let e = run_end(s, pos + 1, CharClass::IdentContinue);
        let n = e - pos;
        assert forall|m: int| n < m <= s.len() - pos implies !#[trigger] rule_matches(
            Rule::Identifier,
            window(s@, pos as int, m),
        ) by {
            assert(window(s@, pos as int, m)[n as int] == s@[e as int]);
        }
        assert(rule_matches(Rule::Identifier, window(s@, pos as int, n as int)));
        n
    } else {
        assert forall|m: int| 0 < m <= s.len() - pos implies !#[trigger] rule_matches(
            Rule::Identifier,
            window(s@, pos as int, m),
        ) by {
            assert(window(s@, pos as int, m)[0] == s@[pos as int]);
        }
        0
    }
}

/// A single space, tab, newline or form feed.
pub fn scan_whitespace(s: &Vec<char>, pos: usize) -> (n: usize)
    requires
        pos <= s.len(),
    ensures
        is_longest(Rule::Whitespace, s@, pos as int, n as int),
{
    if pos < s.len() && whitespace(s[pos]) {
        assert(rule_matches(Rule::Whitespace, window(s@, pos as int, 1)));
        1
    } else {
        assert forall|m: int| 0 < m <= s.len() - pos implies !#[trigger] rule_matches(
            Rule::Whitespace,
            window(s@, pos as int, m),
        ) by {
            assert(window(s@, pos as int, m)[0] == s@[pos as int]);
        }
        0
    }
}

/// `#` followed by the longest run of class `cls` (at least one character).
fn scan_hash_run(s: &Vec<char>, pos: usize, cls: CharClass) -> (n: usize)
    requires
        pos <= s.len(),
    ensures
        0 <= n <= s.len() - pos,
        n > 0 ==> n >= 2 && s@[pos as int] == '#' && forall|k: int|
            pos + 1 <= k < pos + n ==> in_class(cls, #[trigger] s@[k]),
        n > 0 ==> (pos + n == s.len() || !in_class(cls, s@[pos + n])),
        n == 0 ==> (pos == s.len() || s@[pos as int] != '#' || pos + 1 == s.len()
            || !in_class(cls, s@[pos + 1])),
{
    if pos < s.len() && s[pos] == '#' {
        let e = run_end(s, pos + 1, cls);
        if e > pos + 1 {
            e - pos
        } else {
            0
        }
    } else {
        0
    }
}

/// `#` followed by digits.
pub fn scan_slot(s: &Vec<char>, pos: usize) -> (n: usize)
    requires
        pos <= s.len(),
    ensures
        is_longest(Rule::Slot, s@, pos as int, n as int),
{
    let n = scan_hash_run(s, pos, CharClass::Digit);
    assert forall|m: int| n < m <= s.len() - pos implies !#[trigger] rule_matches(
        Rule::Slot,
        window(s@, pos as int, m),
    ) by {
        assert(window(s@, pos as int, m)[0] == s@[pos as int]);
        if n > 0 {
            assert(window(s@, pos as int, m)[n as int] == s@[pos + n]);
        } else if m >= 2 {
            assert(window(s@, pos as int, m)[1] == s@[pos + 1]);
        }
    }
    if n > 0 {
        assert(rule_matches(Rule::Slot, window(s@, pos as int, n as int)));
    }
    n
}

/// `#` followed by letters and `_`.
pub fn scan_named_slot(s: &Vec<char>, pos: usize) -> (n: usize)
    requires
        pos <= s.len(),
    ensures
        is_longest(Rule::NamedSlot, s@, pos as int, n as int),
{
    let n = scan_hash_run(s, pos, CharClass::SlotNameChar);
    assert forall|m: int| n < m <= s.len() - pos implies !#[trigger] rule_matches(
        Rule::NamedSlot,
        window(s@, pos as int, m),
    ) by {
        assert(window(s@, pos as int, m)[0] == s@[pos as int]);
        if n > 0 {
            assert(window(s@, pos as int, m)[n as int] == s@[pos + n]);
        } else if m >= 2 {
            assert(window(s@, pos as int, m)[1] == s@[pos + 1]);
        }
    }
    if n > 0 {
        assert(rule_matches(Rule::NamedSlot, window(s@, pos as int, n as int)));
    }
    n
}

/// `@`, optionally `+` or `@`, then letters, digits, `_` and `-`.
pub fn scan_endpoint(s: &Vec<char>, pos: usize) -> (n: usize)
    requires
        pos <= s.len(),
    ensures
        is_longest(Rule::Endpoint, s@, pos as int, n as int),
{
    if pos < s.len() && s[pos] == '@' {
        let c: usize = if pos + 1 < s.len() && (s[pos + 1] == '+' || s[pos + 1] == '@') {
            2
        } else {
            1
        };
        let e = run_end(s, pos + c, CharClass::EndpointChar);
        if e > pos + c {
            let n = e - pos;
            assert forall|m: int| n < m <= s.len() - pos implies !#[trigger] rule_matches(
                Rule::Endpoint,
                window(s@, pos as int, m),
            ) by {
                let w = window(s@, pos as int, m);
                assert(w[n as int] == s@[e as int]);
                assert(w[1] == s@[pos + 1]);
            }
            assert(rule_matches(Rule::Endpoint, window(s@, pos as int, n as int))) by {
                let w = window(s@, pos as int, n as int);
                if n > 1 {
                    assert(w[1] == s@[pos + 1]);
                }
            }
            n
        } else {
            assert forall|m: int| 0 < m <= s.len() - pos implies !#[trigger] rule_matches(
                Rule::Endpoint,
                window(s@, pos as int, m),
            ) by {
                let w = window(s@, pos as int, m);
                if m > 1 {
                    assert(w[1] == s@[pos + 1]);
                }
                if m > c {
                    assert(w[c as int] == s@[pos + c]);
                }
            }
            0
        }
    } else {
        assert forall|m: int| 0 < m <= s.len() - pos implies !#[trigger] rule_matches(
            Rule::Endpoint,
            window(s@, pos as int, m),
        ) by {
            assert(window(s@, pos as int, m)[0] == s@[pos as int]);
        }
        0
    }
}

/// A marker of `k` slashes (`k` is 2 or 3) followed by anything but a newline.
fn scan_slashes_line(s: &Vec<char>, pos: usize, k: usize) -> (n: usize)
    requires
        pos <= s.len(),
        k == 2 || k == 3,
    ensures
        0 <= n <= s.len() - pos,
        n > 0 ==> n >= k && forall|i: int| pos <= i < pos + k ==> s@[i] == '/',
        n > 0 ==> forall|i: int| pos + k <= i < pos + n ==> #[trigger] s@[i] != '\n',
        n > 0 ==> (pos + n == s.len() || s@[pos + n] == '\n'),
        n == 0 ==> !(k <= s.len() - pos && s@[pos as int] == '/' && s@[pos + 1] == '/' && (k
            == 2 || s@[pos + 2] == '/')),
{
    if k <= s.len() - pos && s[pos] == '/' && s[pos + 1] == '/' && (k == 2 || s[pos + 2] == '/') {
        let e = run_end(s, pos + k, CharClass::NotNewline);
        e - pos
    } else {
        0
    }
}

/// `///` followed by anything but a newline.
pub fn scan_line_doc(s: &Vec<char>, pos: usize) -> (n: usize)
    requires
        pos <= s.len(),
    ensures
        is_longest(Rule::LineDoc, s@, pos as int, n as int),
{
    let n = scan_slashes_line(s, pos, 3);
    assert forall|m: int| n < m <= s.len() - pos implies !#[trigger] rule_matches(
        Rule::LineDoc,
        window(s@, pos as int, m),
    ) by {
        let w = window(s@, pos as int, m);
        if n > 0 {
            assert(w[n as int] == s@[pos + n]);
        } else if m >= 3 {
            assert(w[0] == s@[pos as int]);
            assert(w[1] == s@[pos + 1]);
            assert(w[2] == s@[pos + 2]);
        }
    }
    if n > 0 {
        assert(rule_matches(Rule::LineDoc, window(s@, pos as int, n as int))) by {
            let w = window(s@, pos as int, n as int);
            assert(w[0] == s@[pos as int]);
            assert(w[1] == s@[pos + 1]);
            assert(w[2] == s@[pos + 2]);
        }
    }
    n
}

/// `//` followed by anything but a newline.
pub fn scan_line_comment(s: &Vec<char>, pos: usize) -> (n: usize)
    requires
        pos <= s.len(),
    ensures
        is_longest(Rule::LineComment, s@, pos as int, n as int),
{
    let n = scan_slashes_line(s, pos, 2);
    assert forall|m: int| n < m <= s.len() - pos implies !#[trigger] rule_matches(
        Rule::LineComment,
        window(s@, pos as int, m),
    ) by {
        let w = window(s@, pos as int, m);
        if n > 0 {
            assert(w[n as int] == s@[pos + n]);
        } else if m >= 2 {
            assert(w[0] == s@[pos as int]);
            assert(w[1] == s@[pos + 1]);
        }
    }
    if n > 0 {
        assert(rule_matches(Rule::LineComment, window(s@, pos as int, n as int))) by {
            let w = window(s@, pos as int, n as int);
            assert(w[0] == s@[pos as int]);
            assert(w[1] == s@[pos + 1]);
        }
    }
    n
}

/// A word `w` (given by its first `k` characters), then spaces, then `close`.
fn scan_word_spaces_close(s: &Vec<char>, pos: usize, w: &[char], close: char) -> (n: usize)
    requires
        pos <= s.len(),
        1 <= w@.len(),
        close != ' ',
    ensures
        0 <= n <= s.len() - pos,
        n > 0 ==> n >= w@.len() + 1 && s@[pos + n - 1] == close
            && (forall|i: int| 0 <= i < w@.len() ==> s@[pos + i] == w@[i])
            && (forall|i: int| pos + w@.len() <= i < pos + n - 1 ==> #[trigger] s@[i] == ' '),
        n == 0 ==> !(w@.len() <= s.len() - pos && (forall|i: int| 0 <= i < w@.len() ==> s@[pos + i] == w@[i])
            && exists|e: int| pos + w@.len() <= e < s.len() && s@[e] == close
                && forall|i: int| pos + w@.len() <= i < e ==> #[trigger] s@[i] == ' '),
{
    let k = w.len();
    if k > s.len() - pos {
        return 0;
    }
    let mut i: usize = 0;
    while i < k
        invariant
            i <= k,
            k == w@.len(),
            k <= s.len() - pos,
            forall|j: int| 0 <= j < i ==> s@[pos + j] == w@[j],
        decreases k - i,
    {
        if s[pos + i] != w[i] {
            return 0;
        }
        i = i + 1;
    }
    let e = run_end(s, pos + k, CharClass::Space);
    if e < s.len() && s[e] == close {
        e + 1 - pos
    } else {
        assert forall|e2: int| pos + w@.len() <= e2 < s.len() && s@[e2] == close implies !forall|i: int|
            pos + w@.len() <= i < e2 ==> #[trigger] s@[i] == ' ' by {
            if e2 > e {
                assert(!in_class(CharClass::Space, s@[e as int]));
            } else if e2 < e {
                assert(in_class(CharClass::Space, s@[e2]));
            }
        }
        0
    }
}

/// `List`, spaces, `[`.
pub fn scan_list_start(s: &Vec<char>, pos: usize) -> (n: usize)
    requires
        pos <= s.len(),
    ensures
        is_longest(Rule::ListStart, s@, pos as int, n as int),
{
    let word = ['L', 'i', 's', 't'];
    let n = scan_word_spaces_close(s, pos, &word, '[');
    assert forall|m: int| n < m <= s.len() - pos implies !#[trigger] rule_matches(
        Rule::ListStart,
        window(s@, pos as int, m),
    ) by {
        let w = window(s@, pos as int, m);
        if is_list_start(w) {
            assert(w[0] == s@[pos as int] && w[1] == s@[pos + 1] && w[2] == s@[pos + 2] && w[3] == s@[pos + 3]);
            assert(w[m - 1] == s@[pos + m - 1]);
            if n > 0 {
                assert(w[n - 1] == s@[pos + n - 1]);
            } else {
                assert(forall|i: int| pos + 4 <= i < pos + m - 1 ==> #[trigger] s@[i] == ' ') by {
                    assert forall|i: int| pos + 4 <= i < pos + m - 1 implies #[trigger] s@[i] == ' ' by {
                        assert(w[i - pos] == s@[i]);
                    }
                }
            }
        }
    }
    if n > 0 {
        assert(rule_matches(Rule::ListStart, window(s@, pos as int, n as int))) by {
            let w = window(s@, pos as int, n as int);
            assert(w[0] == s@[pos as int] && w[1] == s@[pos + 1] && w[2] == s@[pos + 2] && w[3] == s@[pos + 3]);
            assert(w[n - 1] == s@[pos + n - 1]);
        }
    }
    n
}

/// `Map`, spaces, `{`.
pub fn scan_map_start(s: &Vec<char>, pos: usize) -> (n: usize)
    requires
        pos <= s.len(),
    ensures
        is_longest(Rule::MapStart, s@, pos as int, n as int),
{
    let word = ['M', 'a', 'p'];
    let n = scan_word_spaces_close(s, pos, &word, '{');
    assert forall|m: int| n < m <= s.len() - pos implies !#[trigger] rule_matches(
        Rule::MapStart,
        window(s@, pos as int, m),
    ) by {
        let w = window(s@, pos as int, m);
        if is_map_start(w) {
            assert(w[0] == s@[pos as int] && w[1] == s@[pos + 1] && w[2] == s@[pos + 2]);
            assert(w[m - 1] == s@[pos + m - 1]);
            if n > 0 {
                assert(w[n - 1] == s@[pos + n - 1]);
            } else {
                assert(forall|i: int| pos + 3 <= i < pos + m - 1 ==> #[trigger] s@[i] == ' ') by {
                    assert forall|i: int| pos + 3 <= i < pos + m - 1 implies #[trigger] s@[i] == ' ' by {
                        assert(w[i - pos] == s@[i]);
                    }
                }
            }
        }
    }
    if n > 0 {
        assert(rule_matches(Rule::MapStart, window(s@, pos as int, n as int))) by {
            let w = window(s@, pos as int, n as int);
            assert(w[0] == s@[pos as int] && w[1] == s@[pos + 1] && w[2] == s@[pos + 2]);
            assert(w[n - 1] == s@[pos + n - 1]);
        }
    }
    n
}

fn infinity_word(s: &Vec<char>, q: usize) -> (res: bool)
    requires
        q + 8 <= s.len(),
    ensures
        res == infinity_word_at(s@, q as int),
{
    (s[q] == 'I' || s[q] == 'i') && s[q + 1] == 'n' && s[q + 2] == 'f' && s[q + 3] == 'i'
        && s[q + 4] == 'n' && s[q + 5] == 'i' && s[q + 6] == 't' && s[q + 7] == 'y'
}

fn nan_word(s: &Vec<char>, q: usize) -> (res: bool)
    requires
        q + 3 <= s.len(),
    ensures
        res == nan_word_at(s@, q as int),
{
    (s[q] == 'n' && s[q + 1] == 'a' && s[q + 2] == 'n') || (s[q] == 'N' && s[q + 1] == 'a' && s[q
        + 2] == 'N')
}

pub proof fn lemma_window_shift(s: Seq<char>, pos: int, m: int, k: int)
    requires
        0 <= pos,
        0 <= k < m,
        pos + m <= s.len(),
    ensures
        window(s, pos, m)[k] == s[pos + k],
{
}

/// An optional sign, then `Infinity` or `infinity`.
pub fn scan_infinity(s: &Vec<char>, pos: usize) -> (n: usize)
    requires
        pos <= s.len(),
    ensures
        is_longest(Rule::Infinity, s@, pos as int, n as int),
{
    let avail = s.len() - pos;
    let signed = avail >= 1 && sign(s[pos]);
    let n: usize = if signed && avail >= 9 && infinity_word(s, pos + 1) {
        9
    } else if !signed && avail >= 8 && infinity_word(s, pos) {
        8
    } else {
        0
    };
    assert forall|m: int| 0 < m <= s.len() - pos && (m == 8 || m == 9) implies (rule_matches(
        Rule::Infinity,
        window(s@, pos as int, m),
    ) <==> m == n) by {
        let w = window(s@, pos as int, m);
        assert forall|k: int| 0 <= k < m implies w[k] == s@[pos + k] by {
            lemma_window_shift(s@, pos as int, m, k);
        }
        if m == 9 {
            assert(infinity_word_at(w, 1) == infinity_word_at(s@, pos + 1));
        } else {
            assert(infinity_word_at(w, 0) == infinity_word_at(s@, pos as int));
            assert(!infinity_word_at(w, 0) || !is_sign(w[0]));
        }
    }
    n
}

/// An optional sign, then `nan` or `NaN`.
pub fn scan_nan(s: &Vec<char>, pos: usize) -> (n: usize)
    requires
        pos <= s.len(),
    ensures
        is_longest(Rule::Nan, s@, pos as int, n as int),
{
    let avail = s.len() - pos;
    let signed = avail >= 1 && sign(s[pos]);
    let n: usize = if signed && avail >= 4 && nan_word(s, pos + 1) {
        4
    } else if !signed && avail >= 3 && nan_word(s, pos) {
        3
    } else {
        0
    };
    assert forall|m: int| 0 < m <= s.len() - pos && (m == 3 || m == 4) implies (rule_matches(
        Rule::Nan,
        window(s@, pos as int, m),
    ) <==> m == n) by {
        let w = window(s@, pos as int, m);
        assert forall|k: int| 0 <= k < m implies w[k] == s@[pos + k] by {
            lemma_window_shift(s@, pos as int, m, k);
        }
        if m == 4 {
            assert(nan_word_at(w, 1) == nan_word_at(s@, pos + 1));
        } else {
            assert(nan_word_at(w, 0) == nan_word_at(s@, pos as int));
            assert(!nan_word_at(w, 0) || !is_sign(w[0]));
        }
    }
    n
}

/// The token with the fixed spelling of the `len` characters at `pos`, if any.
pub fn fixed_token_at(s: &Vec<char>, pos: usize, len: usize) -> (res: Option<Token>)
    requires
        len <= s.len() - pos,
        pos <= s.len(),
    ensures
        res == fixed_token(window(s@, pos as int, len as int)),
{
    proof {
        let w = window(s@, pos as int, len as int);
        assert forall|k: int| 0 <= k < len implies w[k] == s@[pos + k] by {
            lemma_window_shift(s@, pos as int, len as int, k);
        }
    }
    if len == 1 {
        let c = s[pos];
        if c == '(' { Some(Token::LeftParen) }
        else if c == ')' { Some(Token::RightParen) }
        else if c == '[' { Some(Token::LeftBracket) }
        else if c == ']' { Some(Token::RightBracket) }
        else if c == '{' { Some(Token::LeftCurly) }
        else if c == '}' { Some(Token::RightCurly) }
        else if c == '<' { Some(Token::LeftAngle) }
        else if c == '>' { Some(Token::RightAngle) }
        else if c == '%' { Some(Token::Percent) }
        else if c == '+' { Some(Token::Plus) }
        else if c == '-' { Some(Token::Minus) }
        else if c == '*' { Some(Token::Star) }
        else if c == '/' { Some(Token::Slash) }
        else if c == ':' { Some(Token::Colon) }
        else if c == ';' { Some(Token::Semicolon) }
        else if c == '.' { Some(Token::Dot) }
        else if c == ',' { Some(Token::Comma) }
        else if c == '=' { Some(Token::Assign) }
        else if c == '@' { Some(Token::At) }
        else if c == '&' { Some(Token::Ampersand) }
        else if c == '|' { Some(Token::Pipe) }
        else if c == '!' { Some(Token::Exclamation) }
        else if c == '`' { Some(Token::Backtick) }
        else if c == '?' { Some(Token::Placeholder) }
        else { None }
    } else if len == 2 {
        let a = s[pos];
        let b = s[pos + 1];
        if a == ':' && b == ':' { Some(Token::DoubleColon) }
        else if a == '+' && b == '+' { Some(Token::Increment) }
        else if a == '-' && b == '-' { Some(Token::Decrement) }
        else if a == '&' && b == '&' { Some(Token::Conjunction) }
        else if a == '|' && b == '|' { Some(Token::Disjunction) }
        else if a == '+' && b == '=' { Some(Token::AddAssign) }
        else if a == '-' && b == '=' { Some(Token::SubAssign) }
        else if a == '*' && b == '=' { Some(Token::MulAssign) }
        else if a == '/' && b == '=' { Some(Token::DivAssign) }
        else if a == '%' && b == '=' { Some(Token::ModAssign) }
        else if a == '-' && b == '>' { Some(Token::Arrow) }
        else if a == '=' && b == '>' { Some(Token::FatArrow) }
        else if a == '.' && b == '.' { Some(Token::Range) }
        else if a == '<' && b == '=' { Some(Token::LessEqual) }
        else if a == '!' && b == '=' { Some(Token::NotStructuralEqual) }
        else if a == '=' && b == '=' { Some(Token::StructuralEqual) }
        else if a == 'i' && b == 's' { Some(Token::Is) }
        else if a == 'i' && b == 'f' { Some(Token::If) }
        else { None }
    } else if len == 3 {
        let a = s[pos];
        let b = s[pos + 1];
        let c = s[pos + 2];
        if a == ':' && b == ':' && c == ':' { Some(Token::TripleColon) }
        else if a == '.' && b == '.' && c == '=' { Some(Token::RangeInclusive) }
        else if a == '.' && b == '.' && c == '.' { Some(Token::Spread) }
        else if a == '!' && b == '=' && c == '=' { Some(Token::NotEqual) }
        else if a == '=' && b == '=' && c == '=' { Some(Token::Equal) }
        else if a == 'v' && b == 'a' && c == 'r' { Some(Token::Variable) }
        else if a == 'm' && b == 'u' && c == 't' { Some(Token::Mutable) }
        else { None }
    } else if len == 4 {
        if s[pos] == 't' && s[pos + 1] == 'r' && s[pos + 2] == 'u' && s[pos + 3] == 'e' { Some(Token::True) }
        else if s[pos] == 'n' && s[pos + 1] == 'u' && s[pos + 2] == 'l' && s[pos + 3] == 'l' { Some(Token::Null) }
        else if s[pos] == 'e' && s[pos + 1] == 'l' && s[pos + 2] == 's' && s[pos + 3] == 'e' { Some(Token::Else) }
        else { None }
    } else if len == 5 {
        if s[pos] == 'f' && s[pos + 1] == 'a' && s[pos + 2] == 'l' && s[pos + 3] == 's' && s[pos + 4] == 'e' { Some(Token::False) }
        else if s[pos] == 'c' && s[pos + 1] == 'o' && s[pos + 2] == 'n' && s[pos + 3] == 's' && s[pos + 4] == 't' { Some(Token::Const) }
        else { None }
    } else if len == 7 {
        if s[pos] == 'm' && s[pos + 1] == 'a' && s[pos + 2] == 't' && s[pos + 3] == 'c' && s[pos + 4] == 'h' && s[pos + 5] == 'e'
            && s[pos + 6] == 's' { Some(Token::Matches) }
        else { None }
    } else if len == 8 {
        if s[pos] == 'f' && s[pos + 1] == 'u' && s[pos + 2] == 'n' && s[pos + 3] == 'c' && s[pos + 4] == 't' && s[pos + 5] == 'i'
            && s[pos + 6] == 'o' && s[pos + 7] == 'n' { Some(Token::Function) }
        else { None }
    } else {
        None
    }
}

/// The longest text at `pos` that is the fixed spelling of a token, with that token.
pub fn scan_fixed(s: &Vec<char>, pos: usize) -> (res: (usize, Option<Token>))
    requires
        pos <= s.len(),
    ensures
        is_longest(Rule::Fixed, s@, pos as int, res.0 as int),
        res.0 > 0 ==> res.1 == fixed_token(window(s@, pos as int, res.0 as int)),
{
    let avail = s.len() - pos;
    let mut len: usize = if avail < 8 { avail } else { 8 };
    while len > 0
        invariant
            len <= s.len() - pos,
            forall|m: int| len < m <= s.len() - pos ==> !#[trigger] rule_matches(
                Rule::Fixed,
                window(s@, pos as int, m),
            ),
        decreases len,
    {
        let t = fixed_token_at(s, pos, len);
        if t.is_some() {
            return (len, t);
        }
        len = len - 1;
    }
    (0, None)
}

} // verus!
