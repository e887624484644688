//! Longest-match scanners for the numeric literal rules.
use vstd::prelude::*;
use super::chars::{digit, is_bin_digit_or_sep, is_digit, is_digit_or_sep, is_hex_digit_or_sep,
    is_oct_digit_or_sep, is_sign, sign};
use super::rules::{
    binary_split, decimal_integer_split, dec_suffix_chars, digit_or_sep_run, fraction_split,
    hex_split, int_suffix_chars, is_longest, octal_split, rule_matches,
    sign_len, window, Rule, exponent, dotted_body, exponent_body, decimal_split,
};
use super::scan::{in_class, lemma_window_shift, run_end, CharClass};

verus! {

/// Length of the longest integer type suffix at `q` (`0` if there is none).
pub fn longest_int_suffix(s: &Vec<char>, q: usize) -> (l: usize)
    requires
        q <= s.len(),
    ensures
        l == 0 || (l <= s.len() - q && int_suffix_chars(s@, q as int, l as int)),
        forall|l2: int| l < l2 <= s.len() - q ==> !#[trigger] int_suffix_chars(s@, q as int, l2),
{
    let avail = s.len() - q;
    if avail >= 4 && (s[q] == 'u' || s[q] == 'i') && s[q + 1] == '1' && s[q + 2] == '2' && s[q + 3]
        == '8' {
        return 4;
    }
    if avail >= 3 && (s[q] == 'u' || s[q] == 'i') && ((s[q + 1] == '1' && s[q + 2] == '6') || (s[q
        + 1] == '3' && s[q + 2] == '2') || (s[q + 1] == '6' && s[q + 2] == '4')) {
        return 3;
    }
    if avail >= 3 && s[q] == 'b' && s[q + 1] == 'i' && s[q + 2] == 'g' {
        return 3;
    }
    if avail >= 2 && (s[q] == 'u' || s[q] == 'i') && s[q + 1] == '8' {
        return 2;
    }
    0
}

/// Length of the decimal type suffix at `q` (`0` if there is none).
pub fn longest_dec_suffix(s: &Vec<char>, q: usize) -> (l: usize)
    requires
        q <= s.len(),
    ensures
        l == 0 || (l <= s.len() - q && dec_suffix_chars(s@, q as int, l as int)),
        forall|l2: int| l < l2 <= s.len() - q ==> !#[trigger] dec_suffix_chars(s@, q as int, l2),
{
    let avail = s.len() - q;
    if avail >= 3 && s[q] == 'f' && ((s[q + 1] == '3' && s[q + 2] == '2') || (s[q + 1] == '6' && s[q
        + 2] == '4')) {
        3
    } else {
        0
    }
}

/// Suffix facts carry over between a window and the source.
proof fn lemma_suffix_window(s: Seq<char>, pos: int, m: int, e: int)
    requires
        0 <= pos,
        0 <= e <= m,
        pos + m <= s.len(),
    ensures
        int_suffix_chars(window(s, pos, m), e, m - e) == int_suffix_chars(s, pos + e, m - e),
        dec_suffix_chars(window(s, pos, m), e, m - e) == dec_suffix_chars(s, pos + e, m - e),
{
    let w = window(s, pos, m);
    assert forall|k: int| 0 <= k < m implies w[k] == s[pos + k] by {
        lemma_window_shift(s, pos, m, k);
    }
}

/// An integer or decimal suffix starts with a letter, never with a digit or separator.
proof fn lemma_suffix_not_digit(t: Seq<char>, e: int, l: int)
    requires
        int_suffix_chars(t, e, l) || dec_suffix_chars(t, e, l),
    ensures
        !is_digit_or_sep(t[e]),
{
}

/// Optional sign, a digit, digits and separators, then an optional integer suffix.
pub fn scan_decimal_integer(s: &Vec<char>, pos: usize) -> (n: usize)
    requires
        pos <= s.len(),
    ensures
        is_longest(Rule::DecimalInteger, s@, pos as int, n as int),
{
    let avail = s.len() - pos;
    let b: usize = if avail >= 1 && sign(s[pos]) { 1 } else { 0 };
    if b < avail && digit(s[pos + b]) {
        let e = run_end(s, pos + b + 1, CharClass::DigitOrSep);
        let l = longest_int_suffix(s, e);
        let n = e - pos + l;
        assert forall|m: int| n < m <= s.len() - pos implies !#[trigger] rule_matches(
            Rule::DecimalInteger,
            window(s@, pos as int, m),
        ) by {
            let w = window(s@, pos as int, m);
            assert forall|k: int| 0 <= k < m implies w[k] == s@[pos + k] by {
                lemma_window_shift(s@, pos as int, m, k);
            }
            if exists|e2: int| #[trigger] decimal_integer_split(w, e2) {
                let e2 = choose|e2: int| #[trigger] decimal_integer_split(w, e2);
                assert(sign_len(w) == b);
                let er = e - pos;
                if e2 > er {
                    assert(is_digit_or_sep(w[er]));
                    assert(!in_class(CharClass::DigitOrSep, s@[e as int]));
                } else if e2 < er {
                    assert(is_digit_or_sep(w[e2]));
                    lemma_suffix_not_digit(w, e2, m - e2);
                } else {
                    lemma_suffix_window(s@, pos as int, m, e2);
                }
            }
        }
        assert(rule_matches(Rule::DecimalInteger, window(s@, pos as int, n as int))) by {
            let w = window(s@, pos as int, n as int);
            assert forall|k: int| 0 <= k < n implies w[k] == s@[pos + k] by {
                lemma_window_shift(s@, pos as int, n as int, k);
            }
            lemma_suffix_window(s@, pos as int, n as int, e - pos);
            assert(decimal_integer_split(w, e - pos));
        }
        n
    } else {
        assert forall|m: int| 0 < m <= s.len() - pos implies !#[trigger] rule_matches(
            Rule::DecimalInteger,
            window(s@, pos as int, m),
        ) by {
            let w = window(s@, pos as int, m);
            assert forall|k: int| 0 <= k < m implies w[k] == s@[pos + k] by {
                lemma_window_shift(s@, pos as int, m, k);
            }
            if exists|e2: int| #[trigger] decimal_integer_split(w, e2) {
                let e2 = choose|e2: int| #[trigger] decimal_integer_split(w, e2);
                assert(sign_len(w) == b);
            }
        }
        0
    }
}

/// `0b`, then radix digits and separators, then an optional integer suffix.
pub fn scan_binary_integer(s: &Vec<char>, pos: usize) -> (n: usize)
    requires
        pos <= s.len(),
    ensures
        is_longest(Rule::BinaryInteger, s@, pos as int, n as int),
{
    let avail = s.len() - pos;
    if avail >= 2 && s[pos] == '0' && (s[pos + 1] == 'b' || s[pos + 1] == 'B') {
        let e = run_end(s, pos + 2, CharClass::BinDigitOrSep);
        let l = longest_int_suffix(s, e);
        let n = e - pos + l;
        assert forall|m: int| n < m <= s.len() - pos implies !#[trigger] rule_matches(
            Rule::BinaryInteger,
            window(s@, pos as int, m),
        ) by {
            let w = window(s@, pos as int, m);
            assert forall|k: int| 0 <= k < m implies w[k] == s@[pos + k] by {
                lemma_window_shift(s@, pos as int, m, k);
            }
            if exists|e2: int| #[trigger] binary_split(w, e2) {
                let e2 = choose|e2: int| #[trigger] binary_split(w, e2);
                let er = e - pos;
                if e2 > er {
                    assert(is_bin_digit_or_sep(w[er]));
                    assert(!in_class(CharClass::BinDigitOrSep, s@[e as int]));
                } else if e2 < er {
                    assert(is_bin_digit_or_sep(w[e2]));
                    lemma_suffix_not_digit(w, e2, m - e2);
                } else {
                    lemma_suffix_window(s@, pos as int, m, e2);
                }
            }
        }
        assert(rule_matches(Rule::BinaryInteger, window(s@, pos as int, n as int))) by {
            let w = window(s@, pos as int, n as int);
            assert forall|k: int| 0 <= k < n implies w[k] == s@[pos + k] by {
                lemma_window_shift(s@, pos as int, n as int, k);
            }
            lemma_suffix_window(s@, pos as int, n as int, e - pos);
            assert(binary_split(w, e - pos));
        }
        n
    } else {
        assert forall|m: int| 0 < m <= s.len() - pos implies !#[trigger] rule_matches(
            Rule::BinaryInteger,
            window(s@, pos as int, m),
        ) by {
            let w = window(s@, pos as int, m);
            if m >= 2 {
                lemma_window_shift(s@, pos as int, m, 0);
                lemma_window_shift(s@, pos as int, m, 1);
            }
            if exists|e2: int| #[trigger] binary_split(w, e2) {
                let e2 = choose|e2: int| #[trigger] binary_split(w, e2);
            }
        }
        0
    }
}

/// `0o`, then radix digits and separators, then an optional integer suffix.
pub fn scan_octal_integer(s: &Vec<char>, pos: usize) -> (n: usize)
    requires
        pos <= s.len(),
    ensures
        is_longest(Rule::OctalInteger, s@, pos as int, n as int),
{
    let avail = s.len() - pos;
    if avail >= 2 && s[pos] == '0' && (s[pos + 1] == 'o' || s[pos + 1] == 'O') {
        let e = run_end(s, pos + 2, CharClass::OctDigitOrSep);
        let l = longest_int_suffix(s, e);
        let n = e - pos + l;
        assert forall|m: int| n < m <= s.len() - pos implies !#[trigger] rule_matches(
            Rule::OctalInteger,
            window(s@, pos as int, m),
        ) by {
            let w = window(s@, pos as int, m);
            assert forall|k: int| 0 <= k < m implies w[k] == s@[pos + k] by {
                lemma_window_shift(s@, pos as int, m, k);
            }
            if exists|e2: int| #[trigger] octal_split(w, e2) {
                let e2 = choose|e2: int| #[trigger] octal_split(w, e2);
                let er = e - pos;
                if e2 > er {
                    assert(is_oct_digit_or_sep(w[er]));
                    assert(!in_class(CharClass::OctDigitOrSep, s@[e as int]));
                } else if e2 < er {
                    assert(is_oct_digit_or_sep(w[e2]));
                    lemma_suffix_not_digit(w, e2, m - e2);
                } else {
                    lemma_suffix_window(s@, pos as int, m, e2);
                }
            }
        }
        assert(rule_matches(Rule::OctalInteger, window(s@, pos as int, n as int))) by {
            let w = window(s@, pos as int, n as int);
            assert forall|k: int| 0 <= k < n implies w[k] == s@[pos + k] by {
                lemma_window_shift(s@, pos as int, n as int, k);
            }
            lemma_suffix_window(s@, pos as int, n as int, e - pos);
            assert(octal_split(w, e - pos));
        }
        n
    } else {
        assert forall|m: int| 0 < m <= s.len() - pos implies !#[trigger] rule_matches(
            Rule::OctalInteger,
            window(s@, pos as int, m),
        ) by {
            let w = window(s@, pos as int, m);
            if m >= 2 {
                lemma_window_shift(s@, pos as int, m, 0);
                lemma_window_shift(s@, pos as int, m, 1);
            }
            if exists|e2: int| #[trigger] octal_split(w, e2) {
                let e2 = choose|e2: int| #[trigger] octal_split(w, e2);
            }
        }
        0
    }
}

/// `0x`, then hexadecimal digits and separators, then an optional integer suffix.
/// The suffix `big` starts with the hexadecimal digit `b`, so the longest match may end
/// the digits one character before the end of their run.
pub fn scan_hex_integer(s: &Vec<char>, pos: usize) -> (n: usize)
    requires
        pos <= s.len(),
    ensures
        is_longest(Rule::HexadecimalInteger, s@, pos as int, n as int),
{
    let avail = s.len() - pos;
    if avail >= 2 && s[pos] == '0' && (s[pos + 1] == 'x' || s[pos + 1] == 'X') {
        let e = run_end(s, pos + 2, CharClass::HexDigitOrSep);
        let big_inside = e - pos >= 3 && s[e - 1] == 'b' && s.len() - e >= 2 && s[e] == 'i'
            && s[e + 1] == 'g';
        let l = longest_int_suffix(s, e);
        let n = if big_inside { e - pos + 2 } else { e - pos + l };
        assert forall|m: int| n < m <= s.len() - pos implies !#[trigger] rule_matches(
            Rule::HexadecimalInteger,
            window(s@, pos as int, m),
        ) by {
            let w = window(s@, pos as int, m);
            assert forall|k: int| 0 <= k < m implies w[k] == s@[pos + k] by {
                lemma_window_shift(s@, pos as int, m, k);
            }
            if exists|e2: int| #[trigger] hex_split(w, e2) {
                let e2 = choose|e2: int| #[trigger] hex_split(w, e2);
                let er = e - pos;
                if e2 > er {
                    assert(is_hex_digit_or_sep(w[er]));
                    assert(!in_class(CharClass::HexDigitOrSep, s@[e as int]));
                } else if e2 < er {
                    assert(is_hex_digit_or_sep(w[e2]));
                    assert(int_suffix_chars(w, e2, m - e2));
                    if e2 + 1 < er {
                        assert(is_hex_digit_or_sep(w[e2 + 1]));
                    }
                } else {
                    lemma_suffix_window(s@, pos as int, m, e2);
                }
            }
        }
        assert(rule_matches(Rule::HexadecimalInteger, window(s@, pos as int, n as int))) by {
            let w = window(s@, pos as int, n as int);
            assert forall|k: int| 0 <= k < n implies w[k] == s@[pos + k] by {
                lemma_window_shift(s@, pos as int, n as int, k);
            }
            if big_inside {
                assert(hex_split(w, e - pos - 1));
            } else {
                lemma_suffix_window(s@, pos as int, n as int, e - pos);
                assert(hex_split(w, e - pos));
            }
        }
        n
    } else {
        assert forall|m: int| 0 < m <= s.len() - pos implies !#[trigger] rule_matches(
            Rule::HexadecimalInteger,
            window(s@, pos as int, m),
        ) by {
            let w = window(s@, pos as int, m);
            if m >= 2 {
                lemma_window_shift(s@, pos as int, m, 0);
                lemma_window_shift(s@, pos as int, m, 1);
            }
            if exists|e2: int| #[trigger] hex_split(w, e2) {
                let e2 = choose|e2: int| #[trigger] hex_split(w, e2);
            }
        }
        0
    }
}

/// Optional sign, digits, `/`, digits.
pub fn scan_fraction(s: &Vec<char>, pos: usize) -> (n: usize)
    requires
        pos <= s.len(),
    ensures
        is_longest(Rule::Fraction, s@, pos as int, n as int),
{
    let avail = s.len() - pos;
    let b: usize = if avail >= 1 && sign(s[pos]) { 1 } else { 0 };
    let d1 = run_end(s, pos + b, CharClass::Digit);
    if d1 > pos + b && d1 < s.len() && s[d1] == '/' {
        let d2 = run_end(s, d1 + 1, CharClass::Digit);
        if d2 > d1 + 1 {
            let n = d2 - pos;
            assert forall|m: int| n < m <= s.len() - pos implies !#[trigger] rule_matches(
                Rule::Fraction,
                window(s@, pos as int, m),
            ) by {
                let w = window(s@, pos as int, m);
                assert forall|k: int| 0 <= k < m implies w[k] == s@[pos + k] by {
                    lemma_window_shift(s@, pos as int, m, k);
                }
                if exists|j: int| #[trigger] fraction_split(w, j) {
                    let j = choose|j: int| #[trigger] fraction_split(w, j);
                    assert(sign_len(w) == b);
                    let jr = d1 - pos;
                    if j > jr {
                        assert(is_digit(w[jr]));
                    } else if j < jr {
                        assert(in_class(CharClass::Digit, s@[pos + j]));
                    } else {
                        assert(is_digit(w[d2 - pos]));
                        assert(!in_class(CharClass::Digit, s@[d2 as int]));
                    }
                }
            }
            assert(rule_matches(Rule::Fraction, window(s@, pos as int, n as int))) by {
                let w = window(s@, pos as int, n as int);
                assert forall|k: int| 0 <= k < n implies w[k] == s@[pos + k] by {
                    lemma_window_shift(s@, pos as int, n as int, k);
                }
                assert(fraction_split(w, d1 - pos));
            }
            return n;
        }
    }
    assert forall|m: int| 0 < m <= s.len() - pos implies !#[trigger] rule_matches(
        Rule::Fraction,
        window(s@, pos as int, m),
    ) by {
        let w = window(s@, pos as int, m);
        assert forall|k: int| 0 <= k < m implies w[k] == s@[pos + k] by {
            lemma_window_shift(s@, pos as int, m, k);
        }
        if exists|j: int| #[trigger] fraction_split(w, j) {
            let j = choose|j: int| #[trigger] fraction_split(w, j);
            assert(sign_len(w) == b);
            let jr = d1 - pos;
            if j > jr {
                assert(is_digit(w[jr]));
                assert(!in_class(CharClass::Digit, s@[d1 as int]));
            } else if j < jr {
                assert(in_class(CharClass::Digit, s@[pos + j]));
            } else {
                assert(is_digit(w[b as int]));
                assert(is_digit(w[j + 1]));
            }
        }
    }
    0
}

/// Digit runs carry over between a window and the source.
proof fn lemma_run_window(s: Seq<char>, pos: int, m: int, lo: int, hi: int)
    requires
        0 <= pos,
        0 <= lo,
        hi <= m,
        pos + m <= s.len(),
    ensures
        digit_or_sep_run(window(s, pos, m), lo, hi) == digit_or_sep_run(s, pos + lo, pos + hi),
{
    let w = window(s, pos, m);
    assert forall|k: int| 0 <= k < m implies w[k] == s[pos + k] by {
        lemma_window_shift(s, pos, m, k);
    }
    if digit_or_sep_run(w, lo, hi) {
        assert forall|k: int| pos + lo <= k < pos + hi implies is_digit_or_sep(s[k]) by {
            assert(w[k - pos] == s[k]);
        }
    }
    if digit_or_sep_run(s, pos + lo, pos + hi) {
        assert forall|k: int| lo <= k < hi implies is_digit_or_sep(w[k]) by {
            assert(w[k] == s[pos + k]);
        }
    }
}

/// Exponents carry over between a window and the source.
proof fn lemma_exponent_window(s: Seq<char>, pos: int, m: int, lo: int, hi: int)
    requires
        0 <= pos,
        0 <= lo,
        hi <= m,
        pos + m <= s.len(),
    ensures
        exponent(window(s, pos, m), lo, hi) == exponent(s, pos + lo, pos + hi),
{
    let w = window(s, pos, m);
    if hi - lo >= 2 {
        lemma_window_shift(s, pos, m, lo);
        lemma_window_shift(s, pos, m, lo + 1);
        let c = if is_sign(w[lo + 1]) { lo + 2 } else { lo + 1 };
        lemma_run_window(s, pos, m, c, hi);
    }
}

/// The end of the exponent at `f`, or `f` if there is none.
fn exponent_end(s: &Vec<char>, f: usize) -> (x: usize)
    requires
        f <= s.len(),
    ensures
        f <= x <= s.len(),
        x > f ==> exponent(s@, f as int, x as int),
        x > f ==> (x == s.len() || !is_digit_or_sep(s@[x as int])),
        x > f ==> forall|h: int| f < h < x ==> is_digit_or_sep(#[trigger] s@[h]) || h == f + 1,
        x == f ==> forall|h: int| f < h <= s.len() ==> !#[trigger] exponent(s@, f as int, h),
        forall|h: int| x < h <= s.len() ==> !#[trigger] exponent(s@, f as int, h),
{
    if f < s.len() && (s[f] == 'e' || s[f] == 'E') {
        let c: usize = if f + 1 < s.len() && sign(s[f + 1]) { f + 2 } else { f + 1 };
        let r = run_end(s, c, CharClass::DigitOrSep);
        if r > c {
            assert forall|h: int| r < h <= s.len() implies !#[trigger] exponent(s@, f as int, h) by {
                assert(!in_class(CharClass::DigitOrSep, s@[r as int]));
            }
            return r;
        } else {
            assert forall|h: int| f < h <= s.len() implies !#[trigger] exponent(s@, f as int, h) by {
                if h > c {
                    assert(!in_class(CharClass::DigitOrSep, s@[c as int]));
                }
            }
            return f;
        }
    }
    f
}

/// What the decimal scanner found at `pos`: an optional sign (`b`), the integer digits up
/// to `ie`, a point at `ie` if `dotted`, fraction digits up to `f`, an exponent up to `x`
/// and a suffix of length `l`.
spec fn decimal_scan(
    s: Seq<char>,
    pos: int,
    b: int,
    has_int: bool,
    ie: int,
    dotted: bool,
    f: int,
    x: int,
    l: int,
    n: int,
) -> bool {
    &&& 0 <= pos <= s.len()
    &&& b == (if pos < s.len() && is_sign(s[pos]) { 1int } else { 0int })
    &&& has_int == (pos + b < s.len() && is_digit(s[pos + b]))
    &&& has_int ==> pos + b + 1 <= ie <= s.len() && digit_or_sep_run(s, pos + b + 1, ie) && (ie
        == s.len() || !is_digit_or_sep(s[ie]))
    &&& !has_int ==> ie == pos + b
    &&& dotted == (ie < s.len() && s[ie] == '.')
    &&& dotted ==> ie + 1 <= f <= s.len() && digit_or_sep_run(s, ie + 1, f) && (f == s.len()
        || !is_digit_or_sep(s[f]))
    &&& !dotted ==> f == ie
    &&& f <= x <= s.len()
    &&& x > f ==> exponent(s, f, x)
    &&& x > f ==> forall|h: int| f < h < x ==> is_digit_or_sep(#[trigger] s[h]) || h == f + 1
    &&& x == f ==> forall|h: int| f < h <= s.len() ==> !#[trigger] exponent(s, f, h)
    &&& forall|h: int| x < h <= s.len() ==> !#[trigger] exponent(s, f, h)
    &&& l == 0 || (l <= s.len() - x && dec_suffix_chars(s, x, l))
    &&& forall|l2: int| l < l2 <= s.len() - x ==> !#[trigger] dec_suffix_chars(s, x, l2)
    &&& if (dotted && (has_int || f > ie + 1)) || (!dotted && has_int && x > f) {
        n == x - pos + l
    } else {
        n == 0
    }
}

proof fn lemma_window_chars(s: Seq<char>, pos: int, m: int)
    requires
        0 <= pos,
        0 <= m,
        pos + m <= s.len(),
    ensures
        forall|k: int| 0 <= k < m ==> #[trigger] window(s, pos, m)[k] == s[pos + k],
{
    assert forall|k: int| 0 <= k < m implies #[trigger] window(s, pos, m)[k] == s[pos + k] by {
        lemma_window_shift(s, pos, m, k);
    }
}

/// After the number part ends at `e2`, a longer window holds a suffix that starts at `e2`.
proof fn lemma_decimal_tail(
    s: Seq<char>, pos: int, b: int, has_int: bool, ie: int, dotted: bool, f: int, x: int,
    l: int, n: int, m: int, e2: int,
)
    requires
        decimal_scan(s, pos, b, has_int, ie, dotted, f, x, l, n),
        n < m <= s.len() - pos,
        x - pos <= n,
        e2 == f - pos || exponent(s, f, pos + e2),
    ensures
        !decimal_split(window(s, pos, m), e2),
{
    let w = window(s, pos, m);
    if !decimal_split(w, e2) {
        return;
    }
    lemma_window_chars(s, pos, m);
    let xr = x - pos;
    if e2 == f - pos {
        if x > f {
            assert(w[e2] == s[f]);
        } else {
            lemma_suffix_window(s, pos, m, e2);
        }
    } else if e2 < xr {
        assert(is_digit_or_sep(s[pos + e2]) || pos + e2 == f + 1);
        lemma_suffix_not_digit(w, e2, m - e2);
    } else {
        lemma_suffix_window(s, pos, m, e2);
    }
}

/// No window longer than the scanned decimal matches with a point.
proof fn lemma_decimal_dotted_longer(
    s: Seq<char>, pos: int, b: int, has_int: bool, ie: int, dotted: bool, f: int, x: int,
    l: int, n: int, m: int, e2: int, d: int, f2: int,
)
    requires
        decimal_scan(s, pos, b, has_int, ie, dotted, f, x, l, n),
        n < m <= s.len() - pos,
        decimal_split(window(s, pos, m), e2),
    ensures
        !dotted_body(window(s, pos, m), b, d, f2, e2),
{
    let w = window(s, pos, m);
    if !dotted_body(w, b, d, f2, e2) {
        return;
    }
    lemma_window_chars(s, pos, m);
    let ir = ie - pos;
    let fr = f - pos;
    if has_int {
        assert(d != b);
        if d > ir {
            assert(is_digit_or_sep(w[ir]));
        }
        if d < ir {
            assert(is_digit_or_sep(s[pos + d]));
        }
    } else if d != b {
        assert(is_digit(w[b]));
    }
    assert(d == ir);
    assert(dotted);
    if f2 > fr {
        assert(is_digit_or_sep(w[fr]));
    }
    if f2 < fr {
        assert(is_digit_or_sep(s[pos + f2]));
        if f2 == e2 {
            lemma_suffix_not_digit(w, e2, m - e2);
        } else {
            assert(w[f2] == 'e' || w[f2] == 'E');
        }
    }
    assert(f2 == fr);
    if e2 != fr {
        lemma_exponent_window(s, pos, m, fr, e2);
    }
    lemma_decimal_tail(s, pos, b, has_int, ie, dotted, f, x, l, n, m, e2);
}

/// No window longer than the scanned decimal matches without a point.
proof fn lemma_decimal_exponent_longer(
    s: Seq<char>, pos: int, b: int, has_int: bool, ie: int, dotted: bool, f: int, x: int,
    l: int, n: int, m: int, e2: int, i: int,
)
    requires
        decimal_scan(s, pos, b, has_int, ie, dotted, f, x, l, n),
        n < m <= s.len() - pos,
        decimal_split(window(s, pos, m), e2),
    ensures
        !exponent_body(window(s, pos, m), b, i, e2),
{
    let w = window(s, pos, m);
    if !exponent_body(w, b, i, e2) {
        return;
    }
    lemma_window_chars(s, pos, m);
    let ir = ie - pos;
    assert(has_int);
    if i > ir {
        assert(is_digit_or_sep(w[ir]));
    }
    if i < ir {
        assert(is_digit_or_sep(s[pos + i]));
    }
    assert(i == ir);
    assert(!dotted);
    lemma_exponent_window(s, pos, m, ir, e2);
    lemma_decimal_tail(s, pos, b, has_int, ie, dotted, f, x, l, n, m, e2);
}

proof fn lemma_decimal_longest(
    s: Seq<char>, pos: int, b: int, has_int: bool, ie: int, dotted: bool, f: int, x: int,
    l: int, n: int,
)
    requires
        decimal_scan(s, pos, b, has_int, ie, dotted, f, x, l, n),
        0 <= n <= s.len() - pos,
    ensures
        is_longest(Rule::Decimal, s, pos, n),
{
    assert forall|m: int| n < m <= s.len() - pos implies !#[trigger] rule_matches(
        Rule::Decimal,
        window(s, pos, m),
    ) by {
        let w = window(s, pos, m);
        lemma_window_chars(s, pos, m);
        if exists|e2: int| #[trigger] decimal_split(w, e2) {
            let e2 = choose|e2: int| #[trigger] decimal_split(w, e2);
            assert(sign_len(w) == b);
            if exists|d: int, f2: int| #[trigger] dotted_body(w, b, d, f2, e2) {
                let (d, f2) = choose|d: int, f2: int| #[trigger] dotted_body(w, b, d, f2, e2);
                lemma_decimal_dotted_longer(s, pos, b, has_int, ie, dotted, f, x, l, n, m, e2, d, f2);
            } else {
                let i = choose|i: int| #[trigger] exponent_body(w, b, i, e2);
                lemma_decimal_exponent_longer(s, pos, b, has_int, ie, dotted, f, x, l, n, m, e2, i);
            }
        }
    }
    if n > 0 {
        let w = window(s, pos, n);
        lemma_window_chars(s, pos, n);
        let ir = ie - pos;
        let fr = f - pos;
        let xr = x - pos;
        assert(sign_len(w) == b);
        lemma_suffix_window(s, pos, n, xr);
        if dotted {
            lemma_run_window(s, pos, n, ir + 1, fr);
            if has_int {
                lemma_run_window(s, pos, n, b + 1, ir);
            }
            if x > f {
                lemma_exponent_window(s, pos, n, fr, xr);
            }
            assert(dotted_body(w, b, ir, fr, xr));
        } else {
            lemma_run_window(s, pos, n, b + 1, ir);
            lemma_exponent_window(s, pos, n, ir, xr);
            assert(exponent_body(w, b, ir, xr));
        }
        assert(decimal_split(w, xr));
    }
}

/// Decimal literal, see `is_decimal`.
pub fn scan_decimal(s: &Vec<char>, pos: usize) -> (n: usize)
    requires
        pos <= s.len(),
    ensures
        is_longest(Rule::Decimal, s@, pos as int, n as int),
{
    let avail = s.len() - pos;
    let b: usize = if avail >= 1 && sign(s[pos]) { 1 } else { 0 };
    let q = pos + b;
    let has_int = q < s.len() && digit(s[q]);
    let i_end = if has_int { run_end(s, q + 1, CharClass::DigitOrSep) } else { q };
    let dotted = i_end < s.len() && s[i_end] == '.';
    let f = if dotted { run_end(s, i_end + 1, CharClass::DigitOrSep) } else { i_end };
    let x = exponent_end(s, f);
    let l = longest_dec_suffix(s, x);
    let n: usize = if (dotted && (has_int || f > i_end + 1)) || (!dotted && has_int && x > f) {
        x - pos + l
    } else {
        0
    };
    proof {
        lemma_decimal_longest(s@, pos as int, b as int, has_int, i_end as int, dotted, f as int,
            x as int, l as int, n as int);
    }
    n
}

} // verus!
