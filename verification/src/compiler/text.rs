//! Decoding of text literals: escape sequences and JSON unicode escapes.
use vstd::prelude::*;
use crate::utils::strings::{chars_of, string_from_chars};

verus! {

/// `s` with every occurrence of `pat`, found from left to right without overlap, replaced by
/// `rep`.
pub open spec fn replace_all(s: Seq<char>, pat: Seq<char>, rep: Seq<char>) -> Seq<char>
    recommends
        pat.len() > 0,
    decreases s.len(),
{
    if s.len() == 0 || pat.len() == 0 {
        s
    } else if s.len() >= pat.len() && s.subrange(0, pat.len() as int) == pat {
        rep + replace_all(s.skip(pat.len() as int), pat, rep)
    } else {
        seq![s[0]] + replace_all(s.skip(1), pat, rep)
    }
}

/// The value of a hexadecimal digit.
pub open spec fn hex_digit_value(c: char) -> Option<nat> {
    if '0' <= c <= '9' {
        Some((c as nat - '0' as nat) as nat)
    } else if 'a' <= c <= 'f' {
        Some((c as nat - 'a' as nat + 10) as nat)
    } else if 'A' <= c <= 'F' {
        Some((c as nat - 'A' as nat + 10) as nat)
    } else {
        None
    }
}

/// All characters of `s` are hexadecimal digits.
pub open spec fn all_hex(s: Seq<char>) -> bool {
    forall|i: int| 0 <= i < s.len() ==> hex_digit_value(#[trigger] s[i]) is Some
}

/// The number written by the hexadecimal digits `s`.
pub open spec fn hex_value(s: Seq<char>) -> nat
    decreases s.len(),
{
    if s.len() == 0 {
        0
    } else {
        hex_value(s.drop_last()) * 16 + hex_digit_value(s.last()).unwrap_or(0)
    }
}

/// An unsigned 16-bit number in hexadecimal: an optional `+` sign, then at least one
/// hexadecimal digit, with a value below 65536.
pub open spec fn parse_u16_hex(s: Seq<char>) -> Option<u16> {
    let digits = if s.len() > 0 && s[0] == '+' {
        s.skip(1)
    } else {
        s
    };
    if digits.len() > 0 && all_hex(digits) && hex_value(digits) < 0x10000 {
        Some(hex_value(digits) as u16)
    } else {
        None
    }
}

/// The uppercase hexadecimal digit of `v` (below 16).
pub open spec fn upper_hex_digit(v: nat) -> char {
    if v < 10 {
        ('0' as nat + v) as char
    } else {
        ('A' as nat + v - 10) as char
    }
}

/// `v` as four uppercase hexadecimal digits.
pub open spec fn hex4(v: u16) -> Seq<char> {
    seq![
        upper_hex_digit((v / 0x1000) as nat),
        upper_hex_digit(((v / 0x100) % 16) as nat),
        upper_hex_digit(((v / 0x10) % 16) as nat),
        upper_hex_digit((v % 16) as nat),
    ]
}

/// The text `\u` followed by `digits`.
pub open spec fn escape_text(digits: Seq<char>) -> Seq<char> {
    seq!['\\', 'u'] + digits
}

/// Whether `v` is a high surrogate.
pub open spec fn is_high_surrogate(v: u16) -> bool {
    0xD800 <= v <= 0xDBFF
}

/// Whether `v` is a low surrogate.
pub open spec fn is_low_surrogate(v: u16) -> bool {
    0xDC00 <= v <= 0xDFFF
}

/// The code point of the surrogate pair `high`, `low`.
pub open spec fn surrogate_pair_code_point(high: u16, low: u16) -> u32 {
    (0x10000 + (high - 0xD800) * 0x400 + (low - 0xDC00)) as u32
}

/// The smaller of `a` and `b`.
pub open spec fn min_len(a: int, b: int) -> int {
    if a < b {
        a
    } else {
        b
    }
}

/// The text after a high surrogate escape `\uXXXX` with value `first`: a following `\uYYYY`
/// with a low surrogate gives the character of the pair; otherwise the high surrogate is
/// written back as `\uXXXX` (uppercase), followed by what was read of a second escape, and the
/// characters that were looked at for a second escape are dropped.
pub open spec fn decode_after_high(first: u16, rest: Seq<char>) -> (Seq<char>, int) {
    if rest.len() >= 2 && rest[0] == '\\' && rest[1] == 'u' {
        let r2 = rest.skip(2);
        let low = r2.take(min_len(4, r2.len() as int));
        let fallback = escape_text(hex4(first)) + escape_text(low);
        let incomplete = if r2.len() < 4 {
            fallback
        } else {
            Seq::empty()
        };
        let decoded = match parse_u16_hex(low) {
            Some(second) => if is_low_surrogate(second) {
                seq![surrogate_pair_code_point(first, second) as char]
            } else {
                fallback
            },
            None => fallback,
        };
        (incomplete + decoded, 2 + low.len() as int)
    } else if rest.len() >= 1 && rest[0] == '\\' {
        (escape_text(hex4(first)), min_len(2, rest.len() as int))
    } else {
        (escape_text(hex4(first)), min_len(1, rest.len() as int))
    }
}

/// What the escape `\u...` at the start of `input` decodes to, and how many characters it
/// uses: `\uXXXX` gives the character with that code, and a high surrogate followed by a low
/// surrogate escape gives the character of the pair. Escapes that do not decode are written
/// back (see `decode_after_high`); an escape cut short by the end of the input is written back
/// before it is decoded.
#[verifier::opaque]
pub open spec fn escape_step(input: Seq<char>) -> (Seq<char>, int) {
    let rest = input.skip(2);
    let unit = rest.take(min_len(4, rest.len() as int));
    let after = rest.skip(unit.len() as int);
    let incomplete = if rest.len() < 4 {
        escape_text(unit)
    } else {
        Seq::empty()
    };
    let used = 2 + unit.len() as int;
    match parse_u16_hex(unit) {
        None => (incomplete + escape_text(unit), used),
        Some(first) => if is_high_surrogate(first) {
            let (decoded, more) = decode_after_high(first, after);
            (incomplete + decoded, used + more)
        } else if is_low_surrogate(first) {
            (incomplete + escape_text(hex4(first)), used)
        } else {
            (incomplete + seq![first as char], used)
        },
    }
}

/// An escape uses at least its two characters `\u` and at most the whole input.
pub proof fn lemma_escape_step_length(input: Seq<char>)
    requires
        input.len() >= 2,
    ensures
        2 <= escape_step(input).1 <= input.len(),
{
    reveal(escape_step);
}

/// `input` with its JSON unicode escapes decoded (see `escape_step`).
pub open spec fn decode_unicode_escapes(input: Seq<char>) -> Seq<char>
    decreases input.len(),
{
    if input.len() == 0 {
        Seq::empty()
    } else if input.len() >= 2 && input[0] == '\\' && input[1] == 'u' {
        proof {
            lemma_escape_step_length(input);
        }
        let (decoded, used) = escape_step(input);
        decoded + decode_unicode_escapes(input.skip(used))
    } else {
        seq![input[0]] + decode_unicode_escapes(input.skip(1))
    }
}

/// The escape sequences of text literals, replaced in this order.
pub open spec fn unescape_sequences(s: Seq<char>) -> Seq<char> {
    let s1 = replace_all(s, seq!['\\', '"'], seq!['"']);
    let s2 = replace_all(s1, seq!['\\', '\''], seq!['\'']);
    let s3 = replace_all(s2, seq!['\\', 'n'], seq!['\n']);
    let s4 = replace_all(s3, seq!['\\', 'r'], seq!['\r']);
    let s5 = replace_all(s4, seq!['\\', 't'], seq!['\t']);
    let s6 = replace_all(s5, seq!['\\', 'b'], seq!['\x08']);
    let s7 = replace_all(s6, seq!['\\', 'f'], seq!['\x0C']);
    replace_all(s7, seq!['\\', '\\'], seq!['\\'])
}

/// Calls `char::from_u32`: std documents that it gives the character with code `code` when
/// `code` is a Unicode scalar value (not a surrogate, at most 0x10FFFF) and `None` otherwise.
#[verifier::external_body]
fn char_from_u32(code: u32) -> (c: Option<char>)
    ensures
        (code <= 0xD7FF || (0xE000 <= code <= 0x10FFFF)) ==> c == Some(code as char),
        !(code <= 0xD7FF || (0xE000 <= code <= 0x10FFFF)) ==> c is None,
{
    char::from_u32(code)
}

/// `s` with each occurrence of the two characters `a`, `b` replaced by `rep`.
fn replace_pair(s: &Vec<char>, a: char, b: char, rep: char) -> (res: Vec<char>)
    ensures
        res@ == replace_all(s@, seq![a, b], seq![rep]),
{
    let ghost pat = seq![a, b];
    let mut out: Vec<char> = Vec::new();
    let n = s.len();
    let mut i: usize = 0;
    assert(s@.skip(0) =~= s@);
    while i < n
        invariant
            i <= n == s@.len(),
            pat == seq![a, b],
            out@ + replace_all(s@.skip(i as int), pat, seq![rep]) == replace_all(s@, pat, seq![rep]),
        decreases n - i,
    {
        let ghost rest = s@.skip(i as int);
        if i + 1 < n && s[i] == a && s[i + 1] == b {
            proof {
                assert(rest.subrange(0, 2) =~= pat);
                assert(rest.skip(2) =~= s@.skip(i + 2));
            }
            out.push(rep);
            i = i + 2;
            assert(out@ + replace_all(s@.skip(i as int), pat, seq![rep]) =~= replace_all(s@, pat, seq![rep]));
        } else {
            proof {
                if rest.len() >= 2 {
                    assert(rest.subrange(0, 2) != pat) by {
                        if rest.subrange(0, 2) == pat {
                            assert(rest.subrange(0, 2)[0] == s@[i as int]);
                            assert(rest.subrange(0, 2)[1] == s@[i + 1]);
                        }
                    }
                }
                assert(rest.skip(1) =~= s@.skip(i + 1));
                assert(rest[0] == s@[i as int]);
            }
            out.push(s[i]);
            i = i + 1;
            assert(out@ + replace_all(s@.skip(i as int), pat, seq![rep]) =~= replace_all(s@, pat, seq![rep]));
        }
    }
    assert(s@.skip(n as int) =~= Seq::<char>::empty());
    out
}

/// The value of a hexadecimal digit.
fn hex_digit(c: char) -> (res: Option<u32>)
    ensures
        match hex_digit_value(c) {
            Some(v) => res == Some(v as u32),
            None => res is None,
        },
{
    if '0' <= c && c <= '9' {
        Some((c as u32) - ('0' as u32))
    } else if 'a' <= c && c <= 'f' {
        Some((c as u32) - ('a' as u32) + 10)
    } else if 'A' <= c && c <= 'F' {
        Some((c as u32) - ('A' as u32) + 10)
    } else {
        None
    }
}

/// `16` to the power `n`.
pub open spec fn pow16(n: nat) -> nat
    decreases n,
{
    if n == 0 {
        1
    } else {
        16 * pow16((n - 1) as nat)
    }
}

/// Parses `s[lo..hi]` (at most four characters) as an unsigned 16-bit hexadecimal number.
fn parse_hex_u16(s: &Vec<char>, lo: usize, hi: usize) -> (res: Option<u16>)
    requires
        lo <= hi <= s@.len(),
        hi - lo <= 4,
    ensures
        res == parse_u16_hex(s@.subrange(lo as int, hi as int)),
{
    let ghost text = s@.subrange(lo as int, hi as int);
    let start = if lo < hi && s[lo] == '+' {
        lo + 1
    } else {
        lo
    };
    let ghost digits = s@.subrange(start as int, hi as int);
    assert(digits =~= (if text.len() > 0 && text[0] == '+' {
        text.skip(1)
    } else {
        text
    }));
    if start == hi {
        return None;
    }
    let mut value: u32 = 0;
    let mut k: usize = start;
    proof {
        reveal_with_fuel(pow16, 5);
        assert(s@.subrange(start as int, start as int) =~= Seq::<char>::empty());
    }
    while k < hi
        invariant
            lo <= start <= k <= hi <= s@.len(),
            hi - lo <= 4,
            digits == s@.subrange(start as int, hi as int),
            text == s@.subrange(lo as int, hi as int),
            digits == (if text.len() > 0 && text[0] == '+' {
                text.skip(1)
            } else {
                text
            }),
            all_hex(s@.subrange(start as int, k as int)),
            value == hex_value(s@.subrange(start as int, k as int)),
            value < pow16((k - start) as nat),
            pow16(4) == 0x10000,
        decreases hi - k,
    {
        match hex_digit(s[k]) {
            Some(d) => {
                proof {
                    let prefix = s@.subrange(start as int, k + 1);
                    assert(prefix.drop_last() =~= s@.subrange(start as int, k as int));
                    assert(prefix.last() == s@[k as int]);
                    assert(pow16((k + 1 - start) as nat) == 16 * pow16((k - start) as nat));
                    assert(k - start < 4);
                    assert(pow16((k - start) as nat) <= 0x1000) by {
                        reveal_with_fuel(pow16, 5);
                    }
                }
                value = value * 16 + d;
                k = k + 1;
            },
            None => {
                proof {
                    assert(digits[k - start] == s@[k as int]);
                    assert(hex_digit_value(digits[k - start]) is None);
                    assert(!all_hex(digits));
                }
                return None;
            },
        }
    }
    proof {
        assert(s@.subrange(start as int, k as int) =~= digits);
        assert(pow16((k - start) as nat) <= 0x10000) by {
            reveal_with_fuel(pow16, 5);
        }
    }
    Some(value as u16)
}

/// Appends the uppercase hexadecimal digit of `v` (below 16).
fn push_upper_hex_digit(out: &mut Vec<char>, v: u16)
    requires
        v < 16,
    ensures
        final(out)@ == old(out)@.push(upper_hex_digit(v as nat)),
{
    let c: char = if v < 10 {
        ((48 + v) as u8) as char
    } else {
        ((55 + v) as u8) as char
    };
    out.push(c);
}

/// Appends `\u` followed by `v` as four uppercase hexadecimal digits.
fn push_hex_escape(out: &mut Vec<char>, v: u16)
    ensures
        final(out)@ == old(out)@ + escape_text(hex4(v)),
{
    let ghost start = out@;
    out.push('\\');
    out.push('u');
    push_upper_hex_digit(out, v / 0x1000);
    push_upper_hex_digit(out, (v / 0x100) % 16);
    push_upper_hex_digit(out, (v / 0x10) % 16);
    push_upper_hex_digit(out, v % 16);
    assert(out@ =~= start + escape_text(hex4(v)));
}

/// Appends `\u` followed by `s[lo..hi]`.
fn push_escape_text(out: &mut Vec<char>, s: &Vec<char>, lo: usize, hi: usize)
    requires
        lo <= hi <= s@.len(),
    ensures
        final(out)@ == old(out)@ + escape_text(s@.subrange(lo as int, hi as int)),
{
    let ghost start = out@;
    out.push('\\');
    out.push('u');
    let mut k = lo;
    while k < hi
        invariant
            lo <= k <= hi <= s@.len(),
            out@ == start + escape_text(s@.subrange(lo as int, k as int)),
        decreases hi - k,
    {
        out.push(s[k]);
        k = k + 1;
        assert(out@ =~= start + escape_text(s@.subrange(lo as int, k as int)));
    }
}

/// Decodes what follows a high surrogate escape with value `first` at `s[start..]` (see
/// `decode_after_high`), appending the result; returns the number of characters used.
fn decode_after_high_escape(s: &Vec<char>, start: usize, first: u16, out: &mut Vec<char>) -> (used:
    usize)
    requires
        start <= s@.len(),
        is_high_surrogate(first),
    ensures
        final(out)@ == old(out)@ + decode_after_high(first, s@.skip(start as int)).0,
        used == decode_after_high(first, s@.skip(start as int)).1,
        start + used <= s@.len(),
{
    let ghost before = out@;
    let ghost rest = s@.skip(start as int);
    let n = s.len();
    if start < n && start + 1 < n && s[start] == '\\' && s[start + 1] == 'u' {
        let r2 = start + 2;
        let low_end = if n - r2 < 4 {
            n
        } else {
            r2 + 4
        };
        proof {
            assert(rest[0] == s@[start as int] && rest[1] == s@[start + 1]);
            assert(rest.skip(2) =~= s@.skip(r2 as int));
            assert(rest.skip(2).take(min_len(4, rest.skip(2).len() as int)) =~= s@.subrange(
                r2 as int,
                low_end as int,
            ));
        }
        let ghost low = s@.subrange(r2 as int, low_end as int);
        let ghost fallback = escape_text(hex4(first)) + escape_text(low);
        if n - r2 < 4 {
            push_hex_escape(out, first);
            push_escape_text(out, s, r2, low_end);
        }
        let ghost mid = out@;
        assert(mid == before + (if s@.skip(r2 as int).len() < 4 {
            fallback
        } else {
            Seq::empty()
        }));
        match parse_hex_u16(s, r2, low_end) {
            Some(second) => {
                if 0xDC00 <= second && second <= 0xDFFF {
                    let code: u32 = 0x10000 + ((first - 0xD800) as u32) * 0x400 + ((second
                        - 0xDC00) as u32);
                    assert(code == surrogate_pair_code_point(first, second));
                    match char_from_u32(code) {
                        Some(c) => out.push(c),
                        None => {},
                    }
                } else {
                    push_hex_escape(out, first);
                    push_escape_text(out, s, r2, low_end);
                }
            },
            None => {
                push_hex_escape(out, first);
                push_escape_text(out, s, r2, low_end);
            },
        }
        assert(out@ =~= before + decode_after_high(first, rest).0);
        2 + (low_end - r2)
    } else if start < n && s[start] == '\\' {
        assert(rest[0] == s@[start as int]);
        if start + 1 < n {
            assert(rest[1] == s@[start + 1]);
        }
        push_hex_escape(out, first);
        if n - start < 2 {
            n - start
        } else {
            2
        }
    } else {
        if start < n {
            assert(rest[0] == s@[start as int]);
        }
        push_hex_escape(out, first);
        if n - start < 1 {
            0
        } else {
            1
        }
    }
}

/// Decodes the escape `\u...` at `s[i..]` (see `escape_step`), appending the result; returns
/// the index after the characters used.
fn decode_escape_at(s: &Vec<char>, i: usize, out: &mut Vec<char>) -> (next: usize)
    requires
        i + 1 < s@.len(),
        s@[i as int] == '\\',
        s@[i + 1] == 'u',
    ensures
        final(out)@ == old(out)@ + escape_step(s@.skip(i as int)).0,
        next == i + escape_step(s@.skip(i as int)).1,
        i < next <= s@.len(),
{
    reveal(escape_step);
    let ghost t = s@.skip(i as int);
    let ghost prev = out@;
    let n = s.len();
    let r = i + 2;
    let unit_end = if n - r < 4 {
        n
    } else {
        r + 4
    };
    proof {
        assert(t.skip(2) =~= s@.skip(r as int));
        assert(t.skip(2).take(min_len(4, t.skip(2).len() as int)) =~= s@.subrange(
            r as int,
            unit_end as int,
        ));
        assert(s@.skip(r as int).skip(unit_end - r) =~= s@.skip(unit_end as int));
    }
    let ghost unit = s@.subrange(r as int, unit_end as int);
    let ghost incomplete = if t.skip(2).len() < 4 {
        escape_text(unit)
    } else {
        Seq::empty()
    };
    if n - r < 4 {
        push_escape_text(out, s, r, unit_end);
    }
    assert(out@ == prev + incomplete);
    match parse_hex_u16(s, r, unit_end) {
        None => {
            push_escape_text(out, s, r, unit_end);
            assert(out@ =~= prev + escape_step(t).0);
            unit_end
        },
        Some(first) => {
            if 0xD800 <= first && first <= 0xDBFF {
                let used = decode_after_high_escape(s, unit_end, first, out);
                assert(out@ =~= prev + escape_step(t).0);
                unit_end + used
            } else if 0xDC00 <= first && first <= 0xDFFF {
                push_hex_escape(out, first);
                assert(out@ =~= prev + escape_step(t).0);
                unit_end
            } else {
                match char_from_u32(first as u32) {
                    Some(c) => out.push(c),
                    None => {},
                }
                assert(out@ =~= prev + escape_step(t).0);
                unit_end
            }
        },
    }
}

/// The characters of `s` with their JSON unicode escapes decoded.
fn decode_chars(s: &Vec<char>) -> (out: Vec<char>)
    ensures
        out@ == decode_unicode_escapes(s@),
{
    let mut out: Vec<char> = Vec::new();
    let n = s.len();
    let mut i: usize = 0;
    assert(s@.skip(0) =~= s@);
    while i < n
        invariant
            i <= n == s@.len(),
            out@ + decode_unicode_escapes(s@.skip(i as int)) == decode_unicode_escapes(s@),
        decreases n - i,
    {
        if i + 1 < n && s[i] == '\\' && s[i + 1] == 'u' {
            let ghost t = s@.skip(i as int);
            let ghost prev = out@;
            let next = decode_escape_at(s, i, &mut out);
            proof {
                lemma_escape_step_length(t);
                assert(t[0] == s@[i as int] && t[1] == s@[i + 1]);
                assert(t.skip(next - i) =~= s@.skip(next as int));
            }
            i = next;
            assert(out@ + decode_unicode_escapes(s@.skip(i as int)) =~= prev
                + decode_unicode_escapes(t));
        } else {
            let ghost t = s@.skip(i as int);
            let ghost prev = out@;
            proof {
                assert(t[0] == s@[i as int]);
                if i + 1 < n {
                    assert(t[1] == s@[i + 1]);
                }
                assert(t.skip(1) =~= s@.skip(i + 1));
            }
            out.push(s[i]);
            i = i + 1;
            assert(out@ + decode_unicode_escapes(s@.skip(i as int)) =~= prev
                + decode_unicode_escapes(t));
        }
    }
    assert(s@.skip(n as int) =~= Seq::<char>::empty());
    out
}

/// Decodes the JSON unicode escapes of `input` (see `decode_unicode_escapes`).
pub fn decode_json_unicode_escapes(input: &str) -> (res: String)
    ensures
        res@ == decode_unicode_escapes(input@),
{
    let chars = chars_of(input);
    let out = decode_chars(&chars);
    let res = string_from_chars(&out, 0, out.len());
    assert(out@.subrange(0, out@.len() as int) =~= out@);
    res
}

/// The text of a text literal, e.g. `"Hello, world!"` or `'x\"'`: the quotes at both ends are
/// removed, the escape sequences `\"`, `\'`, `\n`, `\r`, `\t`, `\b`, `\f` and `\\` are
/// replaced in this order, then the JSON unicode escapes are decoded.
pub fn unescape_text(text: &str) -> (res: String)
    requires
        text@.len() >= 2,
        (text@[0] as u32) < 0x80,
        (text@.last() as u32) < 0x80,
    ensures
        res@ == decode_unicode_escapes(unescape_sequences(text@.subrange(1, text@.len() - 1))),
{
    let chars = chars_of(text);
    let n = chars.len();
    let mut inner: Vec<char> = Vec::new();
    let mut k: usize = 1;
    while k < n - 1
        invariant
            1 <= k <= n - 1,
            n == chars@.len() == text@.len(),
            chars@ == text@,
            inner@ == chars@.subrange(1, k as int),
        decreases n - 1 - k,
    {
        inner.push(chars[k]);
        k = k + 1;
        assert(inner@ =~= chars@.subrange(1, k as int));
    }
    let s1 = replace_pair(&inner, '\\', '"', '"');
    let s2 = replace_pair(&s1, '\\', '\'', '\'');
    let s3 = replace_pair(&s2, '\\', 'n', '\n');
    let s4 = replace_pair(&s3, '\\', 'r', '\r');
    let s5 = replace_pair(&s4, '\\', 't', '\t');
    let s6 = replace_pair(&s5, '\\', 'b', '\x08');
    let s7 = replace_pair(&s6, '\\', 'f', '\x0C');
    let s8 = replace_pair(&s7, '\\', '\\', '\\');
    let out = decode_chars(&s8);
    let res = string_from_chars(&out, 0, out.len());
    assert(out@.subrange(0, out@.len() as int) =~= out@);
    res
}

} // verus!
