//! Longest-match scanners for quoted texts and block comments.
use vstd::prelude::*;
use super::chars::is_lower_or_digit;
use super::rules::{is_block_comment, is_longest, quoted_content, rule_matches, string_split,
    window, Rule};
use super::scan::{in_class, lemma_window_shift, run_end, CharClass};

verus! {

/// Two parses of quoted content from `lo` agree on their step boundaries.
proof fn lemma_quoted_continue(t: Seq<char>, lo: int, i: int, h: int, q: char)
    requires
        quoted_content(t, lo, i, q),
        quoted_content(t, lo, h, q),
        lo <= i <= h,
        0 <= lo,
        h <= t.len(),
    ensures
        quoted_content(t, i, h, q),
    decreases i - lo,
{
    if lo < i {
        if t[lo] == '\\' {
            lemma_quoted_continue(t, lo + 2, i, h, q);
        } else {
            lemma_quoted_continue(t, lo + 1, i, h, q);
        }
    }
}

/// Quoted content can be extended by one more step at its end.
proof fn lemma_quoted_extend(t: Seq<char>, lo: int, i: int, q: char, step: int)
    requires
        quoted_content(t, lo, i, q),
        0 <= lo <= i,
        i + step <= t.len(),
        step == 1 ==> t[i] != '\\' && t[i] != q,
        step == 2 ==> t[i] == '\\' && t[i + 1] != '\n',
        step == 1 || step == 2,
    ensures
        quoted_content(t, lo, i + step, q),
    decreases i - lo,
{
    if lo < i {
        if t[lo] == '\\' {
            lemma_quoted_extend(t, lo + 2, i, q, step);
        } else {
            lemma_quoted_extend(t, lo + 1, i, q, step);
        }
    } else {
        if step == 2 {
            assert(quoted_content(t, i + 2, i + 2, q));
        } else {
            assert(quoted_content(t, i + 1, i + 1, q));
        }
    }
}

/// Quoted content carries over between a window and the source.
proof fn lemma_quoted_window(s: Seq<char>, pos: int, m: int, lo: int, hi: int, q: char)
    requires
        0 <= pos,
        0 <= lo,
        hi <= m,
        pos + m <= s.len(),
    ensures
        quoted_content(window(s, pos, m), lo, hi, q) == quoted_content(s, pos + lo, pos + hi, q),
    decreases hi - lo,
{
    if lo < hi {
        lemma_window_shift(s, pos, m, lo);
        if lo + 1 < m {
            lemma_window_shift(s, pos, m, lo + 1);
        }
        lemma_quoted_window(s, pos, m, lo + 1, hi, q);
        if lo + 2 <= hi {
            lemma_quoted_window(s, pos, m, lo + 2, hi, q);
        }
    }
}

/// A prefix of lower-case letters and digits, then a text in double or single quotes.
pub fn scan_string_literal(s: &Vec<char>, pos: usize) -> (n: usize)
    requires
        pos <= s.len(),
    ensures
        is_longest(Rule::StringLiteral, s@, pos as int, n as int),
{
    let p = run_end(s, pos, CharClass::LowerOrDigit);
    let mut n: usize = 0;
    if p < s.len() && (s[p] == '"' || s[p] == '\'') {
        let q = s[p];
        let mut i = p + 1;
        let mut closed = false;
        while i < s.len()
            invariant_except_break
                !closed,
            invariant
                p + 1 <= i <= s.len(),
                p < s.len(),
                q == s@[p as int],
                quoted_content(s@, p + 1, i as int, q),
                forall|h: int| p + 1 <= h < i && quoted_content(s@, p + 1, h, q) ==> #[trigger] s@[h]
                    != q,
            ensures
                closed ==> i < s.len() && s@[i as int] == q && quoted_content(s@, p + 1, i as int, q),
                !closed ==> forall|h: int| p + 1 <= h < s.len() && quoted_content(s@, p + 1, h, q)
                    ==> #[trigger] s@[h] != q,
            decreases s.len() - i,
        {
            let c = s[i];
            if c == q {
                closed = true;
                break;
            } else if c == '\\' {
                if i + 1 < s.len() && s[i + 1] != '\n' {
                    proof {
                        lemma_quoted_extend(s@, p + 1, i as int, q, 2);
                        assert forall|h: int| p + 1 <= h < i + 2 && quoted_content(s@, p + 1, h, q)
                            implies #[trigger] s@[h] != q by {
                            if h == i + 1 {
                                lemma_quoted_continue(s@, p + 1, i as int, h, q);
                            }
                        }
                    }
                    i = i + 2;
                } else {
                    proof {
                        assert forall|h: int| p + 1 <= h < s.len() && quoted_content(s@, p + 1, h, q)
                            implies #[trigger] s@[h] != q by {
                            if h >= i {
                                lemma_quoted_continue(s@, p + 1, i as int, h, q);
                            }
                        }
                    }
                    break;
                }
            } else {
                proof {
                    lemma_quoted_extend(s@, p + 1, i as int, q, 1);
                }
                i = i + 1;
            }
        }
        if closed {
            n = i + 1 - pos;
            proof {
                let w = window(s@, pos as int, n as int);
                assert forall|k: int| 0 <= k < n implies w[k] == s@[pos + k] by {
                    lemma_window_shift(s@, pos as int, n as int, k);
                }
                lemma_quoted_window(s@, pos as int, n as int, p - pos + 1, n - 1, q);
                assert forall|k: int| 0 <= k < p - pos implies is_lower_or_digit(w[k]) by {
                    assert(in_class(CharClass::LowerOrDigit, s@[pos + k]));
                }
                assert(string_split(w, p - pos));
            }
        }
        proof {
            assert forall|m: int| n < m <= s.len() - pos implies !#[trigger] rule_matches(
                Rule::StringLiteral,
                window(s@, pos as int, m),
            ) by {
                let w = window(s@, pos as int, m);
                assert forall|k: int| 0 <= k < m implies w[k] == s@[pos + k] by {
                    lemma_window_shift(s@, pos as int, m, k);
                }
                if exists|p2: int| #[trigger] string_split(w, p2) {
                    let p2 = choose|p2: int| #[trigger] string_split(w, p2);
                    let pr = p - pos;
                    if p2 < pr {
                        assert(in_class(CharClass::LowerOrDigit, s@[pos + p2]));
                    } else if p2 > pr {
                        assert(is_lower_or_digit(w[pr]));
                    } else {
                        lemma_quoted_window(s@, pos as int, m, pr + 1, m - 1, q);
                        let h = pos + m - 1;
                        assert(s@[h] == q);
                        assert(quoted_content(s@, p + 1, h, q));
                        if closed {
                            lemma_quoted_continue(s@, p + 1, i as int, h, q);
                        }
                    }
                }
            }
        }
    } else {
        proof {
            assert forall|m: int| 0 < m <= s.len() - pos implies !#[trigger] rule_matches(
                Rule::StringLiteral,
                window(s@, pos as int, m),
            ) by {
                let w = window(s@, pos as int, m);
                assert forall|k: int| 0 <= k < m implies w[k] == s@[pos + k] by {
                    lemma_window_shift(s@, pos as int, m, k);
                }
                if exists|p2: int| #[trigger] string_split(w, p2) {
                    let p2 = choose|p2: int| #[trigger] string_split(w, p2);
                    let pr = p - pos;
                    if p2 < pr {
                        assert(in_class(CharClass::LowerOrDigit, s@[pos + p2]));
                    } else if p2 > pr {
                        assert(is_lower_or_digit(w[pr]));
                    }
                }
            }
        }
    }
    n
}

/// `/*`, then text without `*/`, then `*/`.
pub fn scan_block_comment(s: &Vec<char>, pos: usize) -> (n: usize)
    requires
        pos <= s.len(),
    ensures
        is_longest(Rule::BlockComment, s@, pos as int, n as int),
{
    let mut n: usize = 0;
    if s.len() - pos >= 2 && s[pos] == '/' && s[pos + 1] == '*' {
        let mut k = pos + 2;
        while k < s.len() - 1
            invariant_except_break
                n == 0,
            invariant
                pos + 2 <= k <= s.len(),
                s.len() - pos >= 2,
                forall|j: int| pos + 2 <= j < k ==> !(s@[j] == '*' && #[trigger] s@[j + 1] == '/'),
            ensures
                n > 0 ==> n == k + 2 - pos && k + 1 < s.len() && s@[k as int] == '*' && s@[k + 1]
                    == '/',
                n == 0 ==> forall|j: int| pos + 2 <= j < s.len() - 1 ==> !(s@[j] == '*'
                    && #[trigger] s@[j + 1] == '/'),
            decreases s.len() - k,
        {
            if s[k] == '*' && s[k + 1] == '/' {
                n = k + 2 - pos;
                break;
            }
            k = k + 1;
        }
        proof {
            if n > 0 {
                let w = window(s@, pos as int, n as int);
                assert forall|j: int| 0 <= j < n implies w[j] == s@[pos + j] by {
                    lemma_window_shift(s@, pos as int, n as int, j);
                }
                assert forall|j: int| 2 <= j < w.len() - 2 implies !(w[j] == '*' && #[trigger] w[j
                    + 1] == '/') by {
                    lemma_window_shift(s@, pos as int, n as int, j);
                    lemma_window_shift(s@, pos as int, n as int, j + 1);
                    assert(!(s@[pos + j] == '*' && s@[pos + j + 1] == '/'));
                }
                assert(is_block_comment(w));
            }
        }
    }
    proof {
        assert forall|m: int| n < m <= s.len() - pos implies !#[trigger] rule_matches(
            Rule::BlockComment,
            window(s@, pos as int, m),
        ) by {
            let w = window(s@, pos as int, m);
            assert forall|j: int| 0 <= j < m implies w[j] == s@[pos + j] by {
                lemma_window_shift(s@, pos as int, m, j);
            }
            if is_block_comment(w) {
                if n > 0 {
                    let j = n - 2;
                    assert(s@[pos + j] == '*' && s@[pos + j + 1] == '/');
                    assert(w[j] == s@[pos + j]);
                    assert(w[j + 1] == s@[pos + j + 1]);
                    assert(!(w[j] == '*' && w[j + 1] == '/'));
                } else {
                    let j = m - 2;
                    assert(w[j + 1] == s@[pos + j + 1]);
                    assert(!(s@[pos + j] == '*' && s@[pos + j + 1] == '/'));
                }
            }
        }
    }
    n
}

} // verus!
