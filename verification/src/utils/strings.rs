//! Building strings from characters.
use vstd::prelude::*;

verus! {

/// Calls `String::push`: appends `c` to `s`.
#[verifier::external_body]
fn string_push(s: &mut String, c: char)
    ensures
        final(s)@ == old(s)@.push(c),
{
    s.push(c);
}

/// The string made of `chars[lo..hi]`.
pub fn string_from_chars(chars: &Vec<char>, lo: usize, hi: usize) -> (res: String)
    requires
        lo <= hi <= chars.len(),
    ensures
        res@ == chars@.subrange(lo as int, hi as int),
{
    let mut res = String::new();
    let mut i = lo;
    while i < hi
        invariant
            lo <= i <= hi <= chars.len(),
            res@ == chars@.subrange(lo as int, i as int),
        decreases hi - i,
    {
        string_push(&mut res, chars[i]);
        i = i + 1;
        assert(res@ =~= chars@.subrange(lo as int, i as int));
    }
    res
}

/// The characters of `s`.
pub fn chars_of(s: &str) -> (res: Vec<char>)
    ensures
        res@ == s@,
{
    let mut res: Vec<char> = Vec::new();
    for c in it: s.chars()
        invariant
            res@ == it.seq().take(it.index()),
    {
        res.push(c);
        assert(res@ =~= it.seq().take(it.index() + 1));
    }
    res
}

/// Appends the characters of `t` to `s`.
pub fn push_str(s: &mut String, t: &str)
    ensures
        final(s)@ == old(s)@ + t@,
{
    let chars = chars_of(t);
    let ghost start = s@;
    let mut i: usize = 0;
    while i < chars.len()
        invariant
            i <= chars@.len(),
            chars@ == t@,
            s@ == start + chars@.subrange(0, i as int),
        decreases chars@.len() - i,
    {
        string_push(s, chars[i]);
        i = i + 1;
        assert(s@ =~= start + chars@.subrange(0, i as int));
    }
    assert(chars@.subrange(0, i as int) =~= t@);
}

/// The concatenation of `parts`.
pub fn concat(a: &str, b: &str) -> (res: String)
    ensures
        res@ == a@ + b@,
{
    let mut res = String::new();
    push_str(&mut res, a);
    push_str(&mut res, b);
    assert(res@ =~= a@ + b@);
    res
}

/// The decimal digits of `n`, most significant first.
pub open spec fn decimal_digits(n: nat) -> Seq<char>
    decreases n,
{
    if n < 10 {
        seq![('0' as nat + n) as char]
    } else {
        decimal_digits(n / 10) + seq![('0' as nat + n % 10) as char]
    }
}

/// Appends `n` written in decimal.
pub fn push_decimal(s: &mut String, n: usize)
    ensures
        final(s)@ == old(s)@ + decimal_digits(n as nat),
    decreases n,
{
    if n >= 10 {
        push_decimal(s, n / 10);
    }
    let d = (n % 10) as u8;
    string_push(s, (48 + d) as char);
    assert(s@ =~= old(s)@ + decimal_digits(n as nat)) by {
        if n >= 10 {
            assert(decimal_digits(n as nat) == decimal_digits((n / 10) as nat) + seq![
                ('0' as nat + n % 10) as char,
            ]);
        }
    }
}

} // verus!
