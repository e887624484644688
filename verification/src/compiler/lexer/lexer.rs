//! The lexer: splits DATEX script into tokens, longest match first.
use vstd::prelude::*;
use super::rules::{fixed_token, is_best, is_skipped, no_rule_matches, window, Rule};
use super::scan::fixed_token_at;
use super::select::select_rule;
use super::token::{Token, TypedLiteral};
use crate::utils::strings::{chars_of, string_from_chars};
use crate::values::typed_variants::{
    decimal_suffix, decimal_variants, integer_suffix, integer_variants, DecimalTypeVariant,
    IntegerTypeVariant,
};

verus! {

/// Identifies a source text.
pub type SourceId = usize;

/// A location in a source text: the source and a range of positions in it.
#[derive(Debug, PartialEq, Hash)]
pub struct Loc {
    pub source: SourceId,
    pub span: core::ops::Range<usize>,
}

impl Loc {
    pub fn new(source: SourceId, span: core::ops::Range<usize>) -> (res: Self)
        ensures
            res.source == source,
            res.span == span,
    {
        Self { source, span }
    }
}

/// `x` is a suffix of `t`.
pub open spec fn ends_with(t: Seq<char>, x: Seq<char>) -> bool {
    x.len() <= t.len() && t.subrange(t.len() - x.len(), t.len() as int) == x
}

/// The first of `vs` whose suffix ends `t`.
pub open spec fn first_int_suffix(t: Seq<char>, vs: Seq<IntegerTypeVariant>) -> Option<
    IntegerTypeVariant,
>
    decreases vs.len(),
{
    if vs.len() == 0 {
        None
    } else if ends_with(t, integer_suffix(vs[0])) {
        Some(vs[0])
    } else {
        first_int_suffix(t, vs.drop_first())
    }
}

/// The first of `vs` whose suffix ends `t`.
pub open spec fn first_dec_suffix(t: Seq<char>, vs: Seq<DecimalTypeVariant>) -> Option<
    DecimalTypeVariant,
>
    decreases vs.len(),
{
    if vs.len() == 0 {
        None
    } else if ends_with(t, decimal_suffix(vs[0])) {
        Some(vs[0])
    } else {
        first_dec_suffix(t, vs.drop_first())
    }
}

/// The literal text `t` split into number part and type suffix: the suffix is the first
/// integer type variant (in declaration order) whose suffix ends `t`.
pub open spec fn integer_literal_of(lit: TypedLiteral<IntegerTypeVariant>, t: Seq<char>) -> bool {
    let v = first_int_suffix(t, integer_variants());
    &&& lit.variant == v
    &&& lit.value@ == match v {
        Some(v) => t.subrange(0, t.len() - integer_suffix(v).len()),
        None => t,
    }
}

/// The literal text `t` split into number part and type suffix.
pub open spec fn decimal_literal_of(lit: TypedLiteral<DecimalTypeVariant>, t: Seq<char>) -> bool {
    let v = first_dec_suffix(t, decimal_variants());
    &&& lit.variant == v
    &&& lit.value@ == match v {
        Some(v) => t.subrange(0, t.len() - decimal_suffix(v).len()),
        None => t,
    }
}

/// `tok` is the token that rule `r` produces for the matched text `t`.
pub open spec fn token_of(tok: Token, r: Rule, t: Seq<char>) -> bool {
    match r {
        Rule::Fixed => fixed_token(t) == Some(tok),
        Rule::LineDoc => tok matches Token::LineDoc(x) && x@ == t.skip(3),
        Rule::ListStart => tok == Token::ListStart,
        Rule::MapStart => tok == Token::MapStart,
        Rule::Infinity => tok matches Token::Infinity(x) && x@ == t,
        Rule::Nan => tok == Token::Nan,
        Rule::Decimal => tok matches Token::DecimalLiteral(l) && decimal_literal_of(l, t),
        Rule::DecimalInteger => tok matches Token::DecimalIntegerLiteral(l) && integer_literal_of(l, t),
        Rule::BinaryInteger => tok matches Token::BinaryIntegerLiteral(l) && integer_literal_of(l, t),
        Rule::OctalInteger => tok matches Token::OctalIntegerLiteral(l) && integer_literal_of(l, t),
        Rule::HexadecimalInteger => tok matches Token::HexadecimalIntegerLiteral(l)
            && integer_literal_of(l, t),
        Rule::Fraction => tok matches Token::FractionLiteral(x) && x@ == t,
        Rule::StringLiteral => tok matches Token::StringLiteral(x) && x@ == t,
        Rule::Endpoint => tok matches Token::Endpoint(x) && x@ == t,
        Rule::Slot => tok matches Token::Slot(x) && x@ == t,
        Rule::NamedSlot => tok matches Token::NamedSlot(x) && x@ == t,
        Rule::Whitespace => tok == Token::Whitespace,
        Rule::Identifier => tok matches Token::Identifier(x) && x@ == t,
        Rule::LineComment | Rule::BlockComment => false,
    }
}

/// Whether `chars[lo..hi]` ends with the suffix of `v`.
fn ends_with_int_suffix(chars: &Vec<char>, lo: usize, hi: usize, v: IntegerTypeVariant) -> (res: bool)
    requires
        lo <= hi <= chars.len(),
    ensures
        res == ends_with(chars@.subrange(lo as int, hi as int), integer_suffix(v)),
{
    let sfx: [char; 4] = match v {
        IntegerTypeVariant::U8 => ['u', '8', ' ', ' '],
        IntegerTypeVariant::U16 => ['u', '1', '6', ' '],
        IntegerTypeVariant::U32 => ['u', '3', '2', ' '],
        IntegerTypeVariant::U64 => ['u', '6', '4', ' '],
        IntegerTypeVariant::U128 => ['u', '1', '2', '8'],
        IntegerTypeVariant::I8 => ['i', '8', ' ', ' '],
        IntegerTypeVariant::I16 => ['i', '1', '6', ' '],
        IntegerTypeVariant::I32 => ['i', '3', '2', ' '],
        IntegerTypeVariant::I64 => ['i', '6', '4', ' '],
        IntegerTypeVariant::I128 => ['i', '1', '2', '8'],
        IntegerTypeVariant::Big => ['b', 'i', 'g', ' '],
    };
    let k: usize = match v {
        IntegerTypeVariant::U8 | IntegerTypeVariant::I8 => 2,
        IntegerTypeVariant::U128 | IntegerTypeVariant::I128 => 4,
        _ => 3,
    };
    assert(integer_suffix(v).len() == k);
    assert(forall|j: int| 0 <= j < k ==> integer_suffix(v)[j] == sfx@[j]);
    ends_with_chars(chars, lo, hi, &sfx, k, Ghost(integer_suffix(v)))
}

/// Whether `chars[lo..hi]` ends with the suffix of `v`.
fn ends_with_dec_suffix(chars: &Vec<char>, lo: usize, hi: usize, v: DecimalTypeVariant) -> (res: bool)
    requires
        lo <= hi <= chars.len(),
    ensures
        res == ends_with(chars@.subrange(lo as int, hi as int), decimal_suffix(v)),
{
    let sfx: [char; 4] = match v {
        DecimalTypeVariant::F32 => ['f', '3', '2', ' '],
        DecimalTypeVariant::F64 => ['f', '6', '4', ' '],
        DecimalTypeVariant::Big => ['b', 'i', 'g', ' '],
    };
    assert(decimal_suffix(v).len() == 3);
    assert(forall|j: int| 0 <= j < 3 ==> decimal_suffix(v)[j] == sfx@[j]);
    ends_with_chars(chars, lo, hi, &sfx, 3, Ghost(decimal_suffix(v)))
}

/// Whether `chars[lo..hi]` ends with the first `k` characters of `sfx`, which spell `x`.
fn ends_with_chars(chars: &Vec<char>, lo: usize, hi: usize, sfx: &[char; 4], k: usize, x: Ghost<Seq<char>>) -> (res: bool)
    requires
        lo <= hi <= chars.len(),
        k <= 4,
        x@.len() == k,
        forall|j: int| 0 <= j < k ==> x@[j] == sfx@[j],
    ensures
        res == ends_with(chars@.subrange(lo as int, hi as int), x@),
{
    let ghost t = chars@.subrange(lo as int, hi as int);
    if hi - lo < k {
        return false;
    }
    let start = hi - k;
    let mut j: usize = 0;
    while j < k
        invariant
            j <= k <= 4,
            start == hi - k,
            lo <= start,
            hi <= chars.len(),
            forall|i: int| 0 <= i < j ==> chars@[start + i] == x@[i],
            t == chars@.subrange(lo as int, hi as int),
            x@.len() == k,
            forall|i: int| 0 <= i < k ==> x@[i] == sfx@[i],
        decreases k - j,
    {
        if chars[start + j] != sfx[j] {
            assert(t.subrange(t.len() - k, t.len() as int)[j as int] == chars@[start + j]);
            return false;
        }
        j = j + 1;
    }
    assert forall|i: int| 0 <= i < k implies t.subrange(t.len() - k, t.len() as int)[i] == x@[i] by {
        assert(t.subrange(t.len() - k, t.len() as int)[i] == chars@[start + i]);
    }
    assert(t.subrange(t.len() - k, t.len() as int) =~= x@);
    true
}

/// The typed integer literal for `chars[lo..hi]`.
fn integer_literal(chars: &Vec<char>, lo: usize, hi: usize) -> (lit: TypedLiteral<IntegerTypeVariant>)
    requires
        lo <= hi <= chars.len(),
    ensures
        integer_literal_of(lit, chars@.subrange(lo as int, hi as int)),
{
    let variants = [
        IntegerTypeVariant::U8,
        IntegerTypeVariant::U16,
        IntegerTypeVariant::U32,
        IntegerTypeVariant::U64,
        IntegerTypeVariant::U128,
        IntegerTypeVariant::I8,
        IntegerTypeVariant::I16,
        IntegerTypeVariant::I32,
        IntegerTypeVariant::I64,
        IntegerTypeVariant::I128,
        IntegerTypeVariant::Big,
    ];
    let ghost t = chars@.subrange(lo as int, hi as int);
    assert(variants@ == integer_variants());
    assert(integer_variants().skip(0) =~= integer_variants());
    let mut i: usize = 0;
    while i < 11
        invariant
            i <= 11,
            variants@ == integer_variants(),
            lo <= hi <= chars.len(),
            t == chars@.subrange(lo as int, hi as int),
            first_int_suffix(t, integer_variants()) == first_int_suffix(t, integer_variants().skip(i as int)),
        decreases 11 - i,
    {
        let v = variants[i];
        assert(integer_variants().skip(i as int)[0] == v);
        assert(integer_variants().skip(i as int).drop_first() =~= integer_variants().skip(i + 1));
        if ends_with_int_suffix(chars, lo, hi, v) {
            let k: usize = match v {
                IntegerTypeVariant::U8 | IntegerTypeVariant::I8 => 2,
                IntegerTypeVariant::U128 | IntegerTypeVariant::I128 => 4,
                _ => 3,
            };
            assert(integer_suffix(v).len() == k);
            let value = string_from_chars(chars, lo, hi - k);
            assert(value@ =~= t.subrange(0, t.len() - k));
            return TypedLiteral { value, variant: Some(v) };
        }
        i = i + 1;
    }
    assert(integer_variants().skip(11) =~= Seq::<IntegerTypeVariant>::empty());
    let value = string_from_chars(chars, lo, hi);
    TypedLiteral { value, variant: None }
}

/// The typed decimal literal for `chars[lo..hi]`.
fn decimal_literal(chars: &Vec<char>, lo: usize, hi: usize) -> (lit: TypedLiteral<DecimalTypeVariant>)
    requires
        lo <= hi <= chars.len(),
    ensures
        decimal_literal_of(lit, chars@.subrange(lo as int, hi as int)),
{
    let variants = [DecimalTypeVariant::F32, DecimalTypeVariant::F64, DecimalTypeVariant::Big];
    let ghost t = chars@.subrange(lo as int, hi as int);
    assert(variants@ == decimal_variants());
    assert(decimal_variants().skip(0) =~= decimal_variants());
    let mut i: usize = 0;
    while i < 3
        invariant
            i <= 3,
            variants@ == decimal_variants(),
            lo <= hi <= chars.len(),
            t == chars@.subrange(lo as int, hi as int),
            first_dec_suffix(t, decimal_variants()) == first_dec_suffix(t, decimal_variants().skip(i as int)),
        decreases 3 - i,
    {
        let v = variants[i];
        assert(decimal_variants().skip(i as int)[0] == v);
        assert(decimal_variants().skip(i as int).drop_first() =~= decimal_variants().skip(i + 1));
        if ends_with_dec_suffix(chars, lo, hi, v) {
            let value = string_from_chars(chars, lo, hi - 3);
            assert(value@ =~= t.subrange(0, t.len() - 3));
            return TypedLiteral { value, variant: Some(v) };
        }
        i = i + 1;
    }
    assert(decimal_variants().skip(3) =~= Seq::<DecimalTypeVariant>::empty());
    let value = string_from_chars(chars, lo, hi);
    TypedLiteral { value, variant: None }
}

/// The token that rule `r` produces for the `n` characters at `pos`.
fn make_token(chars: &Vec<char>, pos: usize, r: Rule, n: usize) -> (tok: Token)
    requires
        pos <= chars.len(),
        n <= chars.len() - pos,
        !is_skipped(r),
        r == Rule::Fixed ==> fixed_token(window(chars@, pos as int, n as int)) is Some,
        r == Rule::LineDoc ==> n >= 3,
    ensures
        token_of(tok, r, window(chars@, pos as int, n as int)),
{
    let end = pos + n;
    let ghost t = window(chars@, pos as int, n as int);
    match r {
        Rule::Fixed => {
            let tok = fixed_token_at(chars, pos, n);
            match tok {
                Some(tok) => tok,
                None => Token::Error,
            }
        },
        Rule::LineDoc => {
            let x = string_from_chars(chars, pos + 3, end);
            assert(x@ =~= t.skip(3));
            Token::LineDoc(x)
        },
        Rule::ListStart => Token::ListStart,
        Rule::MapStart => Token::MapStart,
        Rule::Infinity => Token::Infinity(string_from_chars(chars, pos, end)),
        Rule::Nan => Token::Nan,
        Rule::Decimal => Token::DecimalLiteral(decimal_literal(chars, pos, end)),
        Rule::DecimalInteger => Token::DecimalIntegerLiteral(integer_literal(chars, pos, end)),
        Rule::BinaryInteger => Token::BinaryIntegerLiteral(integer_literal(chars, pos, end)),
        Rule::OctalInteger => Token::OctalIntegerLiteral(integer_literal(chars, pos, end)),
        Rule::HexadecimalInteger => Token::HexadecimalIntegerLiteral(integer_literal(chars, pos, end)),
        Rule::Fraction => Token::FractionLiteral(string_from_chars(chars, pos, end)),
        Rule::StringLiteral => Token::StringLiteral(string_from_chars(chars, pos, end)),
        Rule::Endpoint => Token::Endpoint(string_from_chars(chars, pos, end)),
        Rule::Slot => Token::Slot(string_from_chars(chars, pos, end)),
        Rule::NamedSlot => Token::NamedSlot(string_from_chars(chars, pos, end)),
        Rule::Whitespace => Token::Whitespace,
        Rule::Identifier => Token::Identifier(string_from_chars(chars, pos, end)),
        Rule::LineComment | Rule::BlockComment => Token::Error,
    }
}

/// From `p` the lexer reaches `q` by skipping comments: every step is a winning match of a
/// skipped rule.
pub open spec fn skips_to(s: Seq<char>, p: int, q: int) -> bool
    decreases q - p,
{
    if p == q {
        true
    } else if p < q {
        exists|r: Rule, n: int| 0 < n <= q - p && #[trigger] is_best(s, p, r, n) && is_skipped(r)
            && skips_to(s, p + n, q)
    } else {
        false
    }
}

proof fn lemma_skips_extend(s: Seq<char>, p: int, q: int, r: Rule, n: int)
    requires
        skips_to(s, p, q),
        is_best(s, q, r, n),
        is_skipped(r),
        p <= q,
    ensures
        skips_to(s, p, q + n),
    decreases q - p,
{
    if p == q {
        assert(skips_to(s, q + n, q + n));
        assert(is_best(s, p, r, n));
    } else {
        let (r0, n0) = choose|r0: Rule, n0: int| 0 < n0 <= q - p && #[trigger] is_best(s, p, r0, n0)
            && is_skipped(r0) && skips_to(s, p + n0, q);
        lemma_skips_extend(s, p + n0, q, r, n);
        assert(is_best(s, p, r0, n0));
    }
}

/// A lexer over DATEX script text. It yields tokens one at a time: at each position the
/// rule with the longest match wins, and between equally long matches the rule with the
/// higher priority; comments are skipped.
pub struct Lexer {
    chars: Vec<char>,
    pos: usize,
    token_start: usize,
}

impl Lexer {
    /// The characters of the source text.
    pub closed spec fn source(&self) -> Seq<char> {
        self.chars@
    }

    /// The position (in characters) from which the next token is read.
    pub closed spec fn position(&self) -> int {
        self.pos as int
    }

    /// Where the last token started.
    pub closed spec fn start(&self) -> int {
        self.token_start as int
    }

    pub closed spec fn wf(&self) -> bool {
        self.token_start <= self.pos <= self.chars.len()
    }

    /// A well-formed lexer is within its source.
    pub proof fn lemma_within_source(&self)
        requires
            self.wf(),
        ensures
            0 <= self.start() <= self.position() <= self.source().len(),
    {
    }

    /// A lexer at the start of `source`.
    pub fn new(source: &str) -> (lexer: Lexer)
        ensures
            lexer.wf(),
            lexer.source() == source@,
            lexer.position() == 0,
    {
        Lexer { chars: chars_of(source), pos: 0, token_start: 0 }
    }

    /// The character range of the last token returned.
    pub fn span(&self) -> (res: core::ops::Range<usize>)
        requires
            self.wf(),
        ensures
            res.start == self.start(),
            res.end == self.position(),
    {
        self.token_start..self.pos
    }

    /// The next token. After skipping comments, the winning rule at the current position
    /// gives the token and the lexer moves past its match. Where no rule matches, an error
    /// is returned and the lexer moves on by one character. At the end of the text, `None`.
    pub fn next(&mut self) -> (res: Option<Result<Token, core::ops::Range<usize>>>)
        requires
            old(self).wf(),
        ensures
            final(self).wf(),
            final(self).source() == old(self).source(),
            skips_to(old(self).source(), old(self).position(), final(self).start()),
            match res {
                None => final(self).start() == final(self).position() == old(self).source().len(),
                Some(Ok(tok)) => exists|r: Rule| #[trigger] is_best(
                    old(self).source(),
                    final(self).start(),
                    r,
                    final(self).position() - final(self).start(),
                ) && !is_skipped(r) && token_of(
                    tok,
                    r,
                    window(
                        old(self).source(),
                        final(self).start(),
                        final(self).position() - final(self).start(),
                    ),
                ),
                Some(Err(e)) => e == (0usize..0usize) && final(self).start() < old(self).source().len()
                    && no_rule_matches(old(self).source(), final(self).start())
                    && final(self).position() == final(self).start() + 1,
            },
    {
        let ghost p0 = self.pos as int;
        loop
            invariant
                self.wf(),
                self.chars@ == old(self).chars@,
                p0 == old(self).pos,
                p0 <= self.pos,
                skips_to(self.chars@, p0, self.pos as int),
            decreases self.chars.len() - self.pos,
        {
            if self.pos == self.chars.len() {
                self.token_start = self.pos;
                return None;
            }
            match select_rule(&self.chars, self.pos) {
                None => {
                    self.token_start = self.pos;
                    self.pos = self.pos + 1;
                    return Some(Err(0..0));
                },
                Some((r, n)) => {
                    if matches!(r, Rule::LineComment | Rule::BlockComment) {
                        proof {
                            lemma_skips_extend(self.chars@, p0, self.pos as int, r, n as int);
                        }
                        self.pos = self.pos + n;
                        self.token_start = self.pos;
                    } else {
                        proof {
                            if r == Rule::LineDoc {
                                assert(window(self.chars@, self.pos as int, n as int).len() >= 3);
                            }
                        }
                        let tok = make_token(&self.chars, self.pos, r, n);
                        self.token_start = self.pos;
                        self.pos = self.pos + n;
                        assert(is_best(old(self).source(), self.start(), r, self.position() - self.start()));
                        assert(token_of(tok, r, window(old(self).source(), self.start(), self.position() - self.start())));
                        return Some(Ok(tok));
                    }
                },
            }
        }
    }
}

impl Token {
    /// A lexer at the start of `source`.
    pub fn lexer(source: &str) -> (lexer: Lexer)
        ensures
            lexer.wf(),
            lexer.source() == source@,
            lexer.position() == 0,
    {
        Lexer::new(source)
    }
}

} // verus!
