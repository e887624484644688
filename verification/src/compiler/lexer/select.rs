//! Chooses the winning rule at a position: the longest match, and between matches of
//! the same length the rule with the highest priority.
use vstd::prelude::*;
use super::rules::{is_best, is_longest, no_rule_matches, priority, rule_matches, window, Rule};
use super::scan::{scan_endpoint, scan_fixed, scan_identifier, scan_infinity, scan_line_comment,
    scan_line_doc, scan_list_start, scan_map_start, scan_named_slot, scan_nan, scan_slot,
    scan_whitespace};
use super::scan_numbers::{scan_binary_integer, scan_decimal, scan_decimal_integer, scan_fraction,
    scan_hex_integer, scan_octal_integer};
use super::scan_texts::{scan_block_comment, scan_string_literal};

verus! {

/// The number of rules.
pub open spec fn rule_count() -> int {
    20
}

/// The rules in order of decreasing priority.
pub open spec fn rule_at(i: int) -> Rule {
    if i == 0 {
        Rule::Fixed
    } else if i == 1 {
        Rule::LineDoc
    } else if i == 2 {
        Rule::LineComment
    } else if i == 3 {
        Rule::BlockComment
    } else if i == 4 {
        Rule::Infinity
    } else if i == 5 {
        Rule::Nan
    } else if i == 6 {
        Rule::ListStart
    } else if i == 7 {
        Rule::MapStart
    } else if i == 8 {
        Rule::Decimal
    } else if i == 9 {
        Rule::DecimalInteger
    } else if i == 10 {
        Rule::BinaryInteger
    } else if i == 11 {
        Rule::OctalInteger
    } else if i == 12 {
        Rule::HexadecimalInteger
    } else if i == 13 {
        Rule::Fraction
    } else if i == 14 {
        Rule::StringLiteral
    } else if i == 15 {
        Rule::Endpoint
    } else if i == 16 {
        Rule::Slot
    } else if i == 17 {
        Rule::NamedSlot
    } else if i == 18 {
        Rule::Whitespace
    } else {
        Rule::Identifier
    }
}

/// The position of a rule in `rule_at`.
pub open spec fn rule_index(r: Rule) -> int {
    match r {
        Rule::Fixed => 0,
        Rule::LineDoc => 1,
        Rule::LineComment => 2,
        Rule::BlockComment => 3,
        Rule::Infinity => 4,
        Rule::Nan => 5,
        Rule::ListStart => 6,
        Rule::MapStart => 7,
        Rule::Decimal => 8,
        Rule::DecimalInteger => 9,
        Rule::BinaryInteger => 10,
        Rule::OctalInteger => 11,
        Rule::HexadecimalInteger => 12,
        Rule::Fraction => 13,
        Rule::StringLiteral => 14,
        Rule::Endpoint => 15,
        Rule::Slot => 16,
        Rule::NamedSlot => 17,
        Rule::Whitespace => 18,
        Rule::Identifier => 19,
    }
}

proof fn lemma_rule_order()
    ensures
        forall|r: Rule| 0 <= #[trigger] rule_index(r) < rule_count() && rule_at(rule_index(r)) == r,
        forall|i: int, j: int| 0 <= i < j < rule_count() ==> priority(#[trigger] rule_at(i))
            > priority(#[trigger] rule_at(j)),
{
}

fn rule_at_exec(i: usize) -> (r: Rule)
    requires
        i < 20,
    ensures
        r == rule_at(i as int),
{
    match i {
        0 => Rule::Fixed,
        1 => Rule::LineDoc,
        2 => Rule::LineComment,
        3 => Rule::BlockComment,
        4 => Rule::Infinity,
        5 => Rule::Nan,
        6 => Rule::ListStart,
        7 => Rule::MapStart,
        8 => Rule::Decimal,
        9 => Rule::DecimalInteger,
        10 => Rule::BinaryInteger,
        11 => Rule::OctalInteger,
        12 => Rule::HexadecimalInteger,
        13 => Rule::Fraction,
        14 => Rule::StringLiteral,
        15 => Rule::Endpoint,
        16 => Rule::Slot,
        17 => Rule::NamedSlot,
        18 => Rule::Whitespace,
        _ => Rule::Identifier,
    }
}

/// The length of the longest match of rule `r` at `pos`.
pub fn scan_rule(s: &Vec<char>, pos: usize, r: Rule) -> (n: usize)
    requires
        pos <= s.len(),
    ensures
        is_longest(r, s@, pos as int, n as int),
{
    match r {
        Rule::Fixed => scan_fixed(s, pos).0,
        Rule::LineDoc => scan_line_doc(s, pos),
        Rule::LineComment => scan_line_comment(s, pos),
        Rule::BlockComment => scan_block_comment(s, pos),
        Rule::Infinity => scan_infinity(s, pos),
        Rule::Nan => scan_nan(s, pos),
        Rule::ListStart => scan_list_start(s, pos),
        Rule::MapStart => scan_map_start(s, pos),
        Rule::Decimal => scan_decimal(s, pos),
        Rule::DecimalInteger => scan_decimal_integer(s, pos),
        Rule::BinaryInteger => scan_binary_integer(s, pos),
        Rule::OctalInteger => scan_octal_integer(s, pos),
        Rule::HexadecimalInteger => scan_hex_integer(s, pos),
        Rule::Fraction => scan_fraction(s, pos),
        Rule::StringLiteral => scan_string_literal(s, pos),
        Rule::Endpoint => scan_endpoint(s, pos),
        Rule::Slot => scan_slot(s, pos),
        Rule::NamedSlot => scan_named_slot(s, pos),
        Rule::Whitespace => scan_whitespace(s, pos),
        Rule::Identifier => scan_identifier(s, pos),
    }
}

/// The longest match of a rule is unique.
pub proof fn lemma_longest_unique(r: Rule, s: Seq<char>, pos: int, n1: int, n2: int)
    requires
        is_longest(r, s, pos, n1),
        is_longest(r, s, pos, n2),
    ensures
        n1 == n2,
{
    if n1 < n2 {
        assert(rule_matches(r, window(s, pos, n2)));
    } else if n2 < n1 {
        assert(rule_matches(r, window(s, pos, n1)));
    }
}

/// The winning rule and its match length at a position are unique: tokenizing is
/// deterministic.
pub proof fn lemma_best_unique(s: Seq<char>, pos: int, r1: Rule, n1: int, r2: Rule, n2: int)
    requires
        is_best(s, pos, r1, n1),
        is_best(s, pos, r2, n2),
    ensures
        r1 == r2,
        n1 == n2,
{
    if n1 < n2 {
        assert(rule_matches(r2, window(s, pos, n2)));
    } else if n2 < n1 {
        assert(rule_matches(r1, window(s, pos, n1)));
    } else if r1 != r2 {
        assert(rule_matches(r2, window(s, pos, n1)));
        assert(rule_matches(r1, window(s, pos, n2)));
    }
}

/// The winning rule at `pos` and the length of its match, or `None` if no rule matches
/// any text there.
pub fn select_rule(s: &Vec<char>, pos: usize) -> (res: Option<(Rule, usize)>)
    requires
        pos <= s.len(),
    ensures
        match res {
            Some((r, n)) => is_best(s@, pos as int, r, n as int),
            None => no_rule_matches(s@, pos as int),
        },
{
    proof {
        lemma_rule_order();
    }
    let mut best_rule = Rule::Fixed;
    let mut best = scan_rule(s, pos, Rule::Fixed);
    let ghost mut lens: Seq<int> = seq![best as int];
    let mut i: usize = 1;
    while i < 20
        invariant
            1 <= i <= 20,
            pos <= s.len(),
            lens.len() == i,
            rule_index(best_rule) < i,
            lens[rule_index(best_rule)] == best,
            forall|j: int| 0 <= j < i ==> is_longest(rule_at(j), s@, pos as int, #[trigger] lens[j]),
            forall|j: int| 0 <= j < i ==> #[trigger] lens[j] <= best && (lens[j] == best ==> priority(
                rule_at(j)) <= priority(best_rule)),
            forall|r: Rule| 0 <= #[trigger] rule_index(r) < rule_count() && rule_at(rule_index(r)) == r,
            forall|a: int, b: int| 0 <= a < b < rule_count() ==> priority(#[trigger] rule_at(a))
                > priority(#[trigger] rule_at(b)),
        decreases 20 - i,
    {
        let r = rule_at_exec(i);
        let n = scan_rule(s, pos, r);
        proof {
            lens = lens.push(n as int);
            if n > best {
                assert forall|j: int| 0 <= j < i implies priority(rule_at(j)) > priority(rule_at(i as int)) by {}
            }
        }
        if n > best {
            best_rule = r;
            best = n;
        }
        i = i + 1;
    }
    assert(forall|r: Rule| #[trigger] is_longest(r, s@, pos as int, lens[rule_index(r)])) by {
        assert forall|r: Rule| #[trigger] is_longest(r, s@, pos as int, lens[rule_index(r)]) by {
            assert(rule_at(rule_index(r)) == r);
        }
    }
    if best == 0 {
        assert forall|r: Rule, m: int| 0 < m <= s.len() - pos implies !#[trigger] rule_matches(
            r,
            window(s@, pos as int, m),
        ) by {
            assert(is_longest(r, s@, pos as int, lens[rule_index(r)]));
            assert(lens[rule_index(r)] <= best);
        }
        None
    } else {
        assert(is_longest(best_rule, s@, pos as int, lens[rule_index(best_rule)]));
        assert forall|r2: Rule, m: int| best < m <= s.len() - pos implies !#[trigger] rule_matches(
            r2,
            window(s@, pos as int, m),
        ) by {
            assert(is_longest(r2, s@, pos as int, lens[rule_index(r2)]));
            assert(lens[rule_index(r2)] <= best);
        }
        assert forall|r2: Rule| r2 != best_rule && #[trigger] rule_matches(
            r2,
            window(s@, pos as int, best as int),
        ) implies priority(r2) < priority(best_rule) by {
            assert(is_longest(r2, s@, pos as int, lens[rule_index(r2)]));
            assert(lens[rule_index(r2)] <= best);
            assert(lens[rule_index(r2)] == best);
            assert(rule_at(rule_index(r2)) == r2);
            assert(rule_index(r2) != rule_index(best_rule));
        }
        Some((best_rule, best))
    }
}

} // verus!
