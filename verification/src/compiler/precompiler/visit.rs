//! The precompiler's walk over an expression: resolves every variable read to a declared
//! variable or to a core library value, and reports the reads that resolve to neither.
use vstd::prelude::*;
use crate::ast::expression::DatexExpression;
use crate::compiler::error::{
    collect_or_pass_error, CompilerError, DetailedCompilerErrors, MaybeAction,
    SpannedCompilerError,
};
use crate::compiler::precompiler::options::PrecompilerOptions;
use crate::compiler::precompiler::precompiled_ast::{AstMetadata, VariableMetadata};
use crate::compiler::precompiler::scope_stack::{
    current_realm, lemma_push_scope, lookup, PrecompilerScopeStack, ScopeView,
};
use crate::compiler::precompiler::{resolve_variable, ResolvedVariable};
use crate::values::core_values::PointerAddress;

verus! {

/// Whether visiting an expression opens a scope of its own, and whether that scope starts a
/// new realm (as a remote execution does).
#[derive(Debug, Clone, Copy, PartialEq, Eq, Structural)]
pub enum NewScopeType {
    /// The expression is visited in the current scope.
    KeepScope,
    /// The expression gets a new scope in the current realm.
    NewScope,
    /// The expression gets a new scope in a new realm.
    NewScopeWithNewRealm,
}

/// The core library value named `name` in `core`: the first entry of that name.
pub open spec fn core_lookup(core: Seq<(String, PointerAddress)>, name: Seq<char>) -> Option<
    PointerAddress,
>
    decreases core.len(),
{
    if core.len() == 0 {
        None
    } else if core[0].0@ == name {
        Some(core[0].1)
    } else {
        core_lookup(core.subrange(1, core.len() as int), name)
    }
}

/// The variables that are visible from `scopes`, by name, with their ids.
pub open spec fn visible_variables(scopes: Seq<ScopeView>) -> Map<Seq<char>, usize> {
    Map::new(|name: Seq<char>| lookup(scopes, name) is Some, |name: Seq<char>| lookup(scopes, name)->0)
}

/// The names read by `e` that are neither visible variables (`vars`) nor core library values, in
/// the order in which they are visited.
pub open spec fn undeclared_reads(
    e: DatexExpression,
    vars: Map<Seq<char>, usize>,
    core: Seq<(String, PointerAddress)>,
) -> Seq<Seq<char>>
    decreases e,
{
    match e {
        DatexExpression::VariableAccess(name) => if !vars.contains_key(name@) && core_lookup(
            core,
            name@,
        ) is None {
            seq![name@]
        } else {
            Seq::empty()
        },
        DatexExpression::List(items) => undeclared_reads_in(items@, vars, core),
        DatexExpression::KeyValueMap(entries) => undeclared_reads_in_entries(entries@, vars, core),
        DatexExpression::Statements(statements, _, _) => undeclared_reads_in(statements@, vars, core),
        DatexExpression::BinaryOperation(_, left, right) => undeclared_reads(*left, vars, core)
            + undeclared_reads(*right, vars, core),
        DatexExpression::ComparisonOperation(_, left, right) => undeclared_reads(*left, vars, core)
            + undeclared_reads(*right, vars, core),
        DatexExpression::Deref(inner) => undeclared_reads(*inner, vars, core),
        _ => Seq::empty(),
    }
}

/// The undeclared reads of `items`, one after the other.
pub open spec fn undeclared_reads_in(
    items: Seq<DatexExpression>,
    vars: Map<Seq<char>, usize>,
    core: Seq<(String, PointerAddress)>,
) -> Seq<Seq<char>>
    decreases items,
{
    if items.len() == 0 {
        Seq::empty()
    } else {
        undeclared_reads(items[0], vars, core) + undeclared_reads_in(
            items.subrange(1, items.len() as int),
            vars,
            core,
        )
    }
}

/// The undeclared reads of map entries, key before value, one entry after the other.
pub open spec fn undeclared_reads_in_entries(
    entries: Seq<(DatexExpression, DatexExpression)>,
    vars: Map<Seq<char>, usize>,
    core: Seq<(String, PointerAddress)>,
) -> Seq<Seq<char>>
    decreases entries,
{
    if entries.len() == 0 {
        Seq::empty()
    } else {
        undeclared_reads_in_entry(entries[0], vars, core) + undeclared_reads_in_entries(
            entries.subrange(1, entries.len() as int),
            vars,
            core,
        )
    }
}

/// The undeclared reads of a map entry, key before value.
pub open spec fn undeclared_reads_in_entry(
    entry: (DatexExpression, DatexExpression),
    vars: Map<Seq<char>, usize>,
    core: Seq<(String, PointerAddress)>,
) -> Seq<Seq<char>>
    decreases entry,
{
    undeclared_reads(entry.0, vars, core) + undeclared_reads(entry.1, vars, core)
}

/// Whether `e` reads the declared variable with id `id`.
pub open spec fn reads_variable(e: DatexExpression, vars: Map<Seq<char>, usize>, id: usize) -> bool
    decreases e,
{
    match e {
        DatexExpression::VariableAccess(name) => vars.contains_key(name@) && vars[name@] == id,
        DatexExpression::List(items) => exists|i: int|
            0 <= i < items@.len() && reads_variable(#[trigger] items@[i], vars, id),
        DatexExpression::KeyValueMap(entries) => exists|i: int|
            0 <= i < entries@.len() && entry_reads_variable(#[trigger] entries@[i], vars, id),
        DatexExpression::Statements(statements, _, _) => exists|i: int|
            0 <= i < statements@.len() && reads_variable(#[trigger] statements@[i], vars, id),
        DatexExpression::BinaryOperation(_, left, right) => reads_variable(*left, vars, id)
            || reads_variable(*right, vars, id),
        DatexExpression::ComparisonOperation(_, left, right) => reads_variable(*left, vars, id)
            || reads_variable(*right, vars, id),
        DatexExpression::Deref(inner) => reads_variable(*inner, vars, id),
        _ => false,
    }
}

/// Whether the key or the value of a map entry reads the variable with id `id`.
pub open spec fn entry_reads_variable(
    entry: (DatexExpression, DatexExpression),
    vars: Map<Seq<char>, usize>,
    id: usize,
) -> bool
    decreases entry,
{
    reads_variable(entry.0, vars, id) || reads_variable(entry.1, vars, id)
}

/// `after` is `before` with every read of a name that is not a visible variable but is a
/// core library value replaced by a reference to that value.
pub open spec fn resolved_to(
    after: DatexExpression,
    before: DatexExpression,
    vars: Map<Seq<char>, usize>,
    core: Seq<(String, PointerAddress)>,
) -> bool
    decreases before,
{
    match before {
        DatexExpression::VariableAccess(name) => match core_lookup(core, name@) {
            Some(address) => if vars.contains_key(name@) {
                after == before
            } else {
                after == DatexExpression::GetReference(address)
            },
            None => after == before,
        },
        DatexExpression::List(items) => after matches DatexExpression::List(new_items)
            && new_items@.len() == items@.len() && forall|i: int|
            0 <= i < items@.len() ==> resolved_to(new_items@[i], #[trigger] items@[i], vars, core),
        DatexExpression::KeyValueMap(entries) => after matches DatexExpression::KeyValueMap(
            new_entries,
        ) && new_entries@.len() == entries@.len() && forall|i: int|
            0 <= i < entries@.len() ==> entry_resolved_to(
                new_entries@[i],
                #[trigger] entries@[i],
                vars,
                core,
            ),
        DatexExpression::Statements(statements, terminated, unbounded) => after matches DatexExpression::Statements(
            new_statements,
            new_terminated,
            new_unbounded,
        ) && new_terminated == terminated && new_unbounded == unbounded && new_statements@.len() == statements@.len() && forall|
            i: int,
        |
            0 <= i < statements@.len() ==> resolved_to(
                new_statements@[i],
                #[trigger] statements@[i],
                vars,
                core,
            ),
        DatexExpression::BinaryOperation(op, left, right) => after matches DatexExpression::BinaryOperation(
            new_op,
            new_left,
            new_right,
        ) && new_op == op && resolved_to(*new_left, *left, vars, core) && resolved_to(
            *new_right,
            *right,
            vars,
            core,
        ),
        DatexExpression::ComparisonOperation(op, left, right) => after matches DatexExpression::ComparisonOperation(
            new_op,
            new_left,
            new_right,
        ) && new_op == op && resolved_to(*new_left, *left, vars, core) && resolved_to(
            *new_right,
            *right,
            vars,
            core,
        ),
        DatexExpression::Deref(inner) => after matches DatexExpression::Deref(new_inner)
            && resolved_to(*new_inner, *inner, vars, core),
        _ => after == before,
    }
}

/// The key and the value of a map entry are resolved.
pub open spec fn entry_resolved_to(
    after: (DatexExpression, DatexExpression),
    before: (DatexExpression, DatexExpression),
    vars: Map<Seq<char>, usize>,
    core: Seq<(String, PointerAddress)>,
) -> bool
    decreases before,
{
    resolved_to(after.0, before.0, vars, core) && resolved_to(after.1, before.1, vars, core)
}

/// `m` marked as used across realms when it is read from realm `realm` and was declared in
/// another one.
pub open spec fn marked(m: VariableMetadata, read: bool, realm: usize) -> VariableMetadata {
    if read && m.original_realm_index != realm {
        VariableMetadata { is_cross_realm: true, ..m }
    } else {
        m
    }
}

/// `errors` report the undeclared variables `names`, one error each, in order, without spans.
pub open spec fn reports_undeclared(errors: Seq<SpannedCompilerError>, names: Seq<Seq<char>>) -> bool {
    &&& errors.len() == names.len()
    &&& forall|k: int|
        0 <= k < errors.len() ==> ((#[trigger] errors[k]).error matches CompilerError::UndeclaredVariable(
            n,
        ) && n@ == names[k] && errors[k].span is None)
}

/// The realm in which an expression visited with `new_scope` is read.
pub open spec fn visit_realm(scopes: Seq<ScopeView>, new_scope: NewScopeType) -> usize {
    if new_scope is NewScopeWithNewRealm {
        (current_realm(scopes) + 1) as usize
    } else {
        current_realm(scopes)
    }
}

/// The core library value named `name` in `core_variables`.
fn find_core_variable(core_variables: &Vec<(String, PointerAddress)>, name: &str) -> (res: Option<
    PointerAddress,
>)
    ensures
        res == core_lookup(core_variables@, name@),
{
    let key = name.to_owned();
    let n = core_variables.len();
    let mut i: usize = 0;
    assert(core_variables@.subrange(0, n as int) =~= core_variables@);
    while i < n
        invariant
            i <= n == core_variables@.len(),
            key@ == name@,
            core_lookup(core_variables@, name@) == core_lookup(
                core_variables@.subrange(i as int, n as int),
                name@,
            ),
        decreases n - i,
    {
        let ghost rest = core_variables@.subrange(i as int, n as int);
        assert(rest.subrange(1, rest.len() as int) =~= core_variables@.subrange(
            i + 1,
            n as int,
        ));
        if core_variables[i].0 == key {
            return Some(core_variables[i].1);
        }
        i = i + 1;
    }
    None
}

/// The undeclared reads of two lists of expressions, one after the other, are those of the
/// joined list.
proof fn lemma_undeclared_reads_in_append(
    a: Seq<DatexExpression>,
    b: Seq<DatexExpression>,
    vars: Map<Seq<char>, usize>,
    core: Seq<(String, PointerAddress)>,
)
    ensures
        undeclared_reads_in(a + b, vars, core) == undeclared_reads_in(a, vars, core)
            + undeclared_reads_in(b, vars, core),
    decreases a.len(),
{
    if a.len() == 0 {
        assert(a + b =~= b);
    } else {
        let t = a.subrange(1, a.len() as int);
        lemma_undeclared_reads_in_append(t, b, vars, core);
        assert((a + b).subrange(1, (a + b).len() as int) =~= t + b);
        assert((a + b)[0] == a[0]);
    }
}

/// The undeclared reads of two lists of map entries, one after the other, are those of the
/// joined list.
proof fn lemma_undeclared_reads_in_entries_append(
    a: Seq<(DatexExpression, DatexExpression)>,
    b: Seq<(DatexExpression, DatexExpression)>,
    vars: Map<Seq<char>, usize>,
    core: Seq<(String, PointerAddress)>,
)
    ensures
        undeclared_reads_in_entries(a + b, vars, core) == undeclared_reads_in_entries(a, vars, core)
            + undeclared_reads_in_entries(b, vars, core),
    decreases a.len(),
{
    if a.len() == 0 {
        assert(a + b =~= b);
    } else {
        let t = a.subrange(1, a.len() as int);
        lemma_undeclared_reads_in_entries_append(t, b, vars, core);
        assert((a + b).subrange(1, (a + b).len() as int) =~= t + b);
        assert((a + b)[0] == a[0]);
    }
}

/// Errors that report `n1` followed by errors that report `n2` report `n1 + n2`.
proof fn lemma_reports_append(
    all: Seq<SpannedCompilerError>,
    start: int,
    middle: int,
    n1: Seq<Seq<char>>,
    n2: Seq<Seq<char>>,
)
    requires
        0 <= start <= middle <= all.len(),
        reports_undeclared(all.subrange(start, middle), n1),
        reports_undeclared(all.subrange(middle, all.len() as int), n2),
    ensures
        reports_undeclared(all.subrange(start, all.len() as int), n1 + n2),
{
    let whole = all.subrange(start, all.len() as int);
    assert forall|k: int| 0 <= k < whole.len() implies ((#[trigger] whole[k]).error matches CompilerError::UndeclaredVariable(
        n,
    ) && n@ == (n1 + n2)[k] && whole[k].span is None) by {
        if k < middle - start {
            assert(whole[k] == all.subrange(start, middle)[k]);
        } else {
            assert(whole[k] == all.subrange(middle, all.len() as int)[k - (middle - start)]);
        }
    }
}

/// Marking metadata for one read and then for another marks it for either.
proof fn lemma_marked_twice(m: VariableMetadata, a: bool, b: bool, realm: usize)
    ensures
        marked(marked(m, a, realm), b, realm) == marked(m, a || b, realm),
{
}

/// Opening a scope without variables changes no visible variable.
proof fn lemma_visible_under_empty_scope(scopes: Seq<ScopeView>, top: ScopeView)
    requires
        top.1 == Map::<Seq<char>, usize>::empty(),
    ensures
        visible_variables(scopes.push(top)) == visible_variables(scopes),
{
    assert(scopes.push(top).drop_last() =~= scopes);
    assert forall|name: Seq<char>| lookup(scopes.push(top), name) == lookup(scopes, name) by {
        assert(scopes.push(top).last() == top);
    }
    assert(visible_variables(scopes.push(top)) =~= visible_variables(scopes));
}

/// What visiting leaves: the scopes as they were and the metadata of every variable read
/// marked, on success; the undeclared reads reported to the collector, if there is one, and
/// else the first of them as the error.
pub open spec fn visited(
    res: Result<(), SpannedCompilerError>,
    scopes_before: Seq<ScopeView>,
    scopes_after: Seq<ScopeView>,
    meta_before: Seq<VariableMetadata>,
    meta_after: Seq<VariableMetadata>,
    errors_before: Option<DetailedCompilerErrors>,
    errors_after: Option<DetailedCompilerErrors>,
    reads: spec_fn(usize) -> bool,
    realm: usize,
    undeclared: Seq<Seq<char>>,
) -> bool {
    &&& meta_after.len() == meta_before.len()
    &&& (errors_before is Some <==> errors_after is Some)
    &&& res is Ok ==> {
        &&& scopes_after == scopes_before
        &&& forall|id: int|
            0 <= id < meta_before.len() ==> #[trigger] meta_after[id] == marked(
                meta_before[id],
                reads(id as usize),
                realm,
            )
    }
    &&& match errors_before {
        Some(c) => {
            &&& res is Ok
            &&& errors_after matches Some(f) && f.errors@.len() >= c.errors@.len()
                && f.errors@.subrange(0, c.errors@.len() as int) == c.errors@ && reports_undeclared(
                f.errors@.subrange(c.errors@.len() as int, f.errors@.len() as int),
                undeclared,
            )
        },
        None => {
            &&& res is Ok <==> undeclared.len() == 0
            &&& res matches Err(e) ==> (e.error matches CompilerError::UndeclaredVariable(n)
                && n@ == undeclared[0] && e.span is None)
        },
    }
}

/// Visits `items` one after the other, each in a new scope.
#[verifier::loop_isolation(false)]
fn visit_sequence(
    items: &mut Vec<DatexExpression>,
    metadata: &mut AstMetadata,
    scope_stack: &mut PrecompilerScopeStack,
    core_variables: &Vec<(String, PointerAddress)>,
    collected_errors: &mut Option<DetailedCompilerErrors>,
) -> (res: Result<(), SpannedCompilerError>)
    requires
        old(scope_stack).wf(),
        forall|name: Seq<char>|
            #[trigger] lookup(old(scope_stack)@, name) matches Some(id) ==> id < old(
                metadata,
            ).variables@.len(),
    ensures
        final(scope_stack).wf(),
        visited(
            res,
            old(scope_stack)@,
            final(scope_stack)@,
            old(metadata).variables@,
            final(metadata).variables@,
            *old(collected_errors),
            *final(collected_errors),
            |id: usize|
                exists|j: int|
                    0 <= j < old(items)@.len() && reads_variable(
                        #[trigger] old(items)@[j],
                        visible_variables(old(scope_stack)@),
                        id,
                    ),
            current_realm(old(scope_stack)@),
            undeclared_reads_in(old(items)@, visible_variables(old(scope_stack)@), core_variables@),
        ),
        res is Ok ==> final(items)@.len() == old(items)@.len() && forall|j: int|
            0 <= j < old(items)@.len() ==> resolved_to(
                #[trigger] final(items)@[j],
                old(items)@[j],
                visible_variables(old(scope_stack)@),
                core_variables@,
            ),
    decreases old(items)@,
{
    let ghost s0 = scope_stack@;
    let ghost vars = visible_variables(s0);
    let ghost realm = current_realm(s0);
    let ghost before = items@;
    let ghost m0 = metadata.variables@;
    let ghost e0 = *collected_errors;
    let ghost core = core_variables@;
    let n = items.len();
    let mut i: usize = 0;
    assert(before.subrange(0, 0) =~= Seq::<DatexExpression>::empty());
    while i < n
        invariant
            i <= n == before.len() == items@.len(),
            scope_stack.wf(),
            scope_stack@ == s0,
            forall|j: int|
                0 <= j < i ==> resolved_to(#[trigger] items@[j], before[j], vars, core),
            forall|j: int| i <= j < n ==> #[trigger] items@[j] == before[j],
            metadata.variables@.len() == m0.len(),
            forall|id: int|
                0 <= id < m0.len() ==> #[trigger] metadata.variables@[id] == marked(
                    m0[id],
                    exists|j: int| 0 <= j < i && reads_variable(#[trigger] before[j], vars, id as usize),
                    realm,
                ),
            e0 is Some <==> (*collected_errors) is Some,
            match e0 {
                Some(c) => (*collected_errors) matches Some(f) && f.errors@.len() >= c.errors@.len()
                    && f.errors@.subrange(0, c.errors@.len() as int) == c.errors@ && reports_undeclared(
                    f.errors@.subrange(c.errors@.len() as int, f.errors@.len() as int),
                    undeclared_reads_in(before.subrange(0, i as int), vars, core),
                ),
                None => undeclared_reads_in(before.subrange(0, i as int), vars, core).len() == 0,
            },
        decreases n - i,
    {
        let ghost m_prev = metadata.variables@;
        let ghost errs_prev = *collected_errors;
        assert(decreases_to!(before => before[i as int]));
        proof {
            lemma_undeclared_reads_in_append(
                before.subrange(0, i as int),
                seq![before[i as int]],
                vars,
                core,
            );
            assert(before.subrange(0, i as int) + seq![before[i as int]] =~= before.subrange(
                0,
                i + 1,
            ));
            let single = seq![before[i as int]];
            assert(single.subrange(1, 1) =~= Seq::<DatexExpression>::empty());
            assert(single[0] == before[i as int]);
            assert(undeclared_reads_in(single, vars, core) == undeclared_reads(single[0], vars, core)
                + undeclared_reads_in(Seq::<DatexExpression>::empty(), vars, core));
            assert(undeclared_reads(single[0], vars, core) + undeclared_reads_in(
                Seq::<DatexExpression>::empty(),
                vars,
                core,
            ) =~= undeclared_reads(before[i as int], vars, core));
        }
        let r = visit_expression(
            &mut items[i],
            metadata,
            scope_stack,
            NewScopeType::NewScope,
            core_variables,
            collected_errors,
        );
        match r {
            Ok(()) => {},
            Err(e) => {
                proof {
                    lemma_undeclared_reads_in_append(
                        before.subrange(0, i + 1),
                        before.subrange(i + 1, n as int),
                        vars,
                        core,
                    );
                    assert(before.subrange(0, i + 1) + before.subrange(i + 1, n as int) =~= before);
                }
                return Err(e);
            },
        }
        proof {
            if let Some(c) = e0 {
                let f = collected_errors->0;
                let p = errs_prev->0;
                assert(f.errors@.subrange(0, p.errors@.len() as int) == p.errors@);
                assert(f.errors@.subrange(0, c.errors@.len() as int) =~= p.errors@.subrange(
                    0,
                    c.errors@.len() as int,
                ));
                assert(f.errors@.subrange(c.errors@.len() as int, p.errors@.len() as int)
                    =~= p.errors@.subrange(c.errors@.len() as int, p.errors@.len() as int));
                lemma_reports_append(
                    f.errors@,
                    c.errors@.len() as int,
                    p.errors@.len() as int,
                    undeclared_reads_in(before.subrange(0, i as int), vars, core),
                    undeclared_reads(before[i as int], vars, core),
                );
            }
            assert forall|id: int| 0 <= id < m0.len() implies #[trigger] metadata.variables@[id]
                == marked(
                m0[id],
                exists|j: int| 0 <= j < i + 1 && reads_variable(#[trigger] before[j], vars, id as usize),
                realm,
            ) by {
                assert(metadata.variables@[id] == marked(
                    m_prev[id],
                    reads_variable(before[i as int], vars, id as usize),
                    realm,
                ));
                if reads_variable(before[i as int], vars, id as usize) {
                    assert(exists|j: int|
                        0 <= j < i + 1 && reads_variable(#[trigger] before[j], vars, id as usize));
                }
                if exists|j: int| 0 <= j < i + 1 && reads_variable(#[trigger] before[j], vars, id as usize) {
                    let j = choose|j: int|
                        0 <= j < i + 1 && reads_variable(#[trigger] before[j], vars, id as usize);
                    if j < i {
                        assert(exists|j: int|
                            0 <= j < i && reads_variable(#[trigger] before[j], vars, id as usize));
                    }
                }
            }
        }
        i = i + 1;
    }
    assert(before.subrange(0, n as int) =~= before);
    Ok(())
}

/// Visits an expression, in a new scope (and realm) when `new_scope` says so: resolves each
/// variable read to the declared variable of that name (marking its metadata as used across
/// realms when it is read from another realm) or else to the core library value of that name,
/// which replaces the read; a read that resolves to neither is an `UndeclaredVariable` error,
/// recorded in `collected_errors` when there is a collector, and returned otherwise.
pub fn visit_expression(
    expression: &mut DatexExpression,
    metadata: &mut AstMetadata,
    scope_stack: &mut PrecompilerScopeStack,
    new_scope: NewScopeType,
    core_variables: &Vec<(String, PointerAddress)>,
    collected_errors: &mut Option<DetailedCompilerErrors>,
) -> (res: Result<(), SpannedCompilerError>)
    requires
        old(scope_stack).wf(),
        forall|name: Seq<char>|
            #[trigger] lookup(old(scope_stack)@, name) matches Some(id) ==> id < old(
                metadata,
            ).variables@.len(),
        new_scope is NewScopeWithNewRealm ==> current_realm(old(scope_stack)@) < usize::MAX,
    ensures
        final(scope_stack).wf(),
        visited(
            res,
            old(scope_stack)@,
            final(scope_stack)@,
            old(metadata).variables@,
            final(metadata).variables@,
            *old(collected_errors),
            *final(collected_errors),
            |id: usize| reads_variable(*old(expression), visible_variables(old(scope_stack)@), id),
            visit_realm(old(scope_stack)@, new_scope),
            undeclared_reads(*old(expression), visible_variables(old(scope_stack)@), core_variables@),
        ),
        res is Ok ==> resolved_to(
            *final(expression),
            *old(expression),
            visible_variables(old(scope_stack)@),
            core_variables@,
        ),
    decreases *old(expression),
{
    let ghost s0 = scope_stack@;
    let ghost vars = visible_variables(s0);
    let ghost realm = visit_realm(s0, new_scope);
    let ghost before = *expression;
    let ghost m0 = metadata.variables@;
    let ghost e_start = *collected_errors;
    let variable_count = metadata.variables.len();
    assert(m0.len() == variable_count);
    match new_scope {
        NewScopeType::NewScopeWithNewRealm => {
            scope_stack.push_scope();
            assert(scope_stack.scopes@.len() == scope_stack@.len());
            scope_stack.increment_realm_index();
            proof {
                let top = (realm, Map::<Seq<char>, usize>::empty());
                assert(scope_stack@ =~= s0.push(top));
                lemma_visible_under_empty_scope(s0, top);
            }
        },
        NewScopeType::NewScope => {
            scope_stack.push_scope();
            proof {
                lemma_visible_under_empty_scope(s0, (realm, Map::<Seq<char>, usize>::empty()));
            }
        },
        NewScopeType::KeepScope => {},
    }
    let ghost s1 = scope_stack@;
    assert(visible_variables(s1) == vars);
    assert(current_realm(s1) == realm);
    assert forall|name: Seq<char>|
        #[trigger] lookup(s1, name) matches Some(id) ==> id < m0.len() by {
        assert(visible_variables(s1).contains_key(name) == visible_variables(s0).contains_key(name));
        if lookup(s1, name) is Some {
            assert(visible_variables(s1)[name] == visible_variables(s0)[name]);
        }
    }
    let access: Option<Result<Option<PointerAddress>, SpannedCompilerError>> = match &*expression {
        DatexExpression::VariableAccess(name) => {
            let core_variable = find_core_variable(core_variables, name.as_str());
            assert(lookup(s1, name@) == lookup(s0, name@)) by {
                assert(visible_variables(s1).contains_key(name@) == visible_variables(
                    s0,
                ).contains_key(name@));
                if lookup(s1, name@) is Some {
                    assert(visible_variables(s1)[name@] == visible_variables(s0)[name@]);
                }
            }
            let resolution = resolve_variable(name.as_str(), metadata, scope_stack, core_variable);
            let resolved = match resolution {
                Ok(r) => Ok(r),
                Err(error) => Err(SpannedCompilerError::from(error)),
            };
            proof {
                assert forall|id: int| 0 <= id < m0.len() implies #[trigger] metadata.variables@[id]
                    == marked(m0[id], reads_variable(before, vars, id as usize), realm) by {
                    if lookup(s0, name@) == Some(id as usize) {
                        assert(vars.contains_key(name@) && vars[name@] == id as usize);
                    } else if vars.contains_key(name@) {
                        assert(vars[name@] != id as usize);
                    }
                }
            }
            Some(
                match collect_or_pass_error(collected_errors, resolved) {
                    Ok(MaybeAction::Do(ResolvedVariable::PointerAddress(address))) => Ok(
                        Some(address),
                    ),
                    Ok(_) => Ok(None),
                    Err(e) => Err(e),
                },
            )
        },
        _ => None,
    };
    let res = match access {
        Some(Ok(Some(address))) => {
            *expression = DatexExpression::GetReference(address);
            Ok(())
        },
        Some(Ok(None)) => Ok(()),
        Some(Err(e)) => Err(e),
        None => match expression {
        DatexExpression::List(items) => {
            assert(decreases_to!(before => before->List_0@));
            visit_sequence(items, metadata, scope_stack, core_variables, collected_errors)
        },
        DatexExpression::Statements(statements, _, _) => {
            assert(decreases_to!(before => before->Statements_0@));
            visit_sequence(statements, metadata, scope_stack, core_variables, collected_errors)
        },
        DatexExpression::KeyValueMap(entries) => {
            assert(decreases_to!(before => before->KeyValueMap_0@));
            visit_entries(entries, metadata, scope_stack, core_variables, collected_errors)
        },
        DatexExpression::BinaryOperation(_, left, right) => {
            let ghost e_prev = *collected_errors;
            let r0 = visit_expression(
                left,
                metadata,
                scope_stack,
                NewScopeType::NewScope,
                core_variables,
                collected_errors,
            );
            let ghost e_mid = *collected_errors;
            let ghost m_mid = metadata.variables@;
            match r0 {
                Ok(()) => {
                    let r1 = visit_expression(
                        right,
                        metadata,
                        scope_stack,
                        NewScopeType::NewScope,
                        core_variables,
                        collected_errors,
                    );
                    proof {
                        let l = undeclared_reads(*before->BinaryOperation_1, vars, core_variables@);
                        let rr = undeclared_reads(*before->BinaryOperation_2, vars, core_variables@);
                        if let Some(c) = e_prev {
                            let f = collected_errors->0;
                            let p = e_mid->0;
                            assert(f.errors@.subrange(0, c.errors@.len() as int)
                                =~= p.errors@.subrange(0, c.errors@.len() as int));
                            assert(f.errors@.subrange(c.errors@.len() as int, p.errors@.len() as int)
                                =~= p.errors@.subrange(c.errors@.len() as int, p.errors@.len() as int));
                            lemma_reports_append(
                                f.errors@,
                                c.errors@.len() as int,
                                p.errors@.len() as int,
                                l,
                                rr,
                            );
                        } else {
                            assert(l.len() == 0);
                            assert(l + rr =~= rr);
                        }
                        assert forall|id: int|
                            r1 is Ok && 0 <= id < m0.len() implies #[trigger] metadata.variables@[id]
                            == marked(m0[id], reads_variable(before, vars, id as usize), realm) by {
                            assert(m_mid[id] == marked(
                                m0[id],
                                reads_variable(*before->BinaryOperation_1, vars, id as usize),
                                realm,
                            ));
                            lemma_marked_twice(
                                m0[id],
                                reads_variable(*before->BinaryOperation_1, vars, id as usize),
                                reads_variable(*before->BinaryOperation_2, vars, id as usize),
                                realm,
                            );
                        }
                    }
                    r1
                },
                Err(e) => Err(e),
            }
        },
        DatexExpression::ComparisonOperation(_, left, right) => {
            let ghost e_prev = *collected_errors;
            let r0 = visit_expression(
                left,
                metadata,
                scope_stack,
                NewScopeType::NewScope,
                core_variables,
                collected_errors,
            );
            let ghost e_mid = *collected_errors;
            let ghost m_mid = metadata.variables@;
            match r0 {
                Ok(()) => {
                    let r1 = visit_expression(
                        right,
                        metadata,
                        scope_stack,
                        NewScopeType::NewScope,
                        core_variables,
                        collected_errors,
                    );
                    proof {
                        let l = undeclared_reads(*before->ComparisonOperation_1, vars, core_variables@);
                        let rr = undeclared_reads(*before->ComparisonOperation_2, vars, core_variables@);
                        if let Some(c) = e_prev {
                            let f = collected_errors->0;
                            let p = e_mid->0;
                            assert(f.errors@.subrange(0, c.errors@.len() as int)
                                =~= p.errors@.subrange(0, c.errors@.len() as int));
                            assert(f.errors@.subrange(c.errors@.len() as int, p.errors@.len() as int)
                                =~= p.errors@.subrange(c.errors@.len() as int, p.errors@.len() as int));
                            lemma_reports_append(
                                f.errors@,
                                c.errors@.len() as int,
                                p.errors@.len() as int,
                                l,
                                rr,
                            );
                        } else {
                            assert(l.len() == 0);
                            assert(l + rr =~= rr);
                        }
                        assert forall|id: int|
                            r1 is Ok && 0 <= id < m0.len() implies #[trigger] metadata.variables@[id]
                            == marked(m0[id], reads_variable(before, vars, id as usize), realm) by {
                            assert(m_mid[id] == marked(
                                m0[id],
                                reads_variable(*before->ComparisonOperation_1, vars, id as usize),
                                realm,
                            ));
                            lemma_marked_twice(
                                m0[id],
                                reads_variable(*before->ComparisonOperation_1, vars, id as usize),
                                reads_variable(*before->ComparisonOperation_2, vars, id as usize),
                                realm,
                            );
                        }
                    }
                    r1
                },
                Err(e) => Err(e),
            }
        },
        DatexExpression::Deref(inner) => visit_expression(
            inner,
            metadata,
            scope_stack,
            NewScopeType::NewScope,
            core_variables,
            collected_errors,
        ),
        _ => Ok(()),
    },
    };
    match res {
        Ok(()) => {},
        Err(e) => {
            return Err(e);
        },
    }
    match new_scope {
        NewScopeType::KeepScope => {},
        _ => {
            scope_stack.pop_scope();
            assert(scope_stack@ =~= s0);
        },
    }
    proof {
        if let Some(c) = e_start {
            let f = collected_errors->0;
            assert(f.errors@.subrange(0, c.errors@.len() as int) =~= c.errors@);
            let rest = f.errors@.subrange(c.errors@.len() as int, f.errors@.len() as int);
            let names = undeclared_reads(before, vars, core_variables@);
            if f.errors@.len() == c.errors@.len() {
                assert(rest =~= Seq::<SpannedCompilerError>::empty());
            }
            assert(reports_undeclared(rest, names));
        }
    }
    Ok(())
}

/// Visits map entries one after the other, key before value, each in a new scope.
#[verifier::loop_isolation(false)]
fn visit_entries(
    entries: &mut Vec<(DatexExpression, DatexExpression)>,
    metadata: &mut AstMetadata,
    scope_stack: &mut PrecompilerScopeStack,
    core_variables: &Vec<(String, PointerAddress)>,
    collected_errors: &mut Option<DetailedCompilerErrors>,
) -> (res: Result<(), SpannedCompilerError>)
    requires
        old(scope_stack).wf(),
        forall|name: Seq<char>|
            #[trigger] lookup(old(scope_stack)@, name) matches Some(id) ==> id < old(
                metadata,
            ).variables@.len(),
    ensures
        final(scope_stack).wf(),
        visited(
            res,
            old(scope_stack)@,
            final(scope_stack)@,
            old(metadata).variables@,
            final(metadata).variables@,
            *old(collected_errors),
            *final(collected_errors),
            |id: usize|
                exists|j: int|
                    0 <= j < old(entries)@.len() && entry_reads_variable(
                        #[trigger] old(entries)@[j],
                        visible_variables(old(scope_stack)@),
                        id,
                    ),
            current_realm(old(scope_stack)@),
            undeclared_reads_in_entries(
                old(entries)@,
                visible_variables(old(scope_stack)@),
                core_variables@,
            ),
        ),
        res is Ok ==> final(entries)@.len() == old(entries)@.len() && forall|j: int|
            0 <= j < old(entries)@.len() ==> entry_resolved_to(
                #[trigger] final(entries)@[j],
                old(entries)@[j],
                visible_variables(old(scope_stack)@),
                core_variables@,
            ),
    decreases old(entries)@,
{
    let ghost s0 = scope_stack@;
    let ghost vars = visible_variables(s0);
    let ghost realm = current_realm(s0);
    let ghost before = entries@;
    let ghost m0 = metadata.variables@;
    let ghost e0 = *collected_errors;
    let ghost core = core_variables@;
    let n = entries.len();
    let mut i: usize = 0;
    assert(before.subrange(0, 0) =~= Seq::<(DatexExpression, DatexExpression)>::empty());
    while i < n
        invariant
            i <= n == before.len() == entries@.len(),
            scope_stack.wf(),
            scope_stack@ == s0,
            forall|j: int|
                0 <= j < i ==> entry_resolved_to(#[trigger] entries@[j], before[j], vars, core),
            forall|j: int| i <= j < n ==> #[trigger] entries@[j] == before[j],
            metadata.variables@.len() == m0.len(),
            forall|id: int|
                0 <= id < m0.len() ==> #[trigger] metadata.variables@[id] == marked(
                    m0[id],
                    exists|j: int|
                        0 <= j < i && entry_reads_variable(#[trigger] before[j], vars, id as usize),
                    realm,
                ),
            e0 is Some <==> (*collected_errors) is Some,
            match e0 {
                Some(c) => (*collected_errors) matches Some(f) && f.errors@.len() >= c.errors@.len()
                    && f.errors@.subrange(0, c.errors@.len() as int) == c.errors@ && reports_undeclared(
                    f.errors@.subrange(c.errors@.len() as int, f.errors@.len() as int),
                    undeclared_reads_in_entries(before.subrange(0, i as int), vars, core),
                ),
                None => undeclared_reads_in_entries(before.subrange(0, i as int), vars, core).len()
                    == 0,
            },
        decreases n - i,
    {
        let ghost errs_prev = *collected_errors;
        assert(decreases_to!(before => before[i as int]));
        assert(decreases_to!(before[i as int] => before[i as int].0));
        assert(decreases_to!(before[i as int] => before[i as int].1));
        proof {
            lemma_undeclared_reads_in_entries_append(
                before.subrange(0, i as int),
                seq![before[i as int]],
                vars,
                core,
            );
            assert(before.subrange(0, i as int) + seq![before[i as int]] =~= before.subrange(
                0,
                i + 1,
            ));
            assert(undeclared_reads_in_entries(seq![before[i as int]], vars, core)
                =~= undeclared_reads_in_entry(before[i as int], vars, core)) by {
                assert(seq![before[i as int]].subrange(1, 1) =~= Seq::<
                    (DatexExpression, DatexExpression),
                >::empty());
            }
            lemma_undeclared_reads_in_entries_append(
                before.subrange(0, i + 1),
                before.subrange(i + 1, n as int),
                vars,
                core,
            );
            assert(before.subrange(0, i + 1) + before.subrange(i + 1, n as int) =~= before);
        }
        let entry = &mut entries[i];
        let r0 = visit_expression(
            &mut entry.0,
            metadata,
            scope_stack,
            NewScopeType::NewScope,
            core_variables,
            collected_errors,
        );
        let ghost errs_after_key = *collected_errors;
        let r = match r0 {
            Ok(()) => visit_expression(
                &mut entry.1,
                metadata,
                scope_stack,
                NewScopeType::NewScope,
                core_variables,
                collected_errors,
            ),
            Err(e) => Err(e),
        };
        match r {
            Ok(()) => {},
            Err(e) => {
                return Err(e);
            },
        }
        proof {
            if let Some(c) = e0 {
                let f = collected_errors->0;
                let p = errs_prev->0;
                let mid = undeclared_reads(before[i as int].0, vars, core);
                let q = errs_after_key->0;
                assert(f.errors@.subrange(p.errors@.len() as int, q.errors@.len() as int)
                    =~= q.errors@.subrange(p.errors@.len() as int, q.errors@.len() as int));
                lemma_reports_append(
                    f.errors@,
                    p.errors@.len() as int,
                    q.errors@.len() as int,
                    mid,
                    undeclared_reads(before[i as int].1, vars, core),
                );
                assert(f.errors@.subrange(0, p.errors@.len() as int) =~= p.errors@);
                assert(f.errors@.subrange(0, c.errors@.len() as int) =~= p.errors@.subrange(
                    0,
                    c.errors@.len() as int,
                ));
                assert(f.errors@.subrange(c.errors@.len() as int, p.errors@.len() as int)
                    =~= p.errors@.subrange(c.errors@.len() as int, p.errors@.len() as int));
                lemma_reports_append(
                    f.errors@,
                    c.errors@.len() as int,
                    p.errors@.len() as int,
                    undeclared_reads_in_entries(before.subrange(0, i as int), vars, core),
                    undeclared_reads_in_entry(before[i as int], vars, core),
                );
            }
            assert forall|id: int| 0 <= id < m0.len() implies #[trigger] metadata.variables@[id]
                == marked(
                m0[id],
                exists|j: int|
                    0 <= j < i + 1 && entry_reads_variable(#[trigger] before[j], vars, id as usize),
                realm,
            ) by {
                if entry_reads_variable(before[i as int], vars, id as usize) {
                    assert(exists|j: int|
                        0 <= j < i + 1 && entry_reads_variable(
                            #[trigger] before[j],
                            vars,
                            id as usize,
                        ));
                }
                if exists|j: int|
                    0 <= j < i + 1 && entry_reads_variable(#[trigger] before[j], vars, id as usize) {
                    let j = choose|j: int|
                        0 <= j < i + 1 && entry_reads_variable(
                            #[trigger] before[j],
                            vars,
                            id as usize,
                        );
                    if j < i {
                        assert(exists|j: int|
                            0 <= j < i && entry_reads_variable(
                                #[trigger] before[j],
                                vars,
                                id as usize,
                            ));
                    }
                }
            }
        }
        i = i + 1;
    }
    assert(before.subrange(0, n as int) =~= before);
    Ok(())
}

/// Why a precompilation failed: its first error, or (with detailed errors) all of them.
#[derive(Debug)]
pub enum PrecompilerError {
    Simple(SpannedCompilerError),
    Detailed(DetailedCompilerErrors),
}

/// Precompiles an expression in the current scope of `scope_stack` (see `visit_expression`).
/// With detailed errors every undeclared read is collected and, if there is any, all are
/// returned; otherwise the first one is returned as soon as it is met.
pub fn precompile_ast(
    ast: &mut DatexExpression,
    metadata: &mut AstMetadata,
    scope_stack: &mut PrecompilerScopeStack,
    core_variables: &Vec<(String, PointerAddress)>,
    options: PrecompilerOptions,
) -> (res: Result<(), PrecompilerError>)
    requires
        old(scope_stack).wf(),
        forall|name: Seq<char>|
            #[trigger] lookup(old(scope_stack)@, name) matches Some(id) ==> id < old(
                metadata,
            ).variables@.len(),
    ensures
        final(scope_stack).wf(),
        final(metadata).variables@.len() == old(metadata).variables@.len(),
        res is Ok <==> undeclared_reads(
            *old(ast),
            visible_variables(old(scope_stack)@),
            core_variables@,
        ).len() == 0,
        res is Ok || options.detailed_errors ==> {
            &&& final(scope_stack)@ == old(scope_stack)@
            &&& resolved_to(
                *final(ast),
                *old(ast),
                visible_variables(old(scope_stack)@),
                core_variables@,
            )
            &&& forall|id: int|
                0 <= id < old(metadata).variables@.len() ==> #[trigger] final(metadata).variables@[id]
                    == marked(
                    old(metadata).variables@[id],
                    reads_variable(*old(ast), visible_variables(old(scope_stack)@), id as usize),
                    current_realm(old(scope_stack)@),
                )
        },
        match res {
            Err(PrecompilerError::Detailed(errors)) => options.detailed_errors && reports_undeclared(
                errors.errors@,
                undeclared_reads(*old(ast), visible_variables(old(scope_stack)@), core_variables@),
            ),
            Err(PrecompilerError::Simple(e)) => !options.detailed_errors && (e.error matches CompilerError::UndeclaredVariable(
                n,
            ) && n@ == undeclared_reads(
                *old(ast),
                visible_variables(old(scope_stack)@),
                core_variables@,
            )[0] && e.span is None),
            Ok(()) => true,
        },
{
    let mut collected_errors: Option<DetailedCompilerErrors> = if options.detailed_errors {
        Some(DetailedCompilerErrors::new())
    } else {
        None
    };
    match visit_expression(
        ast,
        metadata,
        scope_stack,
        NewScopeType::KeepScope,
        core_variables,
        &mut collected_errors,
    ) {
        Ok(()) => {},
        Err(e) => {
            return Err(PrecompilerError::Simple(e));
        },
    }
    match collected_errors {
        Some(errors) => {
            proof {
                assert(errors.errors@.subrange(0, errors.errors@.len() as int) =~= errors.errors@);
            }
            if errors.has_errors() {
                Err(PrecompilerError::Detailed(errors))
            } else {
                Ok(())
            }
        },
        None => Ok(()),
    }
}

} // verus!
