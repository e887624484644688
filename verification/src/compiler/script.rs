//! Compiling DATEX script text: parsing, preparing the script for the execution mode, and
//! compiling it to bytecode.
use vstd::prelude::*;
use crate::ast::expression::DatexExpression;
use crate::compiler::context::{is_address_order, slots_remapped, CompilationContext, ExecutionMode, VirtualSlot};
use crate::compiler::error::CompilerError;
use crate::compiler::expression_compiler::{
    compile_ast_or_return_static_value, compile_rich_ast, insertable, non_static, register_reads,
    resolved_slots, declared_names, expression_bytes, first_undeclared, made_statements,
    placeholder_count, prepare_script, script_section, script_slots,
};
use crate::compiler::lexer::token::Token;
use crate::compiler::parser::{
    expression_is, has_shebang, lex_fails, lexes, line_end_from, parse, script_syntax,
    without_shebang, ParserError,
};
use crate::compiler::scope::{resolvable, CompilationScope};
use crate::compiler::static_value::{extract_static_value_from_ast, is_static_expression, value_of_expression};
use crate::values::value::ValueContainer;
use crate::compiler::StaticValueOrDXB;

verus! {

/// Why a script could not be compiled.
#[derive(Debug)]
pub enum ScriptError {
    /// The text is no script.
    Parser(Vec<ParserError>),
    /// The script could not be compiled.
    Compiler(CompilerError),
}

/// `e` is the expression that `parse` gives for the script text `src`.
pub open spec fn parsed_script(src: Seq<char>, e: DatexExpression) -> bool {
    exists|toks: Seq<Token>|
        lexes(without_shebang(src), toks) && (#[trigger] script_syntax(toks) matches Some(x)
            && expression_is(e, x))
}

/// `p` is the parsed script `e` prepared for an execution in `mode` with a scope that
/// `was_used` before (see `prepare_script`).
pub open spec fn prepared(
    e: DatexExpression,
    p: DatexExpression,
    mode: ExecutionMode,
    was_used: bool,
) -> bool {
    match mode {
        ExecutionMode::Unbounded { .. } => made_statements(e, p, script_section(mode, was_used)),
        ExecutionMode::Static => p == e,
    }
}

/// Every parse of `src`, prepared for `mode`, takes no more than the inserted `values` for its
/// placeholders, each of them encodable, and has bytecode shorter than 4 GiB.
pub open spec fn compilable_template(
    src: Seq<char>,
    values: Seq<ValueContainer>,
    mode: ExecutionMode,
    was_used: bool,
) -> bool {
    forall|e: DatexExpression, p: DatexExpression|
        #![trigger parsed_script(src, e), prepared(e, p, mode, was_used)]
        parsed_script(src, e) && prepared(e, p, mode, was_used) ==> insertable(
            values,
            0,
            placeholder_count(p),
        ) && expression_bytes(p, values, 0).len() < 0x1_0000_0000
}

/// As `compilable_template`, with no inserted values: every parse has no placeholders.
pub open spec fn compilable_script(src: Seq<char>, mode: ExecutionMode, was_used: bool) -> bool {
    compilable_template(src, Seq::empty(), mode, was_used)
}

/// `bytes` is the bytecode of `p` compiled in `scope` with the inserted `values`, with the
/// placeholder of every virtual slot replaced by its slot address.
pub open spec fn compiled_template(
    bytes: Seq<u8>,
    p: DatexExpression,
    values: Seq<ValueContainer>,
    scope: CompilationScope,
) -> bool {
    let slots = register_reads(Map::empty(), p, resolved_slots(scope), 0, values, 0);
    exists|externals: Seq<VirtualSlot>, locals: Seq<VirtualSlot>|
        #![trigger is_address_order(externals, slots.dom(), true), is_address_order(locals, slots.dom(), false)]
        is_address_order(externals, slots.dom(), true) && is_address_order(locals, slots.dom(), false)
            && slots_remapped(bytes, expression_bytes(p, values, 0), slots, externals + locals)
}

/// `bytes` is the bytecode of `p` compiled in `scope`, with the placeholder of every virtual
/// slot replaced by its slot address.
pub open spec fn compiled_script(bytes: Seq<u8>, p: DatexExpression, scope: CompilationScope) -> bool {
    exists|externals: Seq<VirtualSlot>, locals: Seq<VirtualSlot>|
        #![trigger is_address_order(externals, script_slots(p, scope).dom(), true), is_address_order(locals, script_slots(p, scope).dom(), false)]
        is_address_order(externals, script_slots(p, scope).dom(), true) && is_address_order(
            locals,
            script_slots(p, scope).dom(),
            false,
        ) && slots_remapped(bytes, expression_bytes(p, Seq::empty(), 0), script_slots(p, scope), externals + locals)
}

/// Compiles DATEX script text with the values inserted for its placeholders (`?`, in order)
/// to bytecode in `mode` with `scope`: the text is parsed (see `parse`), prepared for the
/// execution mode (see `prepare_script`), and compiled as the outer context of a script (see
/// `compile_rich_ast`); the scope comes back marked as used. A scope that was used before
/// cannot be used again in a static execution.
pub fn compile_template(
    src: &str,
    inserted_values: Vec<ValueContainer>,
    scope: CompilationScope,
    mode: ExecutionMode,
) -> (res: Result<(Vec<u8>, CompilationScope), ScriptError>)
    requires
        has_shebang(src@) ==> line_end_from(src@, 0) < src@.len(),
        scope.wf(),
        forall|name: Seq<char>| resolvable(scope, name),
        compilable_template(src@, inserted_values@, mode, scope.was_used),
    ensures
        match res {
            Ok((bytes, s)) => exists|e: DatexExpression, p: DatexExpression|
                #![trigger parsed_script(src@, e), prepared(e, p, mode, scope.was_used)]
                parsed_script(src@, e) && prepared(e, p, mode, scope.was_used) && !(mode is Static
                    && scope.was_used) && first_undeclared(p, declared_names(scope)) is None
                    && compiled_template(bytes@, p, inserted_values@, scope) && s == (CompilationScope {
                    was_used: true,
                    ..scope
                }),
            Err(ScriptError::Parser(errors)) => errors@.len() == 1 && match errors@[0] {
                ParserError::InvalidToken(_) => lex_fails(without_shebang(src@)),
                ParserError::UnexpectedToken => exists|toks: Seq<Token>|
                    lexes(without_shebang(src@), toks) && #[trigger] script_syntax(toks) is None,
            },
            Err(ScriptError::Compiler(err)) => exists|e: DatexExpression|
                #![trigger parsed_script(src@, e)]
                parsed_script(src@, e) && if mode is Static && scope.was_used {
                    err == CompilerError::OnceScopeUsedMultipleTimes
                } else {
                    exists|p: DatexExpression|
                        #![trigger prepared(e, p, mode, scope.was_used)]
                        prepared(e, p, mode, scope.was_used) && (err matches CompilerError::UndeclaredVariable(name)
                            && first_undeclared(p, declared_names(scope)) == Some(name@))
                },
        },
{
    let mut ast = match parse(src) {
        Ok(e) => e,
        Err(errors) => {
            return Err(ScriptError::Parser(errors));
        },
    };
    let ghost e = ast;
    assert(parsed_script(src@, e));
    let static_mode = match mode {
        ExecutionMode::Static => true,
        ExecutionMode::Unbounded { .. } => false,
    };
    if static_mode && scope.was_used {
        return Err(ScriptError::Compiler(CompilerError::OnceScopeUsedMultipleTimes));
    }
    let _ = prepare_script(&mut ast, mode, scope.was_used);
    assert(prepared(e, ast, mode, scope.was_used));
    let ghost p = ast;
    let ghost values = inserted_values@;
    let mut ctx = CompilationContext::new(Vec::with_capacity(256), inserted_values, mode);
    match compile_rich_ast(&mut ctx, &ast, scope) {
        Ok(s) => {
            let mut s = s;
            s.was_used = true;
            assert(compiled_template(ctx.buffer@, p, values, scope));
            Ok((ctx.buffer, s))
        },
        Err(err) => Err(ScriptError::Compiler(err)),
    }
}

/// Compiles DATEX script text to bytecode in `mode` with `scope`, with no inserted values (see
/// `compile_template`).
pub fn compile_script(src: &str, scope: CompilationScope, mode: ExecutionMode) -> (res: Result<
    (Vec<u8>, CompilationScope),
    ScriptError,
>)
    requires
        has_shebang(src@) ==> line_end_from(src@, 0) < src@.len(),
        scope.wf(),
        forall|name: Seq<char>| resolvable(scope, name),
        compilable_script(src@, mode, scope.was_used),
    ensures
        match res {
            Ok((bytes, s)) => exists|e: DatexExpression, p: DatexExpression|
                #![trigger parsed_script(src@, e), prepared(e, p, mode, scope.was_used)]
                parsed_script(src@, e) && prepared(e, p, mode, scope.was_used) && !(mode is Static
                    && scope.was_used) && first_undeclared(p, declared_names(scope)) is None
                    && compiled_script(bytes@, p, scope) && s == (CompilationScope {
                    was_used: true,
                    ..scope
                }),
            Err(ScriptError::Parser(errors)) => errors@.len() == 1 && match errors@[0] {
                ParserError::InvalidToken(_) => lex_fails(without_shebang(src@)),
                ParserError::UnexpectedToken => exists|toks: Seq<Token>|
                    lexes(without_shebang(src@), toks) && #[trigger] script_syntax(toks) is None,
            },
            Err(ScriptError::Compiler(err)) => exists|e: DatexExpression|
                #![trigger parsed_script(src@, e)]
                parsed_script(src@, e) && if mode is Static && scope.was_used {
                    err == CompilerError::OnceScopeUsedMultipleTimes
                } else {
                    exists|p: DatexExpression|
                        #![trigger prepared(e, p, mode, scope.was_used)]
                        prepared(e, p, mode, scope.was_used) && (err matches CompilerError::UndeclaredVariable(name)
                            && first_undeclared(p, declared_names(scope)) == Some(name@))
                },
        },
{
    let values: Vec<ValueContainer> = Vec::new();
    assert(values@ =~= Seq::<ValueContainer>::empty());
    let res = compile_template(src, values, scope, mode);
    proof {
        if res is Ok {
            let bytes = res->Ok_0.0;
            let s = res->Ok_0.1;
            let (e, p) = choose|e: DatexExpression, p: DatexExpression|
                #![trigger parsed_script(src@, e), prepared(e, p, mode, scope.was_used)]
                parsed_script(src@, e) && prepared(e, p, mode, scope.was_used) && !(mode is Static
                    && scope.was_used) && first_undeclared(p, declared_names(scope)) is None
                    && compiled_template(bytes@, p, Seq::empty(), scope) && s == (CompilationScope {
                    was_used: true,
                    ..scope
                });
            let slots = script_slots(p, scope);
            let (externals, locals) = choose|externals: Seq<VirtualSlot>, locals: Seq<VirtualSlot>|
                #![trigger is_address_order(externals, slots.dom(), true), is_address_order(locals, slots.dom(), false)]
                is_address_order(externals, slots.dom(), true) && is_address_order(locals, slots.dom(), false)
                    && slots_remapped(bytes@, expression_bytes(p, Seq::empty(), 0), slots, externals + locals);
            assert(compiled_script(bytes@, p, scope));
        }
    }
    res
}

/// The value of a static script: the text is parsed (see `parse`) and the value of its
/// expression extracted (see `extract_static_value_from_ast`); `NonStaticValue` for a script
/// that is not static.
pub fn extract_static_value_from_script(src: &str) -> (res: Result<
    Option<ValueContainer>,
    ScriptError,
>)
    requires
        has_shebang(src@) ==> line_end_from(src@, 0) < src@.len(),
    ensures
        match res {
            Ok(v) => exists|e: DatexExpression|
                #![trigger parsed_script(src@, e)]
                parsed_script(src@, e) && is_static_expression(e) && (v matches Some(vc)
                    && value_of_expression(e, vc)),
            Err(ScriptError::Parser(errors)) => errors@.len() == 1 && match errors@[0] {
                ParserError::InvalidToken(_) => lex_fails(without_shebang(src@)),
                ParserError::UnexpectedToken => exists|toks: Seq<Token>|
                    lexes(without_shebang(src@), toks) && #[trigger] script_syntax(toks) is None,
            },
            Err(ScriptError::Compiler(err)) => err == CompilerError::NonStaticValue && exists|
                e: DatexExpression,
            |
                #![trigger parsed_script(src@, e)]
                parsed_script(src@, e) && !is_static_expression(e),
        },
{
    let ast = match parse(src) {
        Ok(e) => e,
        Err(errors) => {
            return Err(ScriptError::Parser(errors));
        },
    };
    assert(parsed_script(src@, ast));
    match extract_static_value_from_ast(&ast) {
        Ok(vc) => Ok(Some(vc)),
        Err(err) => Err(ScriptError::Compiler(err)),
    }
}

/// Compiles DATEX script text as `compile_script` does, but gives the value of a script that
/// is static in place of its bytecode (see `compile_ast_or_return_static_value`).
pub fn compile_script_or_return_static_value(
    src: &str,
    scope: CompilationScope,
    mode: ExecutionMode,
) -> (res: Result<(StaticValueOrDXB, CompilationScope), ScriptError>)
    requires
        has_shebang(src@) ==> line_end_from(src@, 0) < src@.len(),
        scope.wf(),
        forall|name: Seq<char>| resolvable(scope, name),
        compilable_script(src@, mode, scope.was_used),
    ensures
        match res {
            Ok((out, s)) => exists|e: DatexExpression, p: DatexExpression|
                #![trigger parsed_script(src@, e), prepared(e, p, mode, scope.was_used)]
                parsed_script(src@, e) && prepared(e, p, mode, scope.was_used) && !(mode is Static
                    && scope.was_used) && first_undeclared(p, declared_names(scope)) is None && s
                    == (CompilationScope { was_used: true, ..scope }) && match out {
                    StaticValueOrDXB::DXB(bytes) => non_static(p) && compiled_script(
                        bytes@,
                        p,
                        scope,
                    ),
                    StaticValueOrDXB::StaticValue(v) => !non_static(p) && (v matches Some(vc)
                        && value_of_expression(p, vc)),
                },
            Err(ScriptError::Parser(errors)) => errors@.len() == 1 && match errors@[0] {
                ParserError::InvalidToken(_) => lex_fails(without_shebang(src@)),
                ParserError::UnexpectedToken => exists|toks: Seq<Token>|
                    lexes(without_shebang(src@), toks) && #[trigger] script_syntax(toks) is None,
            },
            Err(ScriptError::Compiler(err)) => exists|e: DatexExpression|
                #![trigger parsed_script(src@, e)]
                parsed_script(src@, e) && if mode is Static && scope.was_used {
                    err == CompilerError::OnceScopeUsedMultipleTimes
                } else {
                    exists|p: DatexExpression|
                        #![trigger prepared(e, p, mode, scope.was_used)]
                        prepared(e, p, mode, scope.was_used) && match first_undeclared(
                            p,
                            declared_names(scope),
                        ) {
                            Some(name) => err matches CompilerError::UndeclaredVariable(n) && n@
                                == name,
                            None => err == CompilerError::NonStaticValue && !non_static(p)
                                && !is_static_expression(p),
                        }
                },
        },
{
    let mut ast = match parse(src) {
        Ok(e) => e,
        Err(errors) => {
            return Err(ScriptError::Parser(errors));
        },
    };
    let ghost e = ast;
    assert(parsed_script(src@, e));
    let static_mode = match mode {
        ExecutionMode::Static => true,
        ExecutionMode::Unbounded { .. } => false,
    };
    if static_mode && scope.was_used {
        return Err(ScriptError::Compiler(CompilerError::OnceScopeUsedMultipleTimes));
    }
    let _ = prepare_script(&mut ast, mode, scope.was_used);
    assert(prepared(e, ast, mode, scope.was_used));
    let ghost p = ast;
    match compile_ast_or_return_static_value(&ast, scope, mode) {
        Ok((out, s)) => {
            let mut s = s;
            s.was_used = true;
            proof {
                if out is DXB {
                    assert(compiled_script(out->DXB_0@, p, scope));
                }
            }
            Ok((out, s))
        },
        Err(err) => Err(ScriptError::Compiler(err)),
    }
}

} // verus!
