use datex_compiler::compiler::context::ExecutionMode;
use datex_compiler::compiler::error::CompilerError;
use datex_compiler::compiler::scope::CompilationScope;
use datex_compiler::compiler::script::{compile_script, ScriptError};
use datex_compiler::global::instruction_codes::InstructionCode;

fn code(c: InstructionCode) -> u8 {
    c.byte()
}

/// Compiles the parts of a script one after another in an unbounded execution, with one scope.
fn compile_datex_script_debug_unbounded(parts: Vec<&str>) -> Vec<Vec<u8>> {
    let mut scope = CompilationScope::new(false);
    let n = parts.len();
    let mut out = Vec::new();
    for (i, part) in parts.into_iter().enumerate() {
        let mode = ExecutionMode::Unbounded { has_next: i + 1 < n };
        let (dxb, next_scope) = compile_script(part, scope, mode).unwrap();
        scope = next_scope;
        out.push(dxb);
    }
    out
}

fn assert_unbounded_input_matches_output(input: Vec<&str>, expected_output: Vec<Vec<u8>>) {
    let results = compile_datex_script_debug_unbounded(input);
    assert_eq!(results.len(), expected_output.len());
    for (result, expected) in results.into_iter().zip(expected_output.into_iter()) {
        assert_eq!(result, expected);
    }
}

#[test]
fn compile_continuous_terminated_script() {
    let input = vec!["1u8", "2u8", "3u8;"];
    let expected_output = vec![
        vec![code(InstructionCode::UNBOUNDED_STATEMENTS), code(InstructionCode::UINT_8), 1],
        vec![code(InstructionCode::UINT_8), 2],
        vec![
            code(InstructionCode::UINT_8),
            3,
            code(InstructionCode::UNBOUNDED_STATEMENTS_END),
            1,
        ],
    ];
    assert_unbounded_input_matches_output(input, expected_output);
}

#[test]
fn compile_continuous_unterminated_script() {
    let input = vec!["1u8", "2u8 + 3u8", "3u8"];
    let expected_output = vec![
        vec![code(InstructionCode::UNBOUNDED_STATEMENTS), code(InstructionCode::UINT_8), 1],
        vec![
            code(InstructionCode::ADD),
            code(InstructionCode::UINT_8),
            2,
            code(InstructionCode::UINT_8),
            3,
        ],
        vec![
            code(InstructionCode::UINT_8),
            3,
            code(InstructionCode::UNBOUNDED_STATEMENTS_END),
            0,
        ],
    ];
    assert_unbounded_input_matches_output(input, expected_output);
}

#[test]
fn static_scripts_compile_once_per_scope() {
    let (dxb, scope) =
        compile_script("1u8 * 2u8", CompilationScope::new(true), ExecutionMode::Static).unwrap();
    assert_eq!(
        dxb,
        vec![
            code(InstructionCode::MULTIPLY),
            code(InstructionCode::UINT_8),
            1,
            code(InstructionCode::UINT_8),
            2,
        ]
    );
    assert!(scope.was_used);
    assert!(matches!(
        compile_script("1", scope, ExecutionMode::Static),
        Err(ScriptError::Compiler(CompilerError::OnceScopeUsedMultipleTimes))
    ));
}

#[test]
fn script_errors_are_reported() {
    assert!(matches!(
        compile_script("1 +", CompilationScope::new(true), ExecutionMode::Static),
        Err(ScriptError::Parser(_))
    ));
    match compile_script("x + 1", CompilationScope::new(true), ExecutionMode::Static) {
        Err(ScriptError::Compiler(CompilerError::UndeclaredVariable(name))) => assert_eq!(name, "x"),
        other => panic!("expected an undeclared variable, got {:?}", other.map(|(b, _)| b)),
    }
}

