use datex_compiler::ast::expression::DatexExpression;
use datex_compiler::compiler::lexer::Token;
use datex_compiler::compiler::parser::parse_tokens;
use datex_compiler::compiler::operations::{ComparisonOperator, OperationMode};
use datex_compiler::compiler::parser::{parse, ParserError};
use datex_compiler::values::core_values::{Decimal, Integer, TypedInteger};

fn parse_unwrap(src: &str) -> DatexExpression {
    parse(src).unwrap()
}

fn parse_error(src: &str) -> Vec<ParserError> {
    parse(src).unwrap_err()
}

fn assert_expr(actual: DatexExpression, expected: DatexExpression) {
    assert_eq!(format!("{:?}", actual), format!("{:?}", expected));
}

fn integer(v: i128) -> DatexExpression {
    DatexExpression::Integer(Integer { value: v })
}

fn text(s: &str) -> DatexExpression {
    DatexExpression::Text(s.to_string())
}

fn var(name: &str) -> DatexExpression {
    DatexExpression::VariableAccess(name.to_string())
}

fn bin(mode: OperationMode, l: DatexExpression, r: DatexExpression) -> DatexExpression {
    DatexExpression::BinaryOperation(mode, Box::new(l), Box::new(r))
}

fn cmp(op: ComparisonOperator, l: DatexExpression, r: DatexExpression) -> DatexExpression {
    DatexExpression::ComparisonOperation(op, Box::new(l), Box::new(r))
}

#[test]
fn test_equal_operators() {
    let sum = || bin(OperationMode::Add, integer(1), integer(2));
    assert_expr(parse_unwrap("3 == 1 + 2"), cmp(ComparisonOperator::StructuralEqual, integer(3), sum()));
    assert_expr(parse_unwrap("3 === 1 + 2"), cmp(ComparisonOperator::Equal, integer(3), sum()));
    assert_expr(parse_unwrap("5 != 1 + 2"), cmp(ComparisonOperator::NotStructuralEqual, integer(5), sum()));
    assert_expr(parse_unwrap("5 !== 1 + 2"), cmp(ComparisonOperator::NotEqual, integer(5), sum()));
    assert_expr(parse_unwrap("5 is 1 + 2"), cmp(ComparisonOperator::Is, integer(5), sum()));
}

#[test]
fn ast_parser_test_null() {
    assert_expr(parse_unwrap("null"), DatexExpression::Null);
}

#[test]
fn ast_parser_test_boolean() {
    assert_expr(parse_unwrap("true"), DatexExpression::Boolean(true));
    assert_expr(parse_unwrap("false"), DatexExpression::Boolean(false));
}

#[test]
fn ast_parser_test_integer() {
    assert_expr(parse_unwrap("123456789123456789"), integer(123456789123456789));
}

#[test]
fn ast_parser_test_negative_integer() {
    assert_expr(parse_unwrap("-123456789123456789"), integer(-123456789123456789));
}

#[test]
fn ast_parser_test_integer_with_underscores() {
    assert_expr(parse_unwrap("123_456"), integer(123456));
}

#[test]
fn ast_parser_test_hex_integer() {
    assert_expr(parse_unwrap("0x1A2B3C4D5E6F"), integer(0x1A2B3C4D5E6F));
}

#[test]
fn ast_parser_test_octal_integer() {
    assert_expr(parse_unwrap("0o755"), integer(0o755));
}

#[test]
fn ast_parser_test_binary_integer() {
    assert_expr(parse_unwrap("0b101010"), integer(0b101010));
}

#[test]
fn ast_parser_test_text_double_quotes() {
    assert_expr(parse_unwrap(r#""Hello, world!""#), text("Hello, world!"));
}

#[test]
fn ast_parser_test_text_single_quotes() {
    assert_expr(parse_unwrap(r#"'Hello, world!'"#), text("Hello, world!"));
}

#[test]
fn ast_parser_test_text_escape_sequences() {
    let src = r#""Hello, \"world\"! \n New line \t tab \uD83D\uDE00 \u2764""#;
    assert_expr(parse_unwrap(src), text("Hello, \"world\"! \n New line \t tab 😀 ❤"));
}

#[test]
fn ast_parser_test_text_escape_sequences_2() {
    let src = r#""\u0048\u0065\u006C\u006C\u006F, \u2764\uFE0F, \uD83D\uDE00""#;
    assert_expr(parse_unwrap(src), text("Hello, ❤️, 😀"));
}

#[test]
fn ast_parser_test_text_nested_escape_sequences() {
    assert_expr(parse_unwrap(r#""\\\\""#), text("\\\\"));
}

#[test]
fn ast_parser_test_text_nested_escape_sequences_2() {
    assert_expr(parse_unwrap(r#""\\\"""#), text("\\\""));
}

#[test]
fn ast_parser_test_empty_array() {
    assert_expr(parse_unwrap("[]"), DatexExpression::List(vec![]));
}

#[test]
fn ast_parser_test_empty_object() {
    assert_expr(parse_unwrap("{}"), DatexExpression::KeyValueMap(vec![]));
}

#[test]
fn ast_parser_test_scoped_atom() {
    assert_expr(parse_unwrap("(1)"), integer(1));
}

#[test]
fn ast_parser_test_scoped_array() {
    assert_expr(parse_unwrap("(([1, 2, 3]))"), DatexExpression::List(vec![integer(1), integer(2), integer(3)]));
}

#[test]
fn ast_parser_test_object_with_key_value_pairs() {
    let src = r#"{"key1": "value1", "key2": 42, "key3": true}"#;
    assert_expr(
        parse_unwrap(src),
        DatexExpression::KeyValueMap(vec![
            (text("key1"), text("value1")),
            (text("key2"), integer(42)),
            (text("key3"), DatexExpression::Boolean(true)),
        ]),
    );
}

#[test]
fn ast_parser_test_dynamic_object_keys() {
    let src = r#"{(1): "value1", (2): 42, (3): true}"#;
    assert_expr(
        parse_unwrap(src),
        DatexExpression::KeyValueMap(vec![
            (integer(1), text("value1")),
            (integer(2), integer(42)),
            (integer(3), DatexExpression::Boolean(true)),
        ]),
    );
}

#[test]
fn ast_parser_test_add() {
    assert_expr(parse_unwrap("1 + 2"), bin(OperationMode::Add, integer(1), integer(2)));
}

#[test]
fn ast_parser_test_add_complex_values() {
    assert_expr(
        parse_unwrap("[] + x + (1 + 2)"),
        bin(
            OperationMode::Add,
            bin(OperationMode::Add, DatexExpression::List(vec![]), var("x")),
            bin(OperationMode::Add, integer(1), integer(2)),
        ),
    );
}

#[test]
fn ast_parser_test_subtract() {
    assert_expr(parse_unwrap("5 - 3"), bin(OperationMode::Subtract, integer(5), integer(3)));
}

#[test]
fn ast_parser_test_multiply() {
    assert_expr(parse_unwrap("4 * 2"), bin(OperationMode::Multiply, integer(4), integer(2)));
}

#[test]
fn ast_parser_test_divide() {
    assert_expr(parse_unwrap("8 / 2"), bin(OperationMode::Divide, integer(8), integer(2)));
}

#[test]
fn ast_parser_test_complex_calculation() {
    assert_expr(
        parse_unwrap("1 + 2 * 3 + 4"),
        bin(
            OperationMode::Add,
            bin(OperationMode::Add, integer(1), bin(OperationMode::Multiply, integer(2), integer(3))),
            integer(4),
        ),
    );
}

#[test]
fn ast_parser_test_nested_addition() {
    assert_expr(
        parse_unwrap("1 + (2 + 3)"),
        bin(OperationMode::Add, integer(1), bin(OperationMode::Add, integer(2), integer(3))),
    );
}

#[test]
fn ast_parser_test_add_statements_1() {
    assert_expr(
        parse_unwrap("1 + (2;3)"),
        bin(OperationMode::Add, integer(1), DatexExpression::Statements(vec![integer(2), integer(3)], false, None)),
    );
}

#[test]
fn ast_parser_test_add_statements_2() {
    assert_expr(
        parse_unwrap("(1;2) + 3"),
        bin(OperationMode::Add, DatexExpression::Statements(vec![integer(1), integer(2)], false, None), integer(3)),
    );
}

#[test]
fn ast_parser_test_nested_expressions() {
    assert_expr(
        parse_unwrap("[1 + 2]"),
        DatexExpression::List(vec![bin(OperationMode::Add, integer(1), integer(2))]),
    );
}

#[test]
fn ast_parser_multi_statement_expression() {
    assert_expr(parse_unwrap("1;2"), DatexExpression::Statements(vec![integer(1), integer(2)], false, None));
}

#[test]
fn ast_parser_nested_scope_statements() {
    assert_expr(
        parse_unwrap("(1; 2; 3)"),
        DatexExpression::Statements(vec![integer(1), integer(2), integer(3)], false, None),
    );
}

#[test]
fn ast_parser_nested_scope_statements_closed() {
    assert_expr(
        parse_unwrap("(1; 2; 3;)"),
        DatexExpression::Statements(vec![integer(1), integer(2), integer(3)], true, None),
    );
}

#[test]
fn ast_parser_nested_statements_in_object() {
    assert_expr(
        parse_unwrap(r#"{"key": (1; 2; 3)}"#),
        DatexExpression::KeyValueMap(vec![(
            text("key"),
            DatexExpression::Statements(vec![integer(1), integer(2), integer(3)], false, None),
        )]),
    );
}

#[test]
fn ast_parser_test_single_statement() {
    assert_expr(parse_unwrap("1;"), DatexExpression::Statements(vec![integer(1)], true, None));
}

#[test]
fn ast_parser_test_empty_statement() {
    assert_expr(parse_unwrap(";"), DatexExpression::Statements(vec![], false, None));
}

#[test]
fn ast_parser_test_empty_statement_multiple() {
    assert_expr(parse_unwrap(";;;"), DatexExpression::Statements(vec![], false, None));
}

#[test]
fn ast_parser_test_variable_expression() {
    assert_expr(parse_unwrap("myVar"), var("myVar"));
}

#[test]
fn ast_parser_test_variable_expression_with_operations() {
    assert_expr(parse_unwrap("myVar + 1"), bin(OperationMode::Add, var("myVar"), integer(1)));
}

#[test]
fn ast_parser_test_placeholder() {
    assert_expr(parse_unwrap("?"), DatexExpression::Placeholder);
}

#[test]
fn ast_parser_test_decimal_nan() {
    assert_expr(parse_unwrap("NaN"), DatexExpression::Decimal(Decimal::Nan));
    assert_expr(parse_unwrap("nan"), DatexExpression::Decimal(Decimal::Nan));
}

#[test]
fn ast_parser_test_decimal_infinity() {
    assert_expr(parse_unwrap("Infinity"), DatexExpression::Decimal(Decimal::Infinity));
    assert_expr(parse_unwrap("-Infinity"), DatexExpression::Decimal(Decimal::NegInfinity));
    assert_expr(parse_unwrap("infinity"), DatexExpression::Decimal(Decimal::Infinity));
    assert_expr(parse_unwrap("-infinity"), DatexExpression::Decimal(Decimal::NegInfinity));
}

#[test]
fn ast_parser_test_comment() {
    assert_expr(parse_unwrap("// This is a comment\n1 + 2"), bin(OperationMode::Add, integer(1), integer(2)));
    assert_expr(parse_unwrap("1 + //test\n2"), bin(OperationMode::Add, integer(1), integer(2)));
}

#[test]
fn ast_parser_test_multiline_comment() {
    assert_expr(
        parse_unwrap("/* This is a\nmultiline comment */\n1 + 2"),
        bin(OperationMode::Add, integer(1), integer(2)),
    );
    assert_expr(parse_unwrap("1 + /*test*/ 2"), bin(OperationMode::Add, integer(1), integer(2)));
}

#[test]
fn typed_integer_literals_take_their_type() {
    assert_expr(parse_unwrap("1u8"), DatexExpression::TypedInteger(TypedInteger::U8(1)));
    assert_expr(parse_unwrap("-5i16"), DatexExpression::TypedInteger(TypedInteger::I16(-5)));
    assert_expr(parse_unwrap("0xffu8"), DatexExpression::TypedInteger(TypedInteger::U8(255)));
    assert_expr(
        parse_unwrap("1u8 + 2u8"),
        bin(
            OperationMode::Add,
            DatexExpression::TypedInteger(TypedInteger::U8(1)),
            DatexExpression::TypedInteger(TypedInteger::U8(2)),
        ),
    );
}

#[test]
fn out_of_range_literals_are_refused() {
    assert_eq!(parse_error("256u8"), vec![ParserError::UnexpectedToken]);
    assert_eq!(parse_error("-1u32"), vec![ParserError::UnexpectedToken]);
    assert_eq!(
        parse_error("170141183460469231731687303715884105728"),
        vec![ParserError::UnexpectedToken]
    );
    assert_expr(
        parse_unwrap("-170141183460469231731687303715884105728"),
        integer(i128::MIN),
    );
}

#[test]
fn operators_need_whitespace_around_them() {
    assert_eq!(parse_error("1 +2"), vec![ParserError::UnexpectedToken]);
    assert_eq!(parse_error("(1 2)"), vec![ParserError::UnexpectedToken]);
}

#[test]
fn lists_and_maps_allow_a_trailing_comma() {
    assert_expr(parse_unwrap("[1, 2,]"), DatexExpression::List(vec![integer(1), integer(2)]));
    assert_expr(
        parse_unwrap("{a: 1, b: [x],}"),
        DatexExpression::KeyValueMap(vec![
            (text("a"), integer(1)),
            (text("b"), DatexExpression::List(vec![var("x")])),
        ]),
    );
    assert_eq!(parse_error("[1 2]"), vec![ParserError::UnexpectedToken]);
    assert_eq!(parse_error("{a 1}"), vec![ParserError::UnexpectedToken]);
}

#[test]
fn an_empty_script_is_an_empty_block() {
    assert_expr(parse_unwrap(""), DatexExpression::Statements(vec![], false, None));
    assert_expr(parse_unwrap("1;; 2;"), DatexExpression::Statements(vec![integer(1), integer(2)], true, None));
}

#[test]
fn test_shebang() {
    assert_expr(parse_unwrap("#!/usr/bin/env datex\n1 + 2"), bin(OperationMode::Add, integer(1), integer(2)));
    assert!(parse("1;\n#!/usr/bin/env datex\n2").is_err());
}

#[test]
fn tokens_that_start_nowhere_are_invalid() {
    assert!(matches!(parse_error("1 + \u{0}").as_slice(), [ParserError::InvalidToken(_)]));
}

#[test]
fn parsing_tokens_directly() {
    let tokens = vec![
        Token::True,
        Token::Whitespace,
        Token::Is,
        Token::Whitespace,
        Token::Null,
    ];
    assert_expr(
        parse_tokens(&tokens).unwrap(),
        cmp(ComparisonOperator::Is, DatexExpression::Boolean(true), DatexExpression::Null),
    );
    assert_eq!(parse_tokens(&vec![Token::Is]).unwrap_err(), ParserError::UnexpectedToken);
}
