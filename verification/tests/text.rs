use datex_compiler::compiler::lexer::lexer::Lexer;
use datex_compiler::compiler::lexer::Token;
use datex_compiler::compiler::text::{decode_json_unicode_escapes, unescape_text};

/// The text of the single text literal of `src`.
fn literal_text(src: &str) -> String {
    let mut lexer = Token::lexer(src);
    match lexer.next() {
        Some(Ok(Token::StringLiteral(s))) => unescape_text(&s),
        other => panic!("expected a text literal, got {:?}", other),
    }
}

#[test]
fn test_text_double_quotes() {
    assert_eq!(literal_text(r#""Hello, world!""#), "Hello, world!");
}

#[test]
fn test_text_single_quotes() {
    assert_eq!(literal_text(r#"'Hello, world!'"#), "Hello, world!");
}

#[test]
fn test_text_escape_sequences() {
    let src = r#""Hello, \"world\"! \n New line \t tab \uD83D\uDE00 \u2764""#;
    assert_eq!(literal_text(src), "Hello, \"world\"! \n New line \t tab 😀 ❤");
}

#[test]
fn test_text_escape_sequences_2() {
    let src = r#""\u0048\u0065\u006C\u006C\u006F, \u2764\uFE0F, \uD83D\uDE00""#;
    assert_eq!(literal_text(src), "Hello, ❤️, 😀");
}

#[test]
fn test_text_nested_escape_sequences() {
    assert_eq!(literal_text(r#""\\\\""#), "\\\\");
}

#[test]
fn test_text_nested_escape_sequences_2() {
    assert_eq!(literal_text(r#""\\\"""#), "\\\"");
}

#[test]
fn other_escape_sequences() {
    assert_eq!(unescape_text(r#"'a\'b\rc\bd\fe'"#), "a'b\rc\u{8}d\u{c}e");
    assert_eq!(unescape_text("\"\""), "");
}

#[test]
fn escapes_are_replaced_in_order() {
    // `\\n` holds the escape `\n` after a backslash, which is replaced first.
    assert_eq!(unescape_text(r#""\\n""#), "\\\n");
}

#[test]
fn unicode_escapes() {
    assert_eq!(decode_json_unicode_escapes(r"\u00e9"), "é");
    assert_eq!(decode_json_unicode_escapes(r"a\u0041b"), "aAb");
    assert_eq!(decode_json_unicode_escapes(r"\uD83D\uDE00!"), "😀!");
    assert_eq!(decode_json_unicode_escapes(r"\u+04A"), "J");
    assert_eq!(decode_json_unicode_escapes("no escapes"), "no escapes");
}

#[test]
fn invalid_unicode_escapes_are_written_back() {
    // not hexadecimal
    assert_eq!(decode_json_unicode_escapes(r"\uzzzz!"), r"\uzzzz!");
    // a lone low surrogate
    assert_eq!(decode_json_unicode_escapes(r"\ude00."), r"\uDE00.");
    // a high surrogate without a second escape drops the character looked at
    assert_eq!(decode_json_unicode_escapes(r"\ud83dxy"), r"\uD83Dy");
    // a high surrogate followed by an escape that is not a low surrogate
    assert_eq!(decode_json_unicode_escapes(r"\uD83D\u0041z"), r"\uD83D\u0041z");
}

#[test]
fn escapes_cut_short_by_the_end() {
    assert_eq!(decode_json_unicode_escapes(r"\u"), r"\u\u");
    assert_eq!(decode_json_unicode_escapes(r"\u4"), "\\u4\u{4}");
    assert_eq!(decode_json_unicode_escapes(r"\uD83D\uDE"), r"\uD83D\uDE\uD83D\uDE");
}
