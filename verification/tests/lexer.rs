use datex_compiler::compiler::lexer::lexer::Lexer;
use datex_compiler::compiler::lexer::{IntegerLiteral, Token, TypedLiteral};
use datex_compiler::values::typed_variants::{DecimalTypeVariant, IntegerTypeVariant};

#[test]
fn integer() {
    let mut lexer = Token::lexer("42");
    assert_eq!(
        lexer.next().unwrap(),
        Ok(Token::DecimalIntegerLiteral(IntegerLiteral {
            value: "42".to_string(),
            variant: None
        }))
    );
}

#[test]
fn integer_type() {
    let mut lexer = Token::lexer("42u8");
    let res = lexer.next().unwrap();
    if let Ok(Token::DecimalIntegerLiteral(literal)) = res {
        assert_eq!(literal.value, "42");
        assert_eq!(literal.variant, Some(IntegerTypeVariant::U8));
        assert_eq!(literal.to_string(), "42u8".to_string());
    } else {
        panic!("Expected DecimalIntegerLiteral with variant U8");
    }

    let mut lexer = Token::lexer("42");
    let res = lexer.next().unwrap();
    if let Ok(Token::DecimalIntegerLiteral(literal)) = res {
        assert_eq!(literal.value, "42");
        assert_eq!(literal.variant, None);
        assert_eq!(literal.to_string(), "42".to_string());
    } else {
        panic!("Expected DecimalIntegerLiteral with no variant");
    }
}

#[test]
fn integer_with_type() {
    let mut lexer = Token::lexer("42u8");
    assert_eq!(
        lexer.next().unwrap(),
        Ok(Token::DecimalIntegerLiteral(IntegerLiteral {
            value: "42".to_string(),
            variant: Some(IntegerTypeVariant::U8)
        }))
    );

    let mut lexer = Token::lexer("42i32");
    assert_eq!(
        lexer.next().unwrap(),
        Ok(Token::DecimalIntegerLiteral(IntegerLiteral {
            value: "42".to_string(),
            variant: Some(IntegerTypeVariant::I32)
        }))
    );

    let mut lexer = Token::lexer("42big");
    assert_eq!(
        lexer.next().unwrap(),
        Ok(Token::DecimalIntegerLiteral(IntegerLiteral {
            value: "42".to_string(),
            variant: Some(IntegerTypeVariant::Big)
        }))
    );
}

#[test]
fn lexer_decimal() {
    let mut lexer = Token::lexer("3.14");
    assert_eq!(
        lexer.next().unwrap(),
        Ok(Token::DecimalLiteral(TypedLiteral::<DecimalTypeVariant> {
            value: "3.14".to_string(),
            variant: None
        }))
    );
}

#[test]
fn decimal_with_type() {
    let mut lexer = Token::lexer("3.14f32");
    assert_eq!(
        lexer.next().unwrap(),
        Ok(Token::DecimalLiteral(TypedLiteral::<DecimalTypeVariant> {
            value: "3.14".to_string(),
            variant: Some(DecimalTypeVariant::F32)
        }))
    );

    let mut lexer = Token::lexer("3.14f64");
    assert_eq!(
        lexer.next().unwrap(),
        Ok(Token::DecimalLiteral(TypedLiteral::<DecimalTypeVariant> {
            value: "3.14".to_string(),
            variant: Some(DecimalTypeVariant::F64)
        }))
    );
}

#[test]
fn infinity() {
    let mut lexer = Token::lexer("Infinity");
    assert_eq!(
        lexer.next().unwrap(),
        Ok(Token::Infinity("Infinity".to_string()))
    );

    let mut lexer = Token::lexer("infinity");
    assert_eq!(
        lexer.next().unwrap(),
        Ok(Token::Infinity("infinity".to_string()))
    );

    let mut lexer = Token::lexer("-Infinity");
    assert_eq!(
        lexer.next().unwrap(),
        Ok(Token::Infinity("-Infinity".to_string()))
    );

    let mut lexer = Token::lexer("+Infinity");
    assert_eq!(
        lexer.next().unwrap(),
        Ok(Token::Infinity("+Infinity".to_string()))
    );
}

#[test]
fn nan() {
    let mut lexer = Token::lexer("NaN");
    assert_eq!(lexer.next().unwrap(), Ok(Token::Nan));

    let mut lexer = Token::lexer("nan");
    assert_eq!(lexer.next().unwrap(), Ok(Token::Nan));

    let mut lexer = Token::lexer("-NaN");
    assert_eq!(lexer.next().unwrap(), Ok(Token::Nan));

    let mut lexer = Token::lexer("+NaN");
    assert_eq!(lexer.next().unwrap(), Ok(Token::Nan));
}

#[test]
fn fraction() {
    let mut lexer = Token::lexer("1/2");
    assert_eq!(
        lexer.next().unwrap(),
        Ok(Token::FractionLiteral("1/2".to_string()))
    );

    let mut lexer = Token::lexer("-3/4");
    assert_eq!(
        lexer.next().unwrap(),
        Ok(Token::FractionLiteral("-3/4".to_string()))
    );

    let mut lexer = Token::lexer("+5/6");
    assert_eq!(
        lexer.next().unwrap(),
        Ok(Token::FractionLiteral("+5/6".to_string()))
    );
}

#[test]
fn hexadecimal_integer() {
    let mut lexer = Token::lexer("0x1A3F");
    assert_eq!(
        lexer.next().unwrap(),
        Ok(Token::HexadecimalIntegerLiteral(IntegerLiteral {
            value: "0x1A3F".to_string(),
            variant: None
        }))
    );

    let mut lexer = Token::lexer("0XABC");
    assert_eq!(
        lexer.next().unwrap(),
        Ok(Token::HexadecimalIntegerLiteral(IntegerLiteral {
            value: "0XABC".to_string(),
            variant: None
        }))
    );
}

#[test]
fn binary_integer() {
    let mut lexer = Token::lexer("0b1010");
    assert_eq!(
        lexer.next().unwrap(),
        Ok(Token::BinaryIntegerLiteral(IntegerLiteral {
            value: "0b1010".to_string(),
            variant: None
        }))
    );

    let mut lexer = Token::lexer("0B1101");
    assert_eq!(
        lexer.next().unwrap(),
        Ok(Token::BinaryIntegerLiteral(IntegerLiteral {
            value: "0B1101".to_string(),
            variant: None
        }))
    );
}

#[test]
fn octal_integer() {
    let mut lexer = Token::lexer("0o755");
    assert_eq!(
        lexer.next().unwrap(),
        Ok(Token::OctalIntegerLiteral(IntegerLiteral {
            value: "0o755".to_string(),
            variant: None
        }))
    );

    let mut lexer = Token::lexer("0O644");
    assert_eq!(
        lexer.next().unwrap(),
        Ok(Token::OctalIntegerLiteral(IntegerLiteral {
            value: "0O644".to_string(),
            variant: None
        }))
    );
}

#[test]
fn integers_with_underscores() {
    let mut lexer = Token::lexer("1_000");
    assert_eq!(
        lexer.next().unwrap(),
        Ok(Token::DecimalIntegerLiteral(IntegerLiteral {
            value: "1_000".to_string(),
            variant: None
        }))
    );

    let mut lexer = Token::lexer("0xFF_FF_FF");
    assert_eq!(
        lexer.next().unwrap(),
        Ok(Token::HexadecimalIntegerLiteral(IntegerLiteral {
            value: "0xFF_FF_FF".to_string(),
            variant: None
        }))
    );

    let mut lexer = Token::lexer("0b1010_1010");
    assert_eq!(
        lexer.next().unwrap(),
        Ok(Token::BinaryIntegerLiteral(IntegerLiteral {
            value: "0b1010_1010".to_string(),
            variant: None
        }))
    );
}

#[test]
fn decimals_with_underscores() {
    let mut lexer = Token::lexer("1_000.123_456");
    assert_eq!(
        lexer.next().unwrap(),
        Ok(Token::DecimalLiteral(TypedLiteral::<DecimalTypeVariant> {
            value: "1_000.123_456".to_string(),
            variant: None
        }))
    );

    let mut lexer = Token::lexer("0.123_456e2");
    assert_eq!(
        lexer.next().unwrap(),
        Ok(Token::DecimalLiteral(TypedLiteral::<DecimalTypeVariant> {
            value: "0.123_456e2".to_string(),
            variant: None
        }))
    );

    let mut lexer = Token::lexer("1.234_567e-8");
    assert_eq!(
        lexer.next().unwrap(),
        Ok(Token::DecimalLiteral(TypedLiteral::<DecimalTypeVariant> {
            value: "1.234_567e-8".to_string(),
            variant: None
        }))
    );
}

#[test]
fn add() {
    let mut lexer = Token::lexer("1 + 2");
    assert_eq!(
        lexer.next().unwrap(),
        Ok(Token::DecimalIntegerLiteral(IntegerLiteral {
            value: "1".to_string(),
            variant: None
        }))
    );
    assert_eq!(lexer.next().unwrap(), Ok(Token::Whitespace));
    assert_eq!(lexer.next().unwrap(), Ok(Token::Plus));
    assert_eq!(lexer.next().unwrap(), Ok(Token::Whitespace));
    assert_eq!(
        lexer.next().unwrap(),
        Ok(Token::DecimalIntegerLiteral(IntegerLiteral {
            value: "2".to_string(),
            variant: None
        }))
    );
    assert_eq!(lexer.next(), None);
}

#[test]
fn invalid_add() {
    let mut lexer = Token::lexer("1+2");
    assert_eq!(
        lexer.next().unwrap(),
        Ok(Token::DecimalIntegerLiteral(IntegerLiteral {
            value: "1".to_string(),
            variant: None
        }))
    );
    assert_eq!(
        lexer.next().unwrap(),
        Ok(Token::DecimalIntegerLiteral(IntegerLiteral {
            value: "+2".to_string(),
            variant: None
        }))
    );
}

#[test]
fn invalid_fraction() {
    let mut lexer = Token::lexer("42.4/3");
    assert_eq!(
        lexer.next().unwrap(),
        Ok(Token::DecimalLiteral(TypedLiteral::<DecimalTypeVariant> {
            value: "42.4".to_string(),
            variant: None
        }))
    );
    assert_eq!(lexer.next().unwrap(), Ok(Token::Slash));
    assert_eq!(
        lexer.next().unwrap(),
        Ok(Token::DecimalIntegerLiteral(IntegerLiteral {
            value: "3".to_string(),
            variant: None
        }))
    );
}

#[test]
fn equality() {
    let mut lexer = Token::lexer("a == b");
    assert_eq!(
        lexer.next().unwrap(),
        Ok(Token::Identifier("a".to_string()))
    );
    assert_eq!(lexer.next().unwrap(), Ok(Token::Whitespace));
    assert_eq!(lexer.next().unwrap(), Ok(Token::StructuralEqual));
    assert_eq!(lexer.next().unwrap(), Ok(Token::Whitespace));
    assert_eq!(
        lexer.next().unwrap(),
        Ok(Token::Identifier("b".to_string()))
    );
    assert_eq!(lexer.next(), None);
}

#[test]
fn lexer_is_operator() {
    let mut lexer = Token::lexer("a is b");
    assert_eq!(
        lexer.next().unwrap(),
        Ok(Token::Identifier("a".to_string()))
    );
    assert_eq!(lexer.next().unwrap(), Ok(Token::Whitespace));
    assert_eq!(lexer.next().unwrap(), Ok(Token::Is));
    assert_eq!(lexer.next().unwrap(), Ok(Token::Whitespace));
    assert_eq!(
        lexer.next().unwrap(),
        Ok(Token::Identifier("b".to_string()))
    );
    assert_eq!(lexer.next(), None);
}

#[test]
fn matches_operator() {
    let mut lexer = Token::lexer("a matches b");
    assert_eq!(
        lexer.next().unwrap(),
        Ok(Token::Identifier("a".to_string()))
    );
    assert_eq!(lexer.next().unwrap(), Ok(Token::Whitespace));
    assert_eq!(lexer.next().unwrap(), Ok(Token::Matches));
    assert_eq!(lexer.next().unwrap(), Ok(Token::Whitespace));
    assert_eq!(
        lexer.next().unwrap(),
        Ok(Token::Identifier("b".to_string()))
    );
    assert_eq!(lexer.next(), None);
}

#[test]
fn line_doc() {
    let mut lexer = Token::lexer("/// This is a line doc\n42");
    assert_eq!(
        lexer.next().unwrap(),
        Ok(Token::LineDoc(" This is a line doc".to_string()))
    );
    assert_eq!(lexer.next().unwrap(), Ok(Token::Whitespace));
    assert_eq!(
        lexer.next().unwrap(),
        Ok(Token::DecimalIntegerLiteral(IntegerLiteral {
            value: "42".to_string(),
            variant: None
        }))
    );
    assert_eq!(lexer.next(), None);
}

#[test]
fn divide() {
    let mut lexer = Token::lexer("8 /2");
    assert_eq!(
        lexer.next().unwrap(),
        Ok(Token::DecimalIntegerLiteral(IntegerLiteral {
            value: "8".to_string(),
            variant: None
        }))
    );
    assert_eq!(lexer.next().unwrap(), Ok(Token::Whitespace));
    assert_eq!(lexer.next().unwrap(), Ok(Token::Slash));
    assert_eq!(
        lexer.next().unwrap(),
        Ok(Token::DecimalIntegerLiteral(IntegerLiteral {
            value: "2".to_string(),
            variant: None
        }))
    );
    assert_eq!(lexer.next(), None);
}

#[test]
fn unicode_identifiers() {
    let mut lexer = Token::lexer("größe x٣ 名前");
    assert_eq!(lexer.next().unwrap(), Ok(Token::Identifier("größe".to_string())));
    assert_eq!(lexer.next().unwrap(), Ok(Token::Whitespace));
    assert_eq!(lexer.next().unwrap(), Ok(Token::Identifier("x٣".to_string())));
    assert_eq!(lexer.next().unwrap(), Ok(Token::Whitespace));
    assert_eq!(lexer.next().unwrap(), Ok(Token::Identifier("名前".to_string())));
    assert_eq!(lexer.next(), None);
}
