use snbt::chars::{
    class_has, is_digit, is_ident_char, is_letter, is_whitespace, is_word_char, make_string, scan,
    to_chars, CharClass,
};
use snbt::number::{check_decimal, convert_integer};
use snbt::{
    build, ArrayType, DecimalType, Expected, Failure, GrammarError, IntegerType, LexError,
    ListTag, Tag, TagKind, Token, TokenKind,
};

fn every_char() -> impl Iterator<Item = char> {
    (0u32..=0x10FFFF).filter_map(char::from_u32)
}

#[test]
fn whitespace_is_what_the_standard_library_calls_whitespace() {
    for c in every_char() {
        assert_eq!(is_whitespace(c), c.is_whitespace(), "{:?}", c);
    }
}

#[test]
fn character_classes() {
    for c in every_char() {
        assert_eq!(is_digit(c), c.is_ascii_digit(), "{:?}", c);
        assert_eq!(is_letter(c), c.is_ascii_alphabetic(), "{:?}", c);
        assert_eq!(is_word_char(c), c.is_ascii_alphanumeric() || c == '_', "{:?}", c);
        assert_eq!(
            is_ident_char(c),
            c.is_ascii_alphanumeric() || ['_', '-', '+', '.'].contains(&c),
            "{:?}",
            c
        );
        assert_eq!(class_has(CharClass::Whitespace, c), c.is_whitespace());
        assert_eq!(class_has(CharClass::Digit, c), c.is_ascii_digit());
        assert_eq!(class_has(CharClass::Word, c), is_word_char(c));
        assert_eq!(class_has(CharClass::Ident, c), is_ident_char(c));
    }
}

#[test]
fn no_alphanumeric_character_is_whitespace_or_starts_a_token() {
    for c in every_char() {
        if c.is_alphanumeric() && !c.is_ascii() {
            assert!(!is_whitespace(c));
            assert!(Token::parse(&c.to_string()).is_err());
        }
    }
}

#[test]
fn scanning_runs() {
    let chars = to_chars("12ab  \u{3000}x");
    assert_eq!(chars, vec!['1', '2', 'a', 'b', ' ', ' ', '\u{3000}', 'x']);
    assert_eq!(scan(&chars, 0, CharClass::Digit), 2);
    assert_eq!(scan(&chars, 0, CharClass::Ident), 4);
    assert_eq!(scan(&chars, 0, CharClass::Whitespace), 0);
    assert_eq!(scan(&chars, 4, CharClass::Whitespace), 7);
    assert_eq!(scan(&chars, 7, CharClass::Word), 8);
    assert_eq!(scan(&chars, 8, CharClass::Word), 8);
    assert_eq!(make_string(&chars, 2, 4), "ab");
    assert_eq!(make_string(&chars, 3, 3), "");
    assert_eq!(make_string(&chars, 0, 8), "12ab  \u{3000}x");
    assert_eq!(to_chars(""), Vec::<char>::new());
}

#[test]
fn suffixes() {
    assert_eq!(IntegerType::from(None), Some(IntegerType::Int));
    assert_eq!(IntegerType::from(Some('b')), Some(IntegerType::Byte));
    assert_eq!(IntegerType::from(Some('B')), Some(IntegerType::Byte));
    assert_eq!(IntegerType::from(Some('s')), Some(IntegerType::Short));
    assert_eq!(IntegerType::from(Some('S')), Some(IntegerType::Short));
    assert_eq!(IntegerType::from(Some('l')), Some(IntegerType::Long));
    assert_eq!(IntegerType::from(Some('L')), Some(IntegerType::Long));
    assert_eq!(IntegerType::from(Some('i')), None);
    assert_eq!(IntegerType::from(Some('d')), None);
    assert_eq!(DecimalType::from(None), Some(DecimalType::Double));
    assert_eq!(DecimalType::from(Some('f')), Some(DecimalType::Float));
    assert_eq!(DecimalType::from(Some('F')), Some(DecimalType::Float));
    assert_eq!(DecimalType::from(Some('d')), Some(DecimalType::Double));
    assert_eq!(DecimalType::from(Some('D')), Some(DecimalType::Double));
    assert_eq!(DecimalType::from(Some('b')), None);
    assert_eq!(ArrayType::from('B'), Some(ArrayType::Byte));
    assert_eq!(ArrayType::from('b'), Some(ArrayType::Byte));
    assert_eq!(ArrayType::from('I'), Some(ArrayType::Int));
    assert_eq!(ArrayType::from('i'), Some(ArrayType::Int));
    assert_eq!(ArrayType::from('L'), Some(ArrayType::Long));
    assert_eq!(ArrayType::from('l'), Some(ArrayType::Long));
    assert_eq!(ArrayType::from('S'), None);
}

#[test]
fn integers_convert_as_the_standard_library_converts_them() {
    let texts = [
        "0", "-0", "1", "-1", "9", "10", "99", "127", "128", "-128", "-129", "255", "256", "32767",
        "32768", "-32768", "-32769", "65535", "2147483647", "2147483648", "-2147483648",
        "-2147483649", "4294967296", "9223372036854775807", "9223372036854775808",
        "-9223372036854775808", "-9223372036854775809", "18446744073709551616",
        "99999999999999999999999999", "0000000000000000000000000000000000000012", "-007", "",
        "-", "--1", "1-", "a", "1a", "1.0", " 1", "1 ", "\u{663}",
    ];
    for text in texts {
        assert_eq!(
            convert_integer(text, IntegerType::Byte),
            text.parse::<i8>().ok().map(i64::from),
            "{:?}",
            text
        );
        assert_eq!(
            convert_integer(text, IntegerType::Short),
            text.parse::<i16>().ok().map(i64::from),
            "{:?}",
            text
        );
        assert_eq!(
            convert_integer(text, IntegerType::Int),
            text.parse::<i32>().ok().map(i64::from),
            "{:?}",
            text
        );
        assert_eq!(
            convert_integer(text, IntegerType::Long),
            text.parse::<i64>().ok(),
            "{:?}",
            text
        );
    }
    for value in -70000i64..70000 {
        let text = value.to_string();
        assert_eq!(convert_integer(&text, IntegerType::Long), Some(value));
        assert_eq!(convert_integer(&text, IntegerType::Int), Some(value));
        assert_eq!(
            convert_integer(&text, IntegerType::Short),
            if (-32768..=32767).contains(&value) { Some(value) } else { None }
        );
        assert_eq!(
            convert_integer(&text, IntegerType::Byte),
            if (-128..=127).contains(&value) { Some(value) } else { None }
        );
    }
}

#[test]
fn a_plus_sign_is_no_part_of_a_number() {
    assert_eq!(convert_integer("+1", IntegerType::Int), None);
    assert!(!check_decimal("+1.5"));
}

#[test]
fn decimal_texts() {
    for text in ["0", "1", "-1", "12.5", "-12.5", "0.0", "-0.0", "007.500", "1.0000000001"] {
        assert!(check_decimal(text), "{:?}", text);
        assert!(text.parse::<f64>().is_ok());
        assert!(text.parse::<f32>().is_ok());
    }
    for text in
        ["", "-", ".", "1.", ".5", "-.5", "1..5", "1.5.", "1.5.5", "1e5", "inf", "NaN", "1f"]
    {
        assert!(!check_decimal(text), "{:?}", text);
    }
}

fn tokens(source: &str) -> Vec<Token> {
    Token::parse(source).unwrap()
}

#[test]
fn tokens_of_every_kind() {
    assert_eq!(
        tokens(", : [B; [i; [L; [ ] { } true false 1 -2b 3S 4l 1.5 -2.5f 3d 4F word \"q\" 'q'"),
        vec![
            Token::Comma,
            Token::Colon,
            Token::ArrayStart(ArrayType::Byte),
            Token::ArrayStart(ArrayType::Int),
            Token::ArrayStart(ArrayType::Long),
            Token::OpenBracket,
            Token::CloseBracket,
            Token::OpenBrace,
            Token::CloseBrace,
            Token::Boolean(true),
            Token::Boolean(false),
            Token::Integer("1".to_string(), IntegerType::Int),
            Token::Integer("-2".to_string(), IntegerType::Byte),
            Token::Integer("3".to_string(), IntegerType::Short),
            Token::Integer("4".to_string(), IntegerType::Long),
            Token::Decimal("1.5".to_string(), DecimalType::Double),
            Token::Decimal("-2.5".to_string(), DecimalType::Float),
            Token::Decimal("3".to_string(), DecimalType::Double),
            Token::Decimal("4".to_string(), DecimalType::Float),
            Token::Identifier("word".to_string()),
            Token::StringLiteral("q".to_string()),
            Token::StringLiteral("q".to_string()),
        ]
    );
}

#[test]
fn a_number_that_goes_on_is_a_word() {
    assert_eq!(tokens("123.5"), vec![Token::Decimal("123.5".to_string(), DecimalType::Double)]);
    assert_eq!(tokens("123abc"), vec![Token::Identifier("123abc".to_string())]);
    assert_eq!(tokens("1b2"), vec![Token::Identifier("1b2".to_string())]);
    assert_eq!(tokens("1_0"), vec![Token::Identifier("1_0".to_string())]);
    assert_eq!(tokens("1-2"), vec![Token::Identifier("1-2".to_string())]);
    assert_eq!(tokens("1+2"), vec![Token::Identifier("1+2".to_string())]);
    assert_eq!(tokens("1."), vec![Token::Identifier("1.".to_string())]);
    assert_eq!(tokens("1.5.5"), vec![Token::Identifier("1.5.5".to_string())]);
    assert_eq!(tokens("1.5fd"), vec![Token::Identifier("1.5fd".to_string())]);
    assert_eq!(tokens("-"), vec![Token::Identifier("-".to_string())]);
    assert_eq!(tokens("-a"), vec![Token::Identifier("-a".to_string())]);
    assert_eq!(tokens("1i"), vec![Token::Identifier("1i".to_string())]);
    assert_eq!(
        tokens("1,2"),
        vec![
            Token::Integer("1".to_string(), IntegerType::Int),
            Token::Comma,
            Token::Integer("2".to_string(), IntegerType::Int),
        ]
    );
    assert_eq!(
        tokens("1b]"),
        vec![Token::Integer("1".to_string(), IntegerType::Byte), Token::CloseBracket]
    );
    assert_eq!(
        tokens("1\"a\""),
        vec![
            Token::Integer("1".to_string(), IntegerType::Int),
            Token::StringLiteral("a".to_string()),
        ]
    );
}

#[test]
fn keywords_end_where_a_word_would() {
    assert_eq!(tokens("truely"), vec![Token::Identifier("truely".to_string())]);
    assert_eq!(tokens("true_"), vec![Token::Identifier("true_".to_string())]);
    assert_eq!(tokens("true1"), vec![Token::Identifier("true1".to_string())]);
    assert_eq!(tokens("True"), vec![Token::Identifier("True".to_string())]);
    assert_eq!(
        tokens("true.x"),
        vec![Token::Boolean(true), Token::Identifier(".x".to_string())]
    );
    assert_eq!(
        tokens("false-1"),
        vec![Token::Boolean(false), Token::Integer("-1".to_string(), IntegerType::Int)]
    );
}

#[test]
fn strings_and_their_escapes() {
    assert_eq!(
        tokens(r#""a\\b\/c\"d\'e\bf\fg\nh\ri\tj""#),
        vec![Token::StringLiteral("a\\b/c\"d'e\x08f\x0Cg\nh\ri\tj".to_string())]
    );
    assert_eq!(tokens(r#"'it\'s'"#), vec![Token::StringLiteral("it's".to_string())]);
    assert_eq!(tokens(r#""it's""#), vec![Token::StringLiteral("it's".to_string())]);
    assert_eq!(tokens(r#"'say "hi"'"#), vec![Token::StringLiteral("say \"hi\"".to_string())]);
    assert_eq!(tokens("\"\""), vec![Token::StringLiteral(String::new())]);
    assert_eq!(
        tokens("\" \u{e9}\u{4e2d} \""),
        vec![Token::StringLiteral(" \u{e9}\u{4e2d} ".to_string())]
    );
    assert!(Token::parse(r#""\q""#).is_err());
    assert!(Token::parse(r#""\u0041""#).is_err());
    assert!(Token::parse(r#""\"#).is_err());
    assert!(Token::parse(r#""a"#).is_err());
    assert!(Token::parse(r#"'a""#).is_err());
}

#[test]
fn lex_error_messages() {
    let errors = Token::parse("a ? b").unwrap_err();
    assert_eq!(errors, vec![LexError { position: 2, found: Some('?') }]);
    assert_eq!(errors[0].message(), "unrecognized token");
    let errors = Token::parse(" ").unwrap_err();
    assert_eq!(errors, vec![LexError { position: 1, found: None }]);
    assert_eq!(errors[0].message(), "unexpected end of input");
}

#[test]
fn token_kinds_and_copies() {
    for token in tokens(", : [B; [ ] { } true 1b 1.5f a \"a\"") {
        assert_eq!(token.duplicate(), token);
    }
    assert_eq!(Token::Comma.kind(), TokenKind::Comma);
    assert_eq!(Token::Colon.kind(), TokenKind::Colon);
    assert_eq!(
        Token::ArrayStart(ArrayType::Long).kind(),
        TokenKind::ArrayStart(ArrayType::Long)
    );
    assert_eq!(Token::OpenBracket.kind(), TokenKind::OpenBracket);
    assert_eq!(Token::CloseBracket.kind(), TokenKind::CloseBracket);
    assert_eq!(Token::OpenBrace.kind(), TokenKind::OpenBrace);
    assert_eq!(Token::CloseBrace.kind(), TokenKind::CloseBrace);
    assert_eq!(Token::Boolean(false).kind(), TokenKind::Boolean);
    assert_eq!(
        Token::Integer("1".to_string(), IntegerType::Short).kind(),
        TokenKind::Integer(IntegerType::Short)
    );
    assert_eq!(
        Token::Decimal("1".to_string(), DecimalType::Float).kind(),
        TokenKind::Decimal(DecimalType::Float)
    );
    assert_eq!(Token::Identifier("a".to_string()).kind(), TokenKind::Identifier);
    assert_eq!(Token::StringLiteral("a".to_string()).kind(), TokenKind::StringLiteral);
}

fn every_kind() -> Vec<TokenKind> {
    vec![
        TokenKind::Comma,
        TokenKind::Colon,
        TokenKind::ArrayStart(ArrayType::Byte),
        TokenKind::ArrayStart(ArrayType::Int),
        TokenKind::ArrayStart(ArrayType::Long),
        TokenKind::OpenBracket,
        TokenKind::CloseBracket,
        TokenKind::OpenBrace,
        TokenKind::CloseBrace,
        TokenKind::Boolean,
        TokenKind::Integer(IntegerType::Byte),
        TokenKind::Integer(IntegerType::Short),
        TokenKind::Integer(IntegerType::Int),
        TokenKind::Integer(IntegerType::Long),
        TokenKind::Decimal(DecimalType::Float),
        TokenKind::Decimal(DecimalType::Double),
        TokenKind::Identifier,
        TokenKind::StringLiteral,
    ]
}

#[test]
fn expected_sets() {
    let kinds = every_kind();
    for (i, kind) in kinds.iter().enumerate() {
        let mut set = Expected::new();
        for other in &kinds {
            assert!(!set.has(*other));
        }
        set.insert(*kind);
        for (j, other) in kinds.iter().enumerate() {
            assert_eq!(set.has(*other), i == j);
        }
        set.insert(*kind);
        assert!(set.has(*kind));
    }
    let mut all = Expected::new();
    for kind in &kinds {
        all.insert(*kind);
    }
    for kind in &kinds {
        assert!(all.has(*kind));
    }
}

#[test]
fn the_furthest_refusal_is_kept() {
    let mut far = Failure::new();
    assert_eq!(far.position, 0);
    assert_eq!(far.expected, Expected::new());
    far.note(2, TokenKind::Comma);
    assert_eq!(far.position, 2);
    assert!(far.expected.comma);
    far.note(1, TokenKind::Colon);
    assert_eq!(far.position, 2);
    assert!(!far.expected.colon);
    far.note(2, TokenKind::CloseBracket);
    assert!(far.expected.comma && far.expected.close_bracket);
    far.note_invalid(2);
    assert!(far.invalid_number && far.expected.comma);
    far.note_deep(1);
    assert!(!far.too_deep);
    far.note_deep(3);
    assert_eq!(far.position, 3);
    assert!(far.too_deep && !far.invalid_number);
    assert_eq!(far.expected, Expected::new());
    far.note_invalid(4);
    assert_eq!(far.position, 4);
    assert!(far.invalid_number && !far.too_deep);
    far.note(5, TokenKind::Identifier);
    assert_eq!(far.position, 5);
    assert!(far.expected.identifier && !far.invalid_number);
}

#[test]
fn building_from_tokens() {
    assert_eq!(
        build(&vec![
            Token::OpenBrace,
            Token::StringLiteral("a b".to_string()),
            Token::Colon,
            Token::OpenBracket,
            Token::Boolean(true),
            Token::Comma,
            Token::CloseBracket,
            Token::CloseBrace,
        ]),
        Ok(Tag::Compound(vec![(
            "a b".to_string(),
            Tag::List(ListTag { kind: TagKind::Byte, items: vec![Tag::Byte(1)] })
        )]))
    );
    assert_eq!(
        build(&vec![]),
        Err(vec![GrammarError {
            position: 0,
            found: None,
            expected: {
                let mut set = Expected::new();
                for kind in every_kind() {
                    if !matches!(
                        kind,
                        TokenKind::Comma
                            | TokenKind::Colon
                            | TokenKind::CloseBracket
                            | TokenKind::CloseBrace
                    ) {
                        set.insert(kind);
                    }
                }
                set
            },
            invalid_number: false,
            too_deep: false,
        }])
    );
}

#[test]
fn malformed_numbers_in_tokens_are_refused() {
    for token in [
        Token::Integer("".to_string(), IntegerType::Int),
        Token::Integer("-".to_string(), IntegerType::Int),
        Token::Integer("1x".to_string(), IntegerType::Long),
        Token::Integer("1.5".to_string(), IntegerType::Int),
        Token::Decimal("".to_string(), DecimalType::Double),
        Token::Decimal("1.".to_string(), DecimalType::Float),
        Token::Decimal("1e5".to_string(), DecimalType::Double),
        Token::Decimal("NaN".to_string(), DecimalType::Float),
    ] {
        let errors = build(&vec![token.clone()]).unwrap_err();
        assert_eq!(errors.len(), 1);
        assert_eq!(errors[0].position, 0);
        assert!(errors[0].invalid_number);
        assert_eq!(errors[0].found, Some(token));
    }
}

#[test]
fn tags_know_their_kind() {
    assert_eq!(Tag::Byte(1).kind(), TagKind::Byte);
    assert_eq!(Tag::Short(1).kind(), TagKind::Short);
    assert_eq!(Tag::Int(1).kind(), TagKind::Int);
    assert_eq!(Tag::Long(1).kind(), TagKind::Long);
    assert_eq!(Tag::Float("1".to_string()).kind(), TagKind::Float);
    assert_eq!(Tag::Double("1".to_string()).kind(), TagKind::Double);
    assert_eq!(Tag::ByteArray(vec![]).kind(), TagKind::ByteArray);
    assert_eq!(Tag::String(String::new()).kind(), TagKind::String);
    assert_eq!(Tag::list(TagKind::Int, vec![Tag::Int(1)]).kind(), TagKind::List);
    assert_eq!(
        Tag::list(TagKind::Int, vec![Tag::Int(1)]),
        Tag::List(ListTag { kind: TagKind::Int, items: vec![Tag::Int(1)] })
    );
    assert_eq!(Tag::compound(vec![]).kind(), TagKind::Compound);
    assert_eq!(
        Tag::compound(vec![("a".to_string(), Tag::Int(1))]),
        Tag::Compound(vec![("a".to_string(), Tag::Int(1))])
    );
    assert_eq!(Tag::IntArray(vec![]).kind(), TagKind::IntArray);
    assert_eq!(Tag::LongArray(vec![]).kind(), TagKind::LongArray);
}
