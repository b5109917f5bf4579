//! The same notation written down with parser combinators, and the library
//! held against it on many inputs.
//!
//! The combinators read the digits before a point or a suffix with
//! `text::int`, which takes no zero before another digit; the library takes
//! any run of digits.  No text below has such a zero.

use chumsky::prelude::{choice, end, filter, just, none_of, one_of, Parser, Recursive, Simple};
use chumsky::text;
use chumsky::text::TextParser;
use snbt::{
    build, parse, ArrayType, DecimalType, IntegerType, ListTag, ParseError, Tag, TagKind, Token,
};

fn is_ident_char(c: &char) -> bool {
    c.is_ascii_alphanumeric() || ['_', '-', '+', '.'].contains(c)
}

fn identifier() -> impl Parser<char, String, Error = Simple<char>> {
    filter::<char, _, Simple<char>>(is_ident_char).repeated().at_least(1).collect::<String>()
}

fn strcmp(ignore_case: bool, lhs: &str, rhs: &str) -> bool {
    if lhs.len() != rhs.len() {
        return false;
    }
    if ignore_case {
        lhs.to_lowercase() == rhs.to_lowercase()
    } else {
        lhs == rhs
    }
}

fn keyword(word: &'static str, ignore_case: bool) -> impl Parser<char, (), Error = Simple<char>> {
    identifier().try_map(move |text, span| {
        if strcmp(ignore_case, word, &text) {
            Ok(())
        } else {
            Err(Simple::custom(span, format!("Expected keyword: {}, found {}", word, text)))
        }
    })
}

fn boundary() -> impl Parser<char, char, Error = Simple<char>> {
    choice((
        filter(|c: &char| !c.is_alphanumeric() && !['_', '+', '-', '.'].contains(c)),
        end().to('\0'),
    ))
    .rewind()
}

fn comma() -> impl Parser<char, Token, Error = Simple<char>> {
    just(',').to(Token::Comma)
}

fn colon() -> impl Parser<char, Token, Error = Simple<char>> {
    just(':').to(Token::Colon)
}

fn array_start() -> impl Parser<char, Token, Error = Simple<char>> {
    just('[')
        .ignore_then(choice((
            keyword("b", true).to(ArrayType::Byte),
            keyword("i", true).to(ArrayType::Int),
            keyword("l", true).to(ArrayType::Long),
        )))
        .then_ignore(just(';'))
        .map(Token::ArrayStart)
}

fn open_bracket() -> impl Parser<char, Token, Error = Simple<char>> {
    just('[').to(Token::OpenBracket)
}

fn close_bracket() -> impl Parser<char, Token, Error = Simple<char>> {
    just(']').to(Token::CloseBracket)
}

fn open_brace() -> impl Parser<char, Token, Error = Simple<char>> {
    just('{').to(Token::OpenBrace)
}

fn close_brace() -> impl Parser<char, Token, Error = Simple<char>> {
    just('}').to(Token::CloseBrace)
}

fn boolean() -> impl Parser<char, Token, Error = Simple<char>> {
    choice((
        text::keyword("true").to(Token::Boolean(true)),
        text::keyword("false").to(Token::Boolean(false)),
    ))
}

fn integer() -> impl Parser<char, Token, Error = Simple<char>> {
    just::<char, _, Simple<char>>('-')
        .or_not()
        .chain::<char, _, _>(text::int(10))
        .collect::<String>()
        .then(
            choice((
                keyword("b", true).to(IntegerType::Byte),
                keyword("s", true).to(IntegerType::Short),
                keyword("l", true).to(IntegerType::Long),
            ))
            .or_not()
            .map(|opt| opt.unwrap_or(IntegerType::Int)),
        )
        .then_ignore(boundary())
        .map(|(int_text, int_type)| Token::Integer(int_text, int_type))
}

fn decimal() -> impl Parser<char, Token, Error = Simple<char>> {
    just::<char, _, Simple<char>>('-')
        .or_not()
        .chain::<char, _, _>(choice((
            text::int(10)
                .chain::<char, _, _>(just('.'))
                .chain::<char, _, _>(text::digits(10))
                .collect::<String>(),
            text::int(10)
                .then_ignore(choice((keyword("d", true), keyword("f", true))).rewind()),
        )))
        .collect::<String>()
        .then(
            choice((
                keyword("d", true).to(DecimalType::Double),
                keyword("f", true).to(DecimalType::Float),
            ))
            .or_not()
            .map(|opt| opt.unwrap_or(DecimalType::Double)),
        )
        .then_ignore(boundary())
        .map(|(dec_str, dec_type)| Token::Decimal(dec_str, dec_type))
}

fn bare_word() -> impl Parser<char, Token, Error = Simple<char>> {
    choice((filter(char::is_ascii_alphanumeric), one_of("+-_.")))
        .repeated()
        .at_least(1)
        .collect::<String>()
        .map(Token::Identifier)
}

fn string_literal() -> impl Parser<char, Token, Error = Simple<char>> {
    let escape = just::<_, _, Simple<char>>('\\').ignore_then(
        just('\\')
            .or(just('/'))
            .or(just('"'))
            .or(just('\''))
            .or(just('b').to('\x08'))
            .or(just('f').to('\x0C'))
            .or(just('n').to('\n'))
            .or(just('r').to('\r'))
            .or(just('t').to('\t')),
    );
    bare_word().or(choice::<_, Simple<char>>((
        just('"')
            .ignore_then(none_of("\\\"").or(escape.clone()).repeated())
            .then_ignore(just('"'))
            .collect::<String>(),
        just('\'')
            .ignore_then(none_of("\\'").or(escape.clone()).repeated())
            .then_ignore(just('\''))
            .collect::<String>(),
    ))
    .map(Token::StringLiteral))
}

fn oracle_lex(source: &str) -> Result<Vec<Token>, Vec<Simple<char>>> {
    choice((
        comma(),
        colon(),
        array_start(),
        open_bracket(),
        close_bracket(),
        open_brace(),
        close_brace(),
        boolean(),
        integer(),
        decimal(),
        bare_word(),
        string_literal(),
    ))
    .padded()
    .repeated()
    .at_least(1)
    .then_ignore(end())
    .collect::<Vec<Token>>()
    .parse(source)
}

fn list_of(kind: TagKind, items: Vec<Tag>) -> ListTag {
    ListTag { kind, items }
}

fn oracle_parser() -> impl Parser<Token, Tag, Error = Simple<Token>> {
    let byte = filter::<Token, _, Simple<Token>>(|token| {
        matches!(token, Token::Integer(_, IntegerType::Byte))
    })
    .try_map(|token, span| match token {
        Token::Integer(digits, IntegerType::Byte) => {
            digits.parse::<i8>().map_err(|_| Simple::custom(span, "Failed to parse."))
        }
        _ => Err(Simple::custom(span, "Invalid token.")),
    });
    let short = filter::<Token, _, Simple<Token>>(|token| {
        matches!(token, Token::Integer(_, IntegerType::Short))
    })
    .try_map(|token, span| match token {
        Token::Integer(digits, IntegerType::Short) => {
            digits.parse::<i16>().map_err(|_| Simple::custom(span, "Failed to parse."))
        }
        _ => Err(Simple::custom(span, "Invalid token.")),
    });
    let int = filter::<Token, _, Simple<Token>>(|token| {
        matches!(token, Token::Integer(_, IntegerType::Int))
    })
    .try_map(|token, span| match token {
        Token::Integer(digits, IntegerType::Int) => {
            digits.parse::<i32>().map_err(|_| Simple::custom(span, "Failed to parse."))
        }
        _ => Err(Simple::custom(span, "Invalid token.")),
    });
    let long = filter::<Token, _, Simple<Token>>(|token| {
        matches!(token, Token::Integer(_, IntegerType::Long))
    })
    .try_map(|token, span| match token {
        Token::Integer(digits, IntegerType::Long) => {
            digits.parse::<i64>().map_err(|_| Simple::custom(span, "Failed to parse."))
        }
        _ => Err(Simple::custom(span, "Invalid token.")),
    });
    let float = filter::<Token, _, Simple<Token>>(|token| {
        matches!(token, Token::Decimal(_, DecimalType::Float))
    })
    .try_map(|token, span| match token {
        Token::Decimal(digits, DecimalType::Float) => digits
            .parse::<f32>()
            .map(|_| digits.clone())
            .map_err(|_| Simple::custom(span, "Failed to parse.")),
        _ => Err(Simple::custom(span, "Invalid token.")),
    });
    let double = filter::<Token, _, Simple<Token>>(|token| {
        matches!(token, Token::Decimal(_, DecimalType::Double))
    })
    .try_map(|token, span| match token {
        Token::Decimal(digits, DecimalType::Double) => digits
            .parse::<f64>()
            .map(|_| digits.clone())
            .map_err(|_| Simple::custom(span, "Failed to parse.")),
        _ => Err(Simple::custom(span, "Invalid token.")),
    });
    let byte = byte.or(choice((
        filter(|token| matches!(token, Token::Boolean(true))).to(1i8),
        filter(|token| matches!(token, Token::Boolean(false))).to(0i8),
    )));
    let bytearray = byte
        .clone()
        .separated_by(just(Token::Comma))
        .delimited_by(just(Token::ArrayStart(ArrayType::Byte)), just(Token::CloseBracket));
    let intarray = int
        .clone()
        .separated_by(just(Token::Comma))
        .delimited_by(just(Token::ArrayStart(ArrayType::Int)), just(Token::CloseBracket));
    let longarray = long
        .clone()
        .separated_by(just(Token::Comma))
        .delimited_by(just(Token::ArrayStart(ArrayType::Long)), just(Token::CloseBracket));
    let byte = byte.or(filter::<Token, _, Simple<Token>>(|token| {
        matches!(token, Token::Boolean(_))
    })
    .map(|token| match token {
        Token::Boolean(true) => 1i8,
        _ => 0i8,
    }));
    let string = filter::<Token, _, Simple<Token>>(|token| {
        matches!(token, Token::StringLiteral(_) | Token::Identifier(_))
    })
    .map(|token| match token {
        Token::StringLiteral(data) => data,
        Token::Identifier(data) => data,
        _ => panic!("Impossible state."),
    });
    let mut list = Recursive::declare();
    let mut compound = Recursive::declare();
    list.define(choice::<_, Simple<Token>>((
        byte.clone()
            .map(Tag::Byte)
            .separated_by(just(Token::Comma))
            .allow_trailing()
            .delimited_by(just(Token::OpenBracket), just(Token::CloseBracket))
            .map(|items| list_of(TagKind::Byte, items)),
        short
            .clone()
            .map(Tag::Short)
            .separated_by(just(Token::Comma))
            .allow_trailing()
            .delimited_by(just(Token::OpenBracket), just(Token::CloseBracket))
            .map(|items| list_of(TagKind::Short, items)),
        int.clone()
            .map(Tag::Int)
            .separated_by(just(Token::Comma))
            .allow_trailing()
            .delimited_by(just(Token::OpenBracket), just(Token::CloseBracket))
            .map(|items| list_of(TagKind::Int, items)),
        long.clone()
            .map(Tag::Long)
            .separated_by(just(Token::Comma))
            .allow_trailing()
            .delimited_by(just(Token::OpenBracket), just(Token::CloseBracket))
            .map(|items| list_of(TagKind::Long, items)),
        float
            .clone()
            .map(Tag::Float)
            .separated_by(just(Token::Comma))
            .allow_trailing()
            .delimited_by(just(Token::OpenBracket), just(Token::CloseBracket))
            .map(|items| list_of(TagKind::Float, items)),
        double
            .clone()
            .map(Tag::Double)
            .separated_by(just(Token::Comma))
            .allow_trailing()
            .delimited_by(just(Token::OpenBracket), just(Token::CloseBracket))
            .map(|items| list_of(TagKind::Double, items)),
        bytearray
            .clone()
            .map(Tag::ByteArray)
            .separated_by(just(Token::Comma))
            .allow_trailing()
            .delimited_by(just(Token::OpenBracket), just(Token::CloseBracket))
            .map(|items| list_of(TagKind::ByteArray, items)),
        string
            .clone()
            .map(Tag::String)
            .separated_by(just(Token::Comma))
            .allow_trailing()
            .delimited_by(just(Token::OpenBracket), just(Token::CloseBracket))
            .map(|items| list_of(TagKind::String, items)),
        list.clone()
            .map(Tag::List)
            .separated_by(just(Token::Comma))
            .allow_trailing()
            .delimited_by(just(Token::OpenBracket), just(Token::CloseBracket))
            .map(|items| list_of(TagKind::List, items)),
        compound
            .clone()
            .map(Tag::Compound)
            .separated_by(just(Token::Comma))
            .allow_trailing()
            .delimited_by(just(Token::OpenBracket), just(Token::CloseBracket))
            .map(|items| list_of(TagKind::Compound, items)),
        intarray
            .clone()
            .map(Tag::IntArray)
            .separated_by(just(Token::Comma))
            .allow_trailing()
            .delimited_by(just(Token::OpenBracket), just(Token::CloseBracket))
            .map(|items| list_of(TagKind::IntArray, items)),
        longarray
            .clone()
            .map(Tag::LongArray)
            .separated_by(just(Token::Comma))
            .allow_trailing()
            .delimited_by(just(Token::OpenBracket), just(Token::CloseBracket))
            .map(|items| list_of(TagKind::LongArray, items)),
    )));

    compound.define(
        string
            .clone()
            .then_ignore(just(Token::Colon))
            .then(choice((
                compound.clone().map(Tag::Compound),
                list.clone().map(Tag::List),
                byte.clone().map(Tag::Byte),
                short.clone().map(Tag::Short),
                int.clone().map(Tag::Int),
                long.clone().map(Tag::Long),
                float.clone().map(Tag::Float),
                double.clone().map(Tag::Double),
                bytearray.clone().map(Tag::ByteArray),
                intarray.clone().map(Tag::IntArray),
                longarray.clone().map(Tag::LongArray),
                string.clone().map(Tag::String),
            )))
            .separated_by(just(Token::Comma))
            .allow_trailing()
            .delimited_by(just(Token::OpenBrace), just(Token::CloseBrace)),
    );
    choice((
        compound.clone().map(Tag::Compound),
        list.clone().map(Tag::List),
        byte.clone().map(Tag::Byte),
        short.clone().map(Tag::Short),
        int.clone().map(Tag::Int),
        long.clone().map(Tag::Long),
        float.clone().map(Tag::Float),
        double.clone().map(Tag::Double),
        bytearray.clone().map(Tag::ByteArray),
        intarray.clone().map(Tag::IntArray),
        longarray.clone().map(Tag::LongArray),
        string.clone().map(Tag::String),
    ))
}

/// The stage that failed, or the tree.
#[derive(Debug, PartialEq)]
enum Verdict {
    Tree(Tag),
    NoTokens,
    NoTree,
}

fn oracle_verdict(source: &str) -> Verdict {
    match oracle_lex(source) {
        Ok(tokens) => match oracle_parser().parse(tokens) {
            Ok(tag) => Verdict::Tree(tag),
            Err(_) => Verdict::NoTree,
        },
        Err(_) => Verdict::NoTokens,
    }
}

fn library_verdict(source: &str) -> Verdict {
    match parse(source) {
        Ok(tag) => Verdict::Tree(tag),
        Err(ParseError::TokenizeError(_)) => Verdict::NoTokens,
        Err(ParseError::ParseFailure(_)) => Verdict::NoTree,
    }
}

fn agree_on(source: &str) {
    assert_eq!(Token::parse(source).ok(), oracle_lex(source).ok(), "tokens of {:?}", source);
    assert_eq!(library_verdict(source), oracle_verdict(source), "reading of {:?}", source);
}

/// A small generator of repeatable pseudo-random numbers.
fn next(state: &mut u64) -> usize {
    *state = state.wrapping_mul(6364136223846793005).wrapping_add(1442695040888963407);
    (*state >> 33) as usize
}

#[test]
fn agrees_on_chosen_texts() {
    for source in [
        "", " ", "0", "-0", "1", "-1", "- 1", "--1", "1b", "1B", "1s", "1S", "1l", "1L", "1i",
        "1d", "1D", "1f", "1F", "1.5", "1.5f", "1.5F", "1.5d", "1.5b", "1.", ".5", "1.f", "1..5",
        "1.5.5", "1e5", "1_000", "1-1", "1+1", "1bb", "1b1", "1b.", "1 b", "1fd", "1f.5", "1.5fx",
        "128b", "-129b", "40000s", "3000000000", "10000000000000000000l", "true", "false",
        "True", "truex", "true_", "true.x", "true-1", "true1", "true,", "[true]", "truefalse",
        "a", "a.b", "a-b", "+", "-", ".", "_", "-a", "a b", "\"\"", "''", "\"a\"", "'a'",
        "\"a'b\"", "'a\"b'", "\"a\\\"b\"", "'a\\'b'", "\"\\\\\"", "\"\\n\\r\\t\\b\\f\\/\"",
        "\"\\x\"", "\"a", "'a", "\"a'", "\"\\\"", "\"a\" \"b\"", "\"a\"b", "1\"a\"", "[", "]",
        "{", "}", ",", ":", ";", "[]", "[ ]", "{}", "{ }", "[,]", "{,}", "[1]", "[1,]", "[1,,]",
        "[,1]", "[1 2]", "[1,2]", "[1,2,]", "[1b,2]", "[1,2b]", "[1,a]", "[a,1]", "[a,b]",
        "[a,\"b\"]", "[[]]", "[[],[]]", "[[1],[a]]", "[[1],2]", "[{}]", "[{},{a:1}]", "[{},[]]",
        "[B;]", "[b;]", "[B;1b]", "[B;1]", "[B;1b,]", "[B;1b,2b]", "[B;true,false]", "[I;]",
        "[i;1]", "[I;1,2]", "[I;1b]", "[I;true]", "[I;1,]", "[L;]", "[l;1l]", "[L;1]",
        "[L;1l,2L]", "[B ;1b]", "[ B;1b]", "[B; 1b ]", "[X;1]", "[BB;1b]", "[B;", "[B", "[B]",
        "[[B;1b],[B;]]", "[[B;1b],[I;1]]", "[[I;1],[I;2],]", "[[L;1l]]", "[B;[1b]]",
        "{a:1}", "{a:1,}", "{a:1,,}", "{,a:1}", "{a:1 b:2}", "{a:1,b:2}", "{a:1,a:2}", "{a 1}",
        "{a:}", "{:1}", "{a:1", "{a:{b:{c:[1,2,{d:e}]}}}", "{\"a b\":1}", "{'a':'b'}", "{1:2}",
        "{1b:2}", "{true:1}", "{1.5:1}", "{a:true}", "{a:[B;1b]}", "{a:[]}", "{[]:1}", "1 2",
        "1,2", "{} {}", "[] x", "a:b", "\t1\n", "\u{a0}1\u{3000}", "1\u{e9}", "\u{e9}", "a\u{e9}",
        "1\u{663}", "\"\u{e9}\"", "{a:\"\u{e9}\"}", "[1.5,2.5]", "[1.5f,2.5f]", "[1.5f,2.5]",
        "[1d,2]", "[1s,2s]", "[1l,2l,]", "[1l,2]", "[true,false]", "[true,1b]", "[1b,true]",
        "[true,1]", "[\"a\",b,'c']",
    ] {
        agree_on(source);
    }
}

#[test]
fn agrees_on_every_short_text() {
    let alphabet: Vec<char> = "1b.-f ,[]{}:\"a;B\\t'".chars().collect();
    let n = alphabet.len();
    for length in 0..=3 {
        let mut indices = vec![0usize; length];
        loop {
            let source: String = indices.iter().map(|&i| alphabet[i]).collect();
            agree_on(&source);
            let mut place = 0;
            while place < length {
                indices[place] += 1;
                if indices[place] < n {
                    break;
                }
                indices[place] = 0;
                place += 1;
            }
            if place == length {
                break;
            }
        }
    }
}

fn random_text(state: &mut u64, pieces: &[&str], count: usize) -> String {
    let mut text = String::new();
    for _ in 0..count {
        text.push_str(pieces[next(state) % pieces.len()]);
    }
    text
}

#[test]
fn agrees_on_random_texts() {
    let pieces = [
        "1", "2", "12", "-", ".", "b", "s", "l", "d", "f", "B", "L", "e", "true", "false", "a",
        "_", "+", " ", "  ", "\n", ",", ":", "[", "]", "{", "}", "[B;", "[I;", "[L;", "[b;", ";",
        "\"", "'", "\\", "\\n", "x", "\u{e9}", "\u{a0}",
    ];
    let mut state = 1u64;
    for _ in 0..4000 {
        let count = 1 + next(&mut state) % 8;
        agree_on(&random_text(&mut state, &pieces, count));
    }
}

#[test]
fn agrees_on_random_values() {
    let pieces = [
        "1", "2b", "3s", "4l", "5.5", "6f", "7d", "true", "false", "a", "\"b\"", "'c'", ",", ",",
        ",", ":", ":", "[", "[", "]", "]", "{", "{", "}", "}", "[B;", "[I;", "[L;", " ", "128b",
    ];
    let mut state = 7u64;
    for _ in 0..4000 {
        let count = 1 + next(&mut state) % 10;
        agree_on(&random_text(&mut state, &pieces, count));
    }
}

fn sample_tokens() -> Vec<Token> {
    vec![
        Token::Comma,
        Token::Colon,
        Token::ArrayStart(ArrayType::Byte),
        Token::ArrayStart(ArrayType::Int),
        Token::OpenBracket,
        Token::CloseBracket,
        Token::OpenBrace,
        Token::CloseBrace,
        Token::Boolean(true),
        Token::Integer("1".to_string(), IntegerType::Byte),
        Token::Integer("300".to_string(), IntegerType::Byte),
        Token::Integer("2".to_string(), IntegerType::Int),
        Token::Decimal("1.5".to_string(), DecimalType::Float),
        Token::Identifier("a".to_string()),
        Token::StringLiteral("a".to_string()),
    ]
}

fn agree_on_tokens(oracle: &impl Parser<Token, Tag, Error = Simple<Token>>, tokens: Vec<Token>) {
    let expected = oracle.parse(tokens.clone()).ok();
    let found = build(&tokens).ok();
    assert_eq!(found, expected, "tree of {:?}", tokens);
}

#[test]
fn agrees_on_every_short_token_sequence() {
    let oracle = oracle_parser();
    let alphabet = sample_tokens();
    let n = alphabet.len();
    for length in 0..=4 {
        let mut indices = vec![0usize; length];
        loop {
            let tokens: Vec<Token> = indices.iter().map(|&i| alphabet[i].clone()).collect();
            agree_on_tokens(&oracle, tokens);
            let mut place = 0;
            while place < length {
                indices[place] += 1;
                if indices[place] < n {
                    break;
                }
                indices[place] = 0;
                place += 1;
            }
            if place == length {
                break;
            }
        }
    }
}

#[test]
fn agrees_on_random_token_sequences() {
    let oracle = oracle_parser();
    let alphabet = sample_tokens();
    let mut state = 3u64;
    for _ in 0..20000 {
        let count = 1 + next(&mut state) % 12;
        let mut tokens = Vec::new();
        for _ in 0..count {
            tokens.push(alphabet[next(&mut state) % alphabet.len()].clone());
        }
        agree_on_tokens(&oracle, tokens);
    }
}
