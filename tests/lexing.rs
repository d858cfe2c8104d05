use alicelang::lexer::{
    is_token_separator, AliceLexer, AliceLexerErr, AliceOp, AliceSeparator, AliceToken, NumberLit,
};

fn lex(src: &str) -> Result<Vec<AliceToken>, AliceLexerErr> {
    AliceLexer::new(src.to_string(), "<test>".to_string()).tokenize()
}

fn int_of(src: &str) -> i64 {
    match lex(src).unwrap().as_slice() {
        [AliceToken::Number(NumberLit::Int(v))] => *v,
        other => panic!("not one int token: {:?}", other),
    }
}

fn is_number_format_error(src: &str) -> bool {
    matches!(lex(src), Err(AliceLexerErr::NumberFormatErr(..)))
}

#[test]
fn base_prefixes_take_their_digits_only() {
    assert_eq!(int_of("0x1F"), 31);
    assert_eq!(int_of("0xff"), 255);
    assert_eq!(int_of("0b101"), 5);
    assert!(is_number_format_error("0b102"));
    assert!(is_number_format_error("0x1G"));
    assert_eq!(int_of("0x"), 0);
    assert_eq!(int_of("0b_"), 0);
    assert!(is_number_format_error("0x1.5"));
}

#[test]
fn zero_alone_is_zero() {
    assert_eq!(int_of("0"), 0);
    let toks = lex("0)").unwrap();
    assert!(matches!(toks.as_slice(), [AliceToken::Number(NumberLit::Int(0)), AliceToken::Sep(AliceSeparator::CloseP)]));
    assert!(is_number_format_error("01"));
}

#[test]
fn underscores_are_dropped() {
    assert_eq!(int_of("1_000_"), 1000);
    assert_eq!(int_of("0b1_1"), 3);
}

#[test]
fn two_periods_are_an_error() {
    assert!(is_number_format_error("1..2"));
    assert!(is_number_format_error("1.2.3"));
    match lex("1.25").unwrap().as_slice() {
        [AliceToken::Number(NumberLit::Decimal(t))] => assert_eq!(t, "1.25"),
        other => panic!("{:?}", other),
    }
}

#[test]
fn too_large_int_keeps_its_digits() {
    assert_eq!(int_of("9223372036854775807"), i64::MAX);
    match lex("9223372036854775808").unwrap().as_slice() {
        [AliceToken::Number(NumberLit::Wide(t))] => assert_eq!(t, "9223372036854775808"),
        other => panic!("{:?}", other),
    }
    assert!(is_number_format_error("0x10000000000000000"));
}

#[test]
fn string_escapes() {
    match lex(r#""a\n\r\t\\\"\'b""#).unwrap().as_slice() {
        [AliceToken::String(s)] => assert_eq!(s, "a\n\r\t\\\"'b"),
        other => panic!("{:?}", other),
    }
    match lex("'it''s'").unwrap().as_slice() {
        [AliceToken::String(a), AliceToken::String(b)] => {
            assert_eq!(a, "it");
            assert_eq!(b, "s");
        }
        other => panic!("{:?}", other),
    }
    assert!(matches!(lex(r#""a\qb""#), Err(AliceLexerErr::IllegalEscapeSequence(..))));
    assert!(matches!(lex(r#""abc"#), Err(AliceLexerErr::MissingDelimeter(..))));
    assert!(matches!(lex(r#""abc\"#), Err(AliceLexerErr::MissingDelimeter(..))));
}

#[test]
fn operators_and_separators() {
    let toks = lex("a**b*c->{}@,;:.[]()+%/=<>").unwrap();
    let ops: Vec<String> = toks.iter().map(|t| format!("{:?}", t)).collect();
    assert_eq!(ops[0], "IdentOrKeyw(\"a\")");
    assert!(matches!(toks[1], AliceToken::Op(AliceOp::Pow)));
    assert!(matches!(toks[3], AliceToken::Op(AliceOp::Mul)));
    assert!(matches!(toks[5], AliceToken::Op(AliceOp::Sub)));
    assert!(matches!(toks[6], AliceToken::Op(AliceOp::Gt)));
    assert!(matches!(toks[7], AliceToken::Sep(AliceSeparator::OpenB)));
    assert!(matches!(toks[9], AliceToken::Sep(AliceSeparator::At)));
    assert!(matches!(toks[toks.len() - 3], AliceToken::Op(AliceOp::Eqs)));
    assert!(matches!(toks[toks.len() - 2], AliceToken::Op(AliceOp::Lt)));
    assert_eq!(toks.len(), 24);
}

#[test]
fn identifiers_end_at_separators_and_whitespace() {
    let toks = lex("  let\tx:int\n  println  ").unwrap();
    let words: Vec<String> = toks
        .iter()
        .map(|t| match t {
            AliceToken::IdentOrKeyw(s) => s.clone(),
            AliceToken::Sep(AliceSeparator::Colon) => ":".to_string(),
            other => panic!("{:?}", other),
        })
        .collect();
    assert_eq!(words, vec!["let", "x", ":", "int", "println"]);
    assert!(lex("").unwrap().is_empty());
}

#[test]
fn token_separators() {
    for c in ['(', ')', '{', '}', '[', ']', ',', '.', ':', ';', '@', '+', '-', '*', '/', '%', '=', '<', '>', '"', '\''] {
        assert!(is_token_separator(&c), "{}", c);
    }
    for c in ['a', '_', '!', '1', ' '] {
        assert!(!is_token_separator(&c), "{}", c);
    }
}

#[test]
fn number_format_error_helper() {
    let e = alicelang::lexer::to_number_format_error("bad".to_string(), alicelang::loc::Loc::new("f".to_string(), 2, 3));
    match e {
        AliceLexerErr::NumberFormatErr(m, l) => assert_eq!((m.as_str(), l.line, l.column), ("bad", 2, 3)),
        other => panic!("{:?}", other),
    }
}
