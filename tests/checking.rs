use alicelang::keyword::{keywords, Keyword};
use alicelang::loc::Loc;
use alicelang::runtime::{AliceStack, AliceVal};
use alicelang::parser::{type_bit_any_allowed, type_bit_of_name};
use alicelang::statement::{
    AddStatement, DupStatement, EqsStatement, GtStatement, OverStatement, PowStatement,
    RotStatement, SwapStatement,
};
use alicelang::type_check::{
    is_object, StackPattern, TypeCheckError, TypeStack, ANY, BOOL, FLOAT, INT, STRING,
};

fn stack_of(vals: &[u32]) -> TypeStack {
    let mut s = TypeStack::new();
    StackPattern(vals.to_vec()).push(&mut s);
    s
}

#[test]
fn patterns_match_bitwise() {
    assert_eq!(StackPattern::single(INT).0, vec![INT]);
    assert_eq!(StackPattern::any(3).0, vec![ANY, ANY, ANY]);
    let mut s = stack_of(&[STRING, INT]);
    assert!(StackPattern::any(1).type_check(&mut s).is_ok());
    assert_eq!(s.vals, vec![STRING]);
    let mut s = stack_of(&[STRING, INT]);
    assert!(StackPattern::single(FLOAT).type_check(&mut s).is_err());
    let mut s = stack_of(&[INT]);
    assert!(StackPattern(vec![INT, INT]).type_check(&mut s).is_err());
    let mut s = stack_of(&[STRING, INT]);
    assert!(StackPattern(vec![STRING, INT]).type_check(&mut s).is_ok());
    assert!(s.vals.is_empty());
}

#[test]
fn type_stack_basics() {
    let mut s = stack_of(&[INT, BOOL]);
    assert!(s.required_size(2).is_ok());
    assert!(s.required_size(3).is_err());
    assert_eq!(s.pop(), Some(BOOL));
    assert_eq!(s.pop(), Some(INT));
    assert_eq!(s.pop(), None);
}

#[test]
fn shufflers() {
    let mut s = stack_of(&[INT, BOOL]);
    SwapStatement.custom_type_check(&mut s).ok().unwrap();
    assert_eq!(s.vals, vec![BOOL, INT]);
    let mut s = stack_of(&[INT, BOOL, STRING]);
    RotStatement.custom_type_check(&mut s).ok().unwrap();
    assert_eq!(s.vals, vec![BOOL, STRING, INT]);
    let mut s = stack_of(&[INT, BOOL]);
    OverStatement.custom_type_check(&mut s).ok().unwrap();
    assert_eq!(s.vals, vec![INT, BOOL, INT]);
    DupStatement.custom_type_check(&mut s).ok().unwrap();
    assert_eq!(s.vals, vec![INT, BOOL, INT, INT]);
    let mut s = stack_of(&[INT]);
    assert!(SwapStatement.custom_type_check(&mut s).is_err());
}

#[test]
fn arithmetic_types() {
    let mut s = stack_of(&[INT, FLOAT]);
    AddStatement.custom_type_check(&mut s).ok().unwrap();
    assert_eq!(s.vals, vec![FLOAT]);
    let mut s = stack_of(&[STRING, STRING]);
    AddStatement.custom_type_check(&mut s).ok().unwrap();
    assert_eq!(s.vals, vec![STRING]);
    let mut s = stack_of(&[STRING, INT]);
    assert!(AddStatement.custom_type_check(&mut s).is_err());
    let mut s = stack_of(&[FLOAT, INT]);
    PowStatement.custom_type_check(&mut s).ok().unwrap();
    assert_eq!(s.vals, vec![FLOAT]);
    let mut s = stack_of(&[INT, FLOAT]);
    match PowStatement.custom_type_check(&mut s) {
        Err(TypeCheckError(m)) => assert!(m.contains("int to the power of a float")),
        Ok(()) => panic!("accepted int ** float"),
    }
    let mut s = stack_of(&[INT, INT]);
    EqsStatement.custom_type_check(&mut s).ok().unwrap();
    assert_eq!(s.vals, vec![BOOL]);
    let mut s = stack_of(&[FLOAT, INT]);
    assert!(GtStatement.custom_type_check(&mut s).is_err());
}

#[test]
fn error_prefix() {
    let e = TypeCheckError("inner".to_string()).prefix("outer: ".to_string());
    assert_eq!(e.0, "outer: inner");
}

#[test]
fn object_bits() {
    assert!(!is_object(&15));
    assert!(is_object(&16));
    assert!(is_object(&(16 | (7 << 5))));
}

#[test]
fn type_names() {
    assert_eq!(type_bit_of_name(&"int".to_string()), Some(INT));
    assert_eq!(type_bit_of_name(&"string".to_string()), Some(STRING));
    assert_eq!(type_bit_of_name(&"any".to_string()), None);
    assert_eq!(type_bit_any_allowed(&"any".to_string()), Ok(ANY));
    assert_eq!(type_bit_any_allowed(&"float".to_string()), Ok(FLOAT));
    assert!(type_bit_any_allowed(&"number".to_string()).is_err());
}

#[test]
fn keyword_table() {
    let kws = keywords();
    assert_eq!(kws.len(), 6);
    assert!(kws.iter().any(|(s, k)| s == "let" && *k == Keyword::Let));
    assert!(kws.iter().any(|(s, k)| s == "else" && *k == Keyword::Else));
}

#[test]
fn locations() {
    let l = Loc::dummy("f.alice");
    assert_eq!((l.file.as_str(), l.line, l.column), ("f.alice", 0, 0));
    let l = Loc::new("g".to_string(), 3, 4);
    assert_eq!((l.file.as_str(), l.line, l.column), ("g", 3, 4));
}

#[test]
fn resync_rebuilds_types_from_values() {
    let mut stack = AliceStack::new(2);
    stack.push(AliceVal::Int(1));
    stack.push(AliceVal::String("s".to_string()));
    let mut ts = stack_of(&[BOOL]);
    ts.resync(&stack);
    assert_eq!(ts.vals, vec![INT, STRING]);
}
