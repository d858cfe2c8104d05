use alicelang::exec::{apply_binary, execute, BinaryOp};
use alicelang::lexer::NumberLit;
use alicelang::parser::{number_literal_value, string_literal_value, AliceParser};
use alicelang::runtime::{
    int_to_string, type_bit, AliceStack, AliceTable, AliceVal, ArithOp, CmpOp, Console, FloatOps,
    Flow, Output, RuntimeError,
};
use alicelang::statement::{AddStatement, ReadInputStatement, Statement};
use alicelang::type_check::{TypeStack, FLOAT, INT, STRING};

struct F64;

impl FloatOps for F64 {
    fn parse_decimal(text: &String) -> u64 {
        text.parse::<f64>().unwrap_or(f64::NAN).to_bits()
    }
    fn from_int(v: i64) -> u64 {
        (v as f64).to_bits()
    }
    fn to_int(f: u64) -> i64 {
        f64::from_bits(f) as i64
    }
    fn render(f: u64) -> String {
        format!("{}", f64::from_bits(f))
    }
    fn arith(op: ArithOp, a: u64, b: u64) -> u64 {
        let (x, y) = (f64::from_bits(a), f64::from_bits(b));
        match op {
            ArithOp::Add => x + y,
            ArithOp::Sub => x - y,
            ArithOp::Mul => x * y,
            ArithOp::Div => x / y,
            ArithOp::Mod => x % y,
            ArithOp::Pow => x.powf(y),
        }
        .to_bits()
    }
    fn powi(a: u64, e: i32) -> u64 {
        f64::from_bits(a).powi(e).to_bits()
    }
    fn compare(op: CmpOp, a: u64, b: u64) -> bool {
        let (x, y) = (f64::from_bits(a), f64::from_bits(b));
        match op {
            CmpOp::Eq => x == y,
            CmpOp::Gt => x > y,
            CmpOp::GtEq => x >= y,
            CmpOp::Lt => x < y,
            CmpOp::LtEq => x <= y,
        }
    }
}

fn console() -> Console {
    Console { out: Vec::new(), input: Vec::new() }
}

#[test]
fn read_input_takes_the_next_line() {
    let s = Statement::ReadInput(ReadInputStatement);
    let mut stack = AliceStack::new(1);
    let mut table = AliceTable::new(1);
    let mut c = Console { out: Vec::new(), input: vec!["hello".to_string()] };
    assert_eq!(execute::<F64>(&s, &mut stack, &mut table, &mut c).ok(), Some(Flow::Continue));
    assert!(matches!(stack.stack.as_slice(), [AliceVal::String(x)] if x == "hello"));
    assert!(matches!(execute::<F64>(&s, &mut stack, &mut table, &mut c), Err(RuntimeError::Input(_))));
}

#[test]
fn unchecked_statement_faults_instead_of_panicking() {
    let s = Statement::Add(AddStatement);
    let mut stack = AliceStack::new(1);
    let mut table = AliceTable::new(1);
    let mut c = console();
    assert!(matches!(execute::<F64>(&s, &mut stack, &mut table, &mut c), Err(RuntimeError::Fault(_))));
    stack.push(AliceVal::Bool(true));
    stack.push(AliceVal::Int(1));
    assert!(matches!(execute::<F64>(&s, &mut stack, &mut table, &mut c), Err(RuntimeError::Fault(_))));
}

#[test]
fn binary_values() {
    assert!(matches!(apply_binary::<F64>(BinaryOp::Sub, AliceVal::Int(3), AliceVal::Int(5)), Ok(AliceVal::Int(-2))));
    assert!(matches!(apply_binary::<F64>(BinaryOp::Mul, AliceVal::Int(i64::MAX), AliceVal::Int(2)), Err(RuntimeError::Arithmetic(_))));
    assert!(matches!(apply_binary::<F64>(BinaryOp::Div, AliceVal::Int(i64::MIN), AliceVal::Int(-1)), Err(RuntimeError::Arithmetic(_))));
    assert!(matches!(apply_binary::<F64>(BinaryOp::Mod, AliceVal::Int(7), AliceVal::Int(0)), Err(RuntimeError::Arithmetic(_))));
    assert!(matches!(apply_binary::<F64>(BinaryOp::Pow, AliceVal::Int(-2), AliceVal::Int(3)), Ok(AliceVal::Int(-8))));
    assert!(matches!(apply_binary::<F64>(BinaryOp::Pow, AliceVal::Int(-1), AliceVal::Int(1001)), Ok(AliceVal::Int(-1))));
    assert!(matches!(apply_binary::<F64>(BinaryOp::Eq, AliceVal::Int(1), AliceVal::String("1".to_string())), Ok(AliceVal::Bool(false))));
    match apply_binary::<F64>(BinaryOp::Add, AliceVal::Int(1), AliceVal::Float(2.5f64.to_bits())) {
        Ok(AliceVal::Float(f)) => assert_eq!(f64::from_bits(f), 3.5),
        other => panic!("{:?}", other),
    }
    match apply_binary::<F64>(BinaryOp::Add, AliceVal::String("ab".to_string()), AliceVal::String("cd".to_string())) {
        Ok(AliceVal::String(s)) => assert_eq!(s, "abcd"),
        other => panic!("{:?}", other),
    }
}

#[test]
fn literal_values() {
    let five = NumberLit::Int(5);
    assert_eq!(type_bit(&number_literal_value::<F64>(&five, None).unwrap()), INT);
    assert_eq!(type_bit(&number_literal_value::<F64>(&five, Some(FLOAT)).unwrap()), FLOAT);
    match number_literal_value::<F64>(&five, Some(STRING)).unwrap() {
        AliceVal::String(s) => assert_eq!(s, "5"),
        other => panic!("{:?}", other),
    }
    let half = NumberLit::Decimal("0.5".to_string());
    assert_eq!(type_bit(&number_literal_value::<F64>(&half, None).unwrap()), FLOAT);
    assert!(matches!(number_literal_value::<F64>(&half, Some(INT)), Ok(AliceVal::Int(0))));
    assert!(string_literal_value(&"x".to_string(), Some(INT)).is_err());
}

#[test]
fn rendering() {
    assert_eq!(int_to_string(0), "0");
    assert_eq!(int_to_string(-120), "-120");
    assert_eq!(int_to_string(i64::MIN), "-9223372036854775808");
    assert_eq!(AliceVal::Bool(true).render::<F64>(), "true");
    assert_eq!(AliceVal::Float(1.5f64.to_bits()).render::<F64>(), "1.5");
}

#[test]
fn interactive_checking_keeps_values() {
    let mut ts = TypeStack::new();
    let toks = alicelang::lexer::AliceLexer::new("1 2".to_string(), "<i>".to_string()).tokenize().unwrap();
    let first = AliceParser::new(toks).parse_interactive::<F64>(&mut ts).unwrap();
    assert_eq!(first.len(), 2);
    assert_eq!(ts.vals, vec![INT, INT]);
    let toks = alicelang::lexer::AliceLexer::new("+ println".to_string(), "<i>".to_string()).tokenize().unwrap();
    AliceParser::new(toks).parse_interactive::<F64>(&mut ts).unwrap();
    assert!(ts.vals.is_empty());
    let mut stack = AliceStack::new(4);
    let mut table = AliceTable::new(4);
    let mut c = console();
    for s in &first {
        execute::<F64>(s, &mut stack, &mut table, &mut c).ok().unwrap();
    }
    assert_eq!(stack.size(), 2);
    assert!(matches!(c.out.as_slice(), []));
    let _ = Output::Line(AliceVal::Int(0));
}

#[test]
fn finds_input_reads_at_any_depth() {
    use_reads_input();
}

fn use_reads_input() {
    let toks = alicelang::lexer::AliceLexer::new("true if { 1 drop }".to_string(), "<i>".to_string()).tokenize().unwrap();
    let ss = AliceParser::new(toks).parse::<F64>().unwrap();
    assert!(!alicelang::exec::reads_input(&ss));
    let nested = vec![Statement::If(alicelang::statement::IfStatement(alicelang::flow::IfContainer {
        body: vec![Statement::ReadInput(ReadInputStatement)],
    }))];
    assert!(alicelang::exec::reads_input(&nested));
}

#[test]
fn a_rejected_line_declares_nothing() {
    let mut ts = TypeStack::new();
    let toks = alicelang::lexer::AliceLexer::new("let x : int = 1 1 \"a\" +".to_string(), "<i>".to_string()).tokenize().unwrap();
    assert!(AliceParser::new(toks).parse_interactive::<F64>(&mut ts).is_err());
    assert!(ts.vals.is_empty() && ts.vars.is_empty());
    let toks = alicelang::lexer::AliceLexer::new("x".to_string(), "<i>".to_string()).tokenize().unwrap();
    assert!(AliceParser::new(toks).parse_interactive::<F64>(&mut ts).is_err());
}
