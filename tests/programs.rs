use alicelang::exec::run;
use alicelang::lexer::AliceLexer;
use alicelang::parser::AliceParser;
use alicelang::runtime::{
    AliceStack, AliceTable, ArithOp, CmpOp, Console, FloatOps, Flow, Output, RuntimeError,
};

struct F64;

impl FloatOps for F64 {
    fn parse_decimal(text: &String) -> u64 {
        text.parse::<f64>().unwrap_or(f64::NAN).to_bits()
    }

    fn from_int(v: i64) -> u64 {
        (v as f64).to_bits()
    }

    fn to_int(f: u64) -> i64 {
        f64::from_bits(f) as i64
    }

    fn render(f: u64) -> String {
        format!("{}", f64::from_bits(f))
    }

    fn arith(op: ArithOp, a: u64, b: u64) -> u64 {
        let (x, y) = (f64::from_bits(a), f64::from_bits(b));
        let r = match op {
            ArithOp::Add => x + y,
            ArithOp::Sub => x - y,
            ArithOp::Mul => x * y,
            ArithOp::Div => x / y,
            ArithOp::Mod => x % y,
            ArithOp::Pow => x.powf(y),
        };
        r.to_bits()
    }

    fn powi(a: u64, e: i32) -> u64 {
        f64::from_bits(a).powi(e).to_bits()
    }

    fn compare(op: CmpOp, a: u64, b: u64) -> bool {
        let (x, y) = (f64::from_bits(a), f64::from_bits(b));
        match op {
            CmpOp::Eq => x == y,
            CmpOp::Gt => x > y,
            CmpOp::GtEq => x >= y,
            CmpOp::Lt => x < y,
            CmpOp::LtEq => x <= y,
        }
    }
}

/// What running `src` prints, and how it ended.
fn run_src(src: &str) -> (String, Result<Flow, String>) {
    let tokens = match AliceLexer::new(src.to_string(), "<test>".to_string()).tokenize() {
        Ok(t) => t,
        Err(e) => return (String::new(), Err(format!("lex: {:?}", e))),
    };
    let statements = match AliceParser::new(tokens).parse::<F64>() {
        Ok(s) => s,
        Err(e) => return (String::new(), Err(format!("parse: {}", e))),
    };
    let mut stack = AliceStack::new(8);
    let mut table = AliceTable::new(8);
    let mut console = Console { out: Vec::new(), input: Vec::new() };
    let r = run::<F64>(&statements, &mut stack, &mut table, &mut console);
    let mut text = String::new();
    for o in &console.out {
        match o {
            Output::Line(v) => {
                text.push_str(&v.render::<F64>());
                text.push('\n');
            }
            Output::Text(v) => text.push_str(&v.render::<F64>()),
        }
    }
    let r = r.map_err(|e| match e {
        RuntimeError::Arithmetic(m) => format!("arithmetic: {}", m),
        RuntimeError::Input(m) => format!("input: {}", m),
        RuntimeError::Fault(m) => format!("fault: {}", m),
    });
    (text, r)
}

#[test]
fn adds_two_ints() {
    assert_eq!(run_src("1 2 + println"), ("3\n".to_string(), Ok(Flow::Continue)));
}

#[test]
fn concatenates_strings() {
    assert_eq!(run_src("\"foo\" \"bar\" + println"), ("foobar\n".to_string(), Ok(Flow::Continue)));
}

#[test]
fn compares_bools() {
    assert_eq!(run_src("true false == println"), ("false\n".to_string(), Ok(Flow::Continue)));
}

#[test]
fn let_with_literal_then_power() {
    assert_eq!(run_src("let x : int = 7 x 2 ** println"), ("49\n".to_string(), Ok(Flow::Continue)));
}

#[test]
fn function_squares() {
    assert_eq!(
        run_src("fun sq : int -> int { dup * } 5 sq() println"),
        ("25\n".to_string(), Ok(Flow::Continue))
    );
}

#[test]
fn rot_moves_third_to_top() {
    assert_eq!(
        run_src("1 2 3 rot println println println"),
        ("1\n3\n2\n".to_string(), Ok(Flow::Continue))
    );
}

#[test]
fn float_conversion_and_division() {
    assert_eq!(run_src("3 @float 2.0 / println"), ("1.5\n".to_string(), Ok(Flow::Continue)));
}

#[test]
fn excess_value_is_a_type_error() {
    let (out, r) = run_src("1 2 +");
    assert_eq!(out, "");
    let e = r.unwrap_err();
    assert!(e.starts_with("parse: "), "{}", e);
    assert!(e.contains("1 excess values"), "{}", e);
}

#[test]
fn if_body_runs_only_when_true() {
    assert_eq!(
        run_src("1 true if { 10 + } println 2 false if { 10 + } println"),
        ("11\n2\n".to_string(), Ok(Flow::Continue))
    );
}

#[test]
fn if_body_may_not_change_the_stack_types() {
    let (_, r) = run_src("1 true if { drop \"a\" } println");
    assert!(r.unwrap_err().starts_with("parse: "));
    let (_, r) = run_src("1 true if { 2 } drop drop");
    assert!(r.unwrap_err().starts_with("parse: "));
}

#[test]
fn if_else_arms_leave_the_same_types() {
    assert_eq!(
        run_src("true if { 1 } else { 2 } println false if { 1 } else { 2 } println"),
        ("1\n2\n".to_string(), Ok(Flow::Continue))
    );
    let (_, r) = run_src("true if { 1 } else { \"a\" } println");
    assert!(r.unwrap_err().starts_with("parse: "));
}

#[test]
fn literal_conversions_give_the_named_type() {
    assert_eq!(run_src("3 @int println"), ("3\n".to_string(), Ok(Flow::Continue)));
    assert_eq!(run_src("3 @float 1.5 + println"), ("4.5\n".to_string(), Ok(Flow::Continue)));
    assert_eq!(run_src("3 @string \"x\" + println"), ("3x\n".to_string(), Ok(Flow::Continue)));
    assert_eq!(run_src("2.7 @int 1 + println"), ("3\n".to_string(), Ok(Flow::Continue)));
    assert_eq!(run_src("2.5 @string println"), ("2.5\n".to_string(), Ok(Flow::Continue)));
    let (_, r) = run_src("3 @bool println");
    assert!(r.unwrap_err().starts_with("parse: "));
    let (_, r) = run_src("\"a\" @int println");
    assert!(r.unwrap_err().starts_with("parse: "));
}

#[test]
fn pow_rejects_int_to_float() {
    let (_, r) = run_src("2 2.0 ** println");
    assert!(r.unwrap_err().contains("cannot raise an int to the power of a float"));
    assert_eq!(run_src("2.0 3 ** println"), ("8\n".to_string(), Ok(Flow::Continue)));
    assert_eq!(run_src("2.0 0.5 ** 2.0 ** println").0.trim().parse::<f64>().unwrap().round(), 2.0);
}

#[test]
fn comparisons_need_matching_number_types() {
    assert_eq!(run_src("2 1 > println 1 1 >= println 1 2 < println 2 1 <= println"),
        ("true\ntrue\ntrue\nfalse\n".to_string(), Ok(Flow::Continue)));
    let (_, r) = run_src("1 1.0 > println");
    assert!(r.unwrap_err().starts_with("parse: "));
}

#[test]
fn integer_arithmetic_truncates_and_faults_are_reported() {
    assert_eq!(run_src("7 2 / println"), ("3\n".to_string(), Ok(Flow::Continue)));
    assert_eq!(run_src("0 7 - 2 / println"), ("-3\n".to_string(), Ok(Flow::Continue)));
    assert_eq!(run_src("0 7 - 2 % println"), ("-1\n".to_string(), Ok(Flow::Continue)));
    let (_, r) = run_src("1 0 / println");
    assert!(r.unwrap_err().starts_with("arithmetic: "));
    let (_, r) = run_src("2 0 1 - ** println");
    assert!(r.unwrap_err().starts_with("arithmetic: "));
    let (_, r) = run_src("2 64 ** println");
    assert!(r.unwrap_err().starts_with("arithmetic: "));
}

#[test]
fn exit_stops_with_the_code() {
    assert_eq!(run_src("1 println 3 exit 2 println"), ("1\n".to_string(), Ok(Flow::Exit(3))));
    assert_eq!(run_src("okexit 2 println"), ("".to_string(), Ok(Flow::Exit(0))));
}

#[test]
fn stack_words() {
    assert_eq!(run_src("1 2 swap println println"), ("1\n2\n".to_string(), Ok(Flow::Continue)));
    assert_eq!(run_src("1 2 over println println println"), ("1\n2\n1\n".to_string(), Ok(Flow::Continue)));
    assert_eq!(run_src("1 2 drop println"), ("1\n".to_string(), Ok(Flow::Continue)));
    assert_eq!(run_src("1 2 clear"), ("".to_string(), Ok(Flow::Continue)));
    assert_eq!(run_src("1 2 pstack clear"), ("1\n2\n".to_string(), Ok(Flow::Continue)));
    assert_eq!(run_src("\"a\" print \"b\" println"), ("ab\n".to_string(), Ok(Flow::Continue)));
}

#[test]
fn unknown_names_are_type_errors() {
    let (_, r) = run_src("x println");
    assert!(r.unwrap_err().starts_with("parse: "));
    let (_, r) = run_src("f()");
    assert!(r.unwrap_err().starts_with("parse: "));
    let (_, r) = run_src("let if : int = 1");
    assert!(r.unwrap_err().starts_with("parse: "));
}

#[test]
fn functions_check_their_signature() {
    let (_, r) = run_src("fun f -> int { \"a\" }");
    assert!(r.unwrap_err().contains("wrong return type"));
    let (_, r) = run_src("fun f -> int { 1 2 }");
    assert!(r.unwrap_err().starts_with("parse: "));
    assert_eq!(run_src("fun f { 1 println } f() f()"), ("1\n1\n".to_string(), Ok(Flow::Continue)));
    assert_eq!(run_src("fun g : int, int -> int { - } 5 3 g() println"), ("2\n".to_string(), Ok(Flow::Continue)));
}

#[test]
fn bindings_end_with_their_arm() {
    assert_eq!(run_src("true if { 1 let x : int x println }"), ("1\n".to_string(), Ok(Flow::Continue)));
    assert_eq!(
        run_src("true if { let x : int = 1 } else { let x : int = 2 } 3 println"),
        ("3\n".to_string(), Ok(Flow::Continue))
    );
    // a name bound in an arm is unknown after it, whichever way the condition goes
    for bad in ["false if { 1 let x : int } x println", "true if { 1 let x : int } x println"] {
        let (_, r) = run_src(bad);
        assert!(r.unwrap_err().starts_with("parse: "), "{}", bad);
    }
    assert_eq!(
        run_src("let x : int = 5 true if { let x : string = 'in' x println } x println"),
        ("in\n5\n".to_string(), Ok(Flow::Continue))
    );
    assert_eq!(run_src("true if { fun g { 7 println } g() }"), ("7\n".to_string(), Ok(Flow::Continue)));
}

#[test]
fn function_bodies_have_their_own_frame() {
    assert_eq!(run_src("fun f { 1 let x : int x println } f() f()"), ("1\n1\n".to_string(), Ok(Flow::Continue)));
    assert_eq!(run_src("1 2 fun f : int { clear } f() println"), ("1\n".to_string(), Ok(Flow::Continue)));
    assert_eq!(run_src("1 fun f { clear } f() println"), ("1\n".to_string(), Ok(Flow::Continue)));
    assert_eq!(
        run_src("fun f -> int { fun g -> int { 20 } g() 1 + } f() println"),
        ("21\n".to_string(), Ok(Flow::Continue))
    );
    // a body sees only what it binds itself
    let (_, r) = run_src("let x : int = 1 fun f -> int { x }");
    assert!(r.unwrap_err().starts_with("parse: "));
    assert_eq!(run_src("1 true if { clear 2 } println"), ("2\n".to_string(), Ok(Flow::Continue)));
}

#[test]
fn keywords_cannot_name_functions() {
    for bad in ["fun if { }", "fun let { }", "fun true -> int { 1 }"] {
        let (_, r) = run_src(bad);
        assert!(r.unwrap_err().starts_with("parse: "), "{}", bad);
    }
}

#[test]
fn large_and_empty_literals() {
    assert_eq!(run_src("9223372036854775808 println"), ("9223372036854775807\n".to_string(), Ok(Flow::Continue)));
    assert_eq!(run_src("99999999999999999999 @float println"), ("100000000000000000000\n".to_string(), Ok(Flow::Continue)));
    assert_eq!(run_src("0x println"), ("0\n".to_string(), Ok(Flow::Continue)));
}

#[test]
fn float_and_mixed_arithmetic() {
    assert_eq!(run_src("1 2.5 + println"), ("3.5\n".to_string(), Ok(Flow::Continue)));
    assert_eq!(run_src("2.5 1 - println"), ("1.5\n".to_string(), Ok(Flow::Continue)));
    assert_eq!(run_src("3.0 2.0 / println"), ("1.5\n".to_string(), Ok(Flow::Continue)));
    assert_eq!(run_src("1.0 0.0 / println"), ("inf\n".to_string(), Ok(Flow::Continue)));
}

#[test]
fn let_literals_take_the_declared_type() {
    assert_eq!(run_src("let b : bool = true b println"), ("true\n".to_string(), Ok(Flow::Continue)));
    assert_eq!(run_src("let s : string = 'hi' s println"), ("hi\n".to_string(), Ok(Flow::Continue)));
    assert_eq!(run_src("let f : float = 2 f 4.0 / println"), ("0.5\n".to_string(), Ok(Flow::Continue)));
    assert_eq!(run_src("5 let n : int n n * println"), ("25\n".to_string(), Ok(Flow::Continue)));
    let (_, r) = run_src("let s : string = true");
    assert!(r.unwrap_err().starts_with("parse: "));
    let (_, r) = run_src("let i : int = \"a\"");
    assert!(r.unwrap_err().starts_with("parse: "));
}

#[test]
fn not_equal_and_syntax_errors() {
    assert_eq!(run_src("1 2 != println"), ("true\n".to_string(), Ok(Flow::Continue)));
    for bad in ["1 = 1", "(", "fun", "fun f : { }", "fun f : int,, int { drop }", "if 1", "true if { 1 drop", "else { }", "1 @"] {
        let (_, r) = run_src(bad);
        assert!(r.unwrap_err().starts_with("parse: "), "{}", bad);
    }
}
