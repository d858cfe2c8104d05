use vstd::prelude::*;

use crate::flow::{IfContainer, IfElseContainer};
use crate::object::AliceFun;
use crate::runtime::{type_bit, type_bit_of, AliceVal};
use crate::type_check::check_rc;
use crate::type_check::{
    lookup_fun, lookup_var, pattern_matches, slot_accepts, StackPattern, TypeCheckError, TypeStack, TypeState,
    ANY, BOOL, FLOAT, INT, STRING,
};

verus! {

/// pushes a literal onto the stack
#[derive(Debug)]
pub struct PushStatement(pub AliceVal);

/// pops a value and prints it with a newline
#[derive(Debug)]
pub struct PrintlnStatement;

/// pops a value and prints it
#[derive(Debug)]
pub struct PrintStatement;

/// prints the full stack, bottom first
#[derive(Debug)]
pub struct PrintStackStatement;

/// exits the program with the exit code at the stack head
#[derive(Debug)]
pub struct ExitStatement;

/// exits the program with exit code 0
#[derive(Debug)]
pub struct OkExitStatement;

/// drops the head of the stack
#[derive(Debug)]
pub struct DropStatement;

/// swaps the two topmost stack elements: a b swap -> b a
#[derive(Debug)]
pub struct SwapStatement;

/// duplicates the head of the stack: a dup -> a a
#[derive(Debug)]
pub struct DupStatement;

/// copies the second element on top: a b over -> a b a
#[derive(Debug)]
pub struct OverStatement;

/// rotates the third element on top: a b c rot -> b c a
#[derive(Debug)]
pub struct RotStatement;

/// a b + -> a + b (numbers, or string concatenation)
#[derive(Debug)]
pub struct AddStatement;

/// a b - -> a - b
#[derive(Debug)]
pub struct SubStatement;

/// a b * -> a * b
#[derive(Debug)]
pub struct MulStatement;

/// a b / -> a / b
#[derive(Debug)]
pub struct DivStatement;

/// a b ** -> a to the power of b
#[derive(Debug)]
pub struct PowStatement;

/// a b % -> a % b
#[derive(Debug)]
pub struct ModStatement;

/// clears the stack
#[derive(Debug)]
pub struct ClearStatement;

/// binds a variable, to the stack head or to a literal
#[derive(Debug)]
pub struct LetStatement {
    pub ident: String,
    pub ty: u32,
    pub literal: Option<AliceVal>,
}

/// copies a variable's value onto the stack
#[derive(Debug)]
pub struct PushFromTableStatement(pub String);

/// binds a function
#[derive(Debug)]
pub struct FunStatement {
    pub ident: String,
    pub fun: AliceFun,
}

/// calls a function
#[derive(Debug)]
pub struct ExecuteFunStatement(pub String);

/// runs its body when the popped bool is true
#[derive(Debug)]
pub struct IfStatement(pub IfContainer);

/// runs one of two arms, by the popped bool
#[derive(Debug)]
pub struct IfElseStatement(pub IfElseContainer);

/// reads one line of input and pushes it
#[derive(Debug)]
pub struct ReadInputStatement;

/// a b == -> whether a equals b
#[derive(Debug)]
pub struct EqsStatement;

/// a b != -> whether a differs from b
#[derive(Debug)]
pub struct NotEqsStatement;

/// a b > -> a > b
#[derive(Debug)]
pub struct GtStatement;

/// a b >= -> a >= b
#[derive(Debug)]
pub struct GtEqsStatement;

/// a b < -> a < b
#[derive(Debug)]
pub struct LtStatement;

/// a b <= -> a <= b
#[derive(Debug)]
pub struct LtEqsStatement;

/// negates the bool at the stack head
#[derive(Debug)]
pub struct NotStatement;

/// One statement of a program.
#[derive(Debug)]
pub enum Statement {
    Push(PushStatement),
    Println(PrintlnStatement),
    Print(PrintStatement),
    PrintStack(PrintStackStatement),
    Exit(ExitStatement),
    OkExit(OkExitStatement),
    Drop(DropStatement),
    Swap(SwapStatement),
    Dup(DupStatement),
    Over(OverStatement),
    Rot(RotStatement),
    Add(AddStatement),
    Sub(SubStatement),
    Mul(MulStatement),
    Div(DivStatement),
    Pow(PowStatement),
    Mod(ModStatement),
    Clear(ClearStatement),
    Let(LetStatement),
    PushFromTable(PushFromTableStatement),
    Fun(FunStatement),
    ExecuteFun(ExecuteFunStatement),
    If(IfStatement),
    IfElse(IfElseStatement),
    ReadInput(ReadInputStatement),
    Eqs(EqsStatement),
    NotEqs(NotEqsStatement),
    Gt(GtStatement),
    GtEqs(GtEqsStatement),
    Lt(LtStatement),
    LtEqs(LtEqsStatement),
    Not(NotStatement),
}

/// The result type of `+` (with `strings`), `-`, `*`, `/` and `%` on operand types `a`, `b`.
pub open spec fn arith_type(a: u32, b: u32, strings: bool) -> Option<u32> {
    if a == INT && b == INT {
        Some(INT)
    } else if (a == INT || a == FLOAT) && (b == INT || b == FLOAT) {
        Some(FLOAT)
    } else if strings && a == STRING && b == STRING {
        Some(STRING)
    } else {
        None
    }
}

/// The result type of `**`: an int may not be raised to a float.
pub open spec fn pow_type(a: u32, b: u32) -> Option<u32> {
    if a == INT && b == INT {
        Some(INT)
    } else if a == FLOAT && (b == FLOAT || b == INT) {
        Some(FLOAT)
    } else {
        None
    }
}

/// Whether `<`, `<=`, `>`, `>=` accept operand types `a`, `b`.
pub open spec fn ordered_types(a: u32, b: u32) -> bool {
    a == b && (a == INT || a == FLOAT)
}

/// The pattern a statement consumes before its own effect.
pub open spec fn in_pattern_of(s: Statement) -> Seq<u32> {
    match s {
        Statement::Println(_) | Statement::Print(_) | Statement::Drop(_) => seq![ANY],
        Statement::Exit(_) => seq![INT],
        Statement::Let(l) => if l.literal is None {
            seq![l.ty]
        } else {
            seq![]
        },
        Statement::If(_) | Statement::IfElse(_) | Statement::Not(_) => seq![BOOL],
        _ => seq![],
    }
}

/// The pattern a statement produces after its own effect.
pub open spec fn out_pattern_of(s: Statement) -> Seq<u32> {
    match s {
        Statement::Push(p) => seq![type_bit_of(p.0)],
        Statement::ReadInput(_) | Statement::Not(_) => if s is ReadInput {
            seq![STRING]
        } else {
            seq![BOOL]
        },
        _ => seq![],
    }
}

pub open spec fn with_vals(ts: TypeState, vals: Seq<u32>) -> TypeState {
    TypeState { vals: vals, ..ts }
}

/// Replaces the two topmost types by `t`.
pub open spec fn binary_result(ts: TypeState, t: Option<u32>) -> Option<TypeState> {
    match t {
        Some(t) => Some(with_vals(ts, ts.vals.subrange(0, ts.vals.len() - 2).push(t))),
        None => None,
    }
}

/// The effect of a statement that is not fixed by its patterns, for the statements
/// without a body.
pub open spec fn simple_effect(ts: TypeState, s: Statement) -> Option<TypeState> {
    let v = ts.vals;
    let n = v.len();
    match s {
        Statement::Swap(_) => if n >= 2 {
            Some(with_vals(ts, v.subrange(0, n - 2).push(v[n - 1]).push(v[n - 2])))
        } else {
            None
        },
        Statement::Dup(_) => if n >= 1 {
            Some(with_vals(ts, v.push(v[n - 1])))
        } else {
            None
        },
        Statement::Over(_) => if n >= 2 {
            Some(with_vals(ts, v.push(v[n - 2])))
        } else {
            None
        },
        Statement::Rot(_) => if n >= 3 {
            Some(with_vals(ts, v.subrange(0, n - 3).push(v[n - 2]).push(v[n - 1]).push(v[n - 3])))
        } else {
            None
        },
        Statement::Clear(_) => Some(with_vals(ts, seq![])),
        Statement::Add(_) => if n >= 2 {
            binary_result(ts, arith_type(v[n - 2], v[n - 1], true))
        } else {
            None
        },
        Statement::Sub(_) | Statement::Mul(_) | Statement::Div(_) | Statement::Mod(_) => if n
            >= 2 {
            binary_result(ts, arith_type(v[n - 2], v[n - 1], false))
        } else {
            None
        },
        Statement::Pow(_) => if n >= 2 {
            binary_result(ts, pow_type(v[n - 2], v[n - 1]))
        } else {
            None
        },
        Statement::Eqs(_) | Statement::NotEqs(_) => if n >= 2 && v[n - 2] == v[n - 1] {
            binary_result(ts, Some(BOOL))
        } else {
            None
        },
        Statement::Gt(_) | Statement::GtEqs(_) | Statement::Lt(_) | Statement::LtEqs(_) => if n
            >= 2 && ordered_types(v[n - 2], v[n - 1]) {
            binary_result(ts, Some(BOOL))
        } else {
            None
        },
        Statement::Let(l) => match l.literal {
            Some(v) if !slot_accepts(type_bit_of(v), l.ty) => None,
            _ => Some(TypeState { vars: ts.vars.push((l.ident@, l.ty)), ..ts }),
        },
        Statement::PushFromTable(p) => match lookup_var(ts.vars, p.0@) {
            Some(t) => Some(with_vals(ts, v.push(t))),
            None => None,
        },
        Statement::ExecuteFun(c) => match lookup_fun(ts.funs, c.0@) {
            Some(sig) => if pattern_matches(v, sig.0) {
                let rest = v.subrange(0, n - sig.0.len());
                Some(
                    with_vals(
                        ts,
                        if sig.1 != 0 {
                            rest.push(sig.1)
                        } else {
                            rest
                        },
                    ),
                )
            } else {
                None
            },
            None => None,
        },
        _ => Some(ts),
    }
}

/// Whether a function body, checked alone on a stack that holds its arguments, leaves
/// nothing (for return type 0) or exactly its return type.
pub open spec fn fun_result_ok(t: TypeState, ret: u32) -> bool {
    (ret == 0 && t.vals.len() == 0) || (t.vals.len() == 1 && t.vals[0] == ret)
}

/// The state in which a function body is checked: its arguments on the stack, nothing bound.
pub open spec fn fun_entry(args: Seq<u32>) -> TypeState {
    TypeState { vals: args, vars: seq![], funs: seq![] }
}

/// Whether `body`, checked alone from the arguments `args`, ends as the return type `ret` asks.
pub open spec fn fun_body_ok(args: Seq<u32>, ret: u32, body: Seq<Statement>) -> bool
    decreases body, 1nat,
{
    match check_seq(fun_entry(args), body) {
        Some(t) => fun_result_ok(t, ret),
        None => false,
    }
}

/// The statement's own effect, applied after its input pattern has been consumed.
pub open spec fn custom_effect(t1: TypeState, s: Statement) -> Option<TypeState>
    decreases s, 2nat,
{
    match s {
        Statement::If(i) => match check_seq(t1, i.0.body@) {
            Some(t) => if t.vals == t1.vals {
                Some(t1)
            } else {
                None
            },
            None => None,
        },
        Statement::IfElse(i) => match (check_seq(t1, i.0.if_body@), check_seq(t1, i.0.else_body@)) {
            (Some(a), Some(b)) => if a.vals == b.vals {
                Some(with_vals(t1, a.vals))
            } else {
                None
            },
            _ => None,
        },
        Statement::Fun(f) => if fun_body_ok(f.fun.args@, f.fun.return_type, f.fun.body@) {
            Some(TypeState { funs: t1.funs.push((f.ident@, f.fun.args@, f.fun.return_type)), ..t1 })
        } else {
            None
        },
        _ => simple_effect(t1, s),
    }
}

pub proof fn lemma_fun_entry_funs(args: Seq<u32>)
    ensures
        fun_entry(args).funs.len() == 0,
        fun_entry(args).vars.len() == 0,
        fun_entry(args).vals == args,
{
}

/// The type-checker's state after statement `s`: its input pattern is consumed, its own
/// effect applied and its output pattern pushed; `None` when `s` is rejected.
pub open spec fn check_stmt(ts: TypeState, s: Statement) -> Option<TypeState>
    decreases s, 3nat,
{
    let inp = in_pattern_of(s);
    if !pattern_matches(ts.vals, inp) {
        None
    } else {
        match custom_effect(with_vals(ts, ts.vals.subrange(0, ts.vals.len() - inp.len())), s) {
            Some(t) => Some(with_vals(t, t.vals + out_pattern_of(s))),
            None => None,
        }
    }
}

/// The type-checker's state after the statements `ss` in order, or `None` when one is rejected.
pub open spec fn check_seq(ts: TypeState, ss: Seq<Statement>) -> Option<TypeState>
    decreases ss, 0nat,
{
    if ss.len() == 0 {
        Some(ts)
    } else {
        match check_seq(ts, ss.subrange(0, ss.len() - 1)) {
            Some(t) => check_stmt(t, ss[ss.len() - 1]),
            None => None,
        }
    }
}

/// Whether a custom check returned `r` and left `after`, as `expected` (the spec's result) says.
pub open spec fn custom_ok(
    r: Result<(), TypeCheckError>,
    after: TypeState,
    expected: Option<TypeState>,
) -> bool {
    &&& r is Ok <==> expected is Some
    &&& r is Ok ==> after == expected->0
}

fn err(msg: &str) -> (r: Result<(), TypeCheckError>)
    ensures
        r is Err,
{
    Err(TypeCheckError(msg.to_string()))
}

fn arith_type_exec(a: u32, b: u32, strings: bool) -> (r: Option<u32>)
    ensures
        r == arith_type(a, b, strings),
{
    if a == INT && b == INT {
        Some(INT)
    } else if (a == INT || a == FLOAT) && (b == INT || b == FLOAT) {
        Some(FLOAT)
    } else if strings && a == STRING && b == STRING {
        Some(STRING)
    } else {
        None
    }
}

/// Pops the two topmost types and pushes `t`, or fails with `msg` when `t` is `None`.
fn replace_top_two(stack: &mut TypeStack, t: Option<u32>, msg: &str) -> (r: Result<
    (),
    TypeCheckError,
>)
    requires
        old(stack)@.vals.len() >= 2,
    ensures
        custom_ok(r, final(stack)@, binary_result(old(stack)@, t)),
        r is Err ==> final(stack)@ == old(stack)@,
{
    match t {
        Some(t) => {
            stack.vals.pop();
            stack.vals.pop();
            stack.vals.push(t);
            assert(stack.vals@ =~= old(stack).vals@.subrange(0, old(stack).vals@.len() - 2).push(
                t,
            ));
            Ok(())
        },
        None => err(msg),
    }
}

/// The two topmost types, second and first.
fn top_two(stack: &TypeStack) -> (r: (u32, u32))
    requires
        stack@.vals.len() >= 2,
    ensures
        r.0 == stack@.vals[stack@.vals.len() - 2],
        r.1 == stack@.vals[stack@.vals.len() - 1],
{
    let n = stack.vals.len();
    (stack.vals[n - 2], stack.vals[n - 1])
}

impl SwapStatement {
    pub fn custom_type_check(&self, stack: &mut TypeStack) -> (r: Result<(), TypeCheckError>)
        ensures
            custom_ok(r, final(stack)@, simple_effect(old(stack)@, Statement::Swap(*self))),
            r is Err ==> final(stack)@ == old(stack)@,
    {
        stack.required_size(2)?;
        let n = stack.vals.len();
        let second = stack.vals.remove(n - 2);
        stack.vals.push(second);
        let ghost v = old(stack)@.vals;
        assert(stack.vals@ =~= v.subrange(0, n - 2).push(v[n - 1]).push(v[n - 2]));
        Ok(())
    }
}

impl DupStatement {
    pub fn custom_type_check(&self, stack: &mut TypeStack) -> (r: Result<(), TypeCheckError>)
        ensures
            custom_ok(r, final(stack)@, simple_effect(old(stack)@, Statement::Dup(*self))),
            r is Err ==> final(stack)@ == old(stack)@,
    {
        stack.required_size(1)?;
        let top = stack.vals[stack.vals.len() - 1];
        stack.vals.push(top);
        Ok(())
    }
}

impl OverStatement {
    pub fn custom_type_check(&self, stack: &mut TypeStack) -> (r: Result<(), TypeCheckError>)
        ensures
            custom_ok(r, final(stack)@, simple_effect(old(stack)@, Statement::Over(*self))),
            r is Err ==> final(stack)@ == old(stack)@,
    {
        stack.required_size(2)?;
        let second = stack.vals[stack.vals.len() - 2];
        stack.vals.push(second);
        Ok(())
    }
}

impl RotStatement {
    pub fn custom_type_check(&self, stack: &mut TypeStack) -> (r: Result<(), TypeCheckError>)
        ensures
            custom_ok(r, final(stack)@, simple_effect(old(stack)@, Statement::Rot(*self))),
            r is Err ==> final(stack)@ == old(stack)@,
    {
        stack.required_size(3)?;
        let n = stack.vals.len();
        let third = stack.vals.remove(n - 3);
        stack.vals.push(third);
        let ghost v = old(stack)@.vals;
        assert(stack.vals@ =~= v.subrange(0, n - 3).push(v[n - 2]).push(v[n - 1]).push(v[n - 3]));
        Ok(())
    }
}

impl ClearStatement {
    pub fn custom_type_check(&self, stack: &mut TypeStack) -> (r: Result<(), TypeCheckError>)
        ensures
            custom_ok(r, final(stack)@, simple_effect(old(stack)@, Statement::Clear(*self))),
            r is Err ==> final(stack)@ == old(stack)@,
    {
        stack.vals.clear();
        assert(stack.vals@ =~= seq![]);
        Ok(())
    }
}

impl AddStatement {
    pub fn custom_type_check(&self, stack: &mut TypeStack) -> (r: Result<(), TypeCheckError>)
        ensures
            custom_ok(r, final(stack)@, simple_effect(old(stack)@, Statement::Add(*self))),
            r is Err ==> final(stack)@ == old(stack)@,
    {
        stack.required_size(2)?;
        let (a, b) = top_two(stack);
        replace_top_two(
            stack,
            arith_type_exec(a, b, true),
            "+ only works on numbers and string+string concat",
        )
    }
}

impl SubStatement {
    pub fn custom_type_check(&self, stack: &mut TypeStack) -> (r: Result<(), TypeCheckError>)
        ensures
            custom_ok(r, final(stack)@, simple_effect(old(stack)@, Statement::Sub(*self))),
            r is Err ==> final(stack)@ == old(stack)@,
    {
        stack.required_size(2)?;
        let (a, b) = top_two(stack);
        replace_top_two(stack, arith_type_exec(a, b, false), "- only works on numbers")
    }
}

impl MulStatement {
    pub fn custom_type_check(&self, stack: &mut TypeStack) -> (r: Result<(), TypeCheckError>)
        ensures
            custom_ok(r, final(stack)@, simple_effect(old(stack)@, Statement::Mul(*self))),
            r is Err ==> final(stack)@ == old(stack)@,
    {
        stack.required_size(2)?;
        let (a, b) = top_two(stack);
        replace_top_two(stack, arith_type_exec(a, b, false), "* only works on numbers")
    }
}

impl DivStatement {
    pub fn custom_type_check(&self, stack: &mut TypeStack) -> (r: Result<(), TypeCheckError>)
        ensures
            custom_ok(r, final(stack)@, simple_effect(old(stack)@, Statement::Div(*self))),
            r is Err ==> final(stack)@ == old(stack)@,
    {
        stack.required_size(2)?;
        let (a, b) = top_two(stack);
        replace_top_two(stack, arith_type_exec(a, b, false), "/ only works on numbers")
    }
}

impl ModStatement {
    pub fn custom_type_check(&self, stack: &mut TypeStack) -> (r: Result<(), TypeCheckError>)
        ensures
            custom_ok(r, final(stack)@, simple_effect(old(stack)@, Statement::Mod(*self))),
            r is Err ==> final(stack)@ == old(stack)@,
    {
        stack.required_size(2)?;
        let (a, b) = top_two(stack);
        replace_top_two(stack, arith_type_exec(a, b, false), "% only works on numbers")
    }
}

impl PowStatement {
    pub fn custom_type_check(&self, stack: &mut TypeStack) -> (r: Result<(), TypeCheckError>)
        ensures
            custom_ok(r, final(stack)@, simple_effect(old(stack)@, Statement::Pow(*self))),
            r is Err ==> final(stack)@ == old(stack)@,
    {
        stack.required_size(2)?;
        let (a, b) = top_two(stack);
        if a == INT && b == FLOAT {
            return err("cannot raise an int to the power of a float");
        }
        let t = if a == INT && b == INT {
            Some(INT)
        } else if a == FLOAT && (b == FLOAT || b == INT) {
            Some(FLOAT)
        } else {
            None
        };
        replace_top_two(stack, t, "** only works on numbers")
    }
}

/// The check shared by `==` and `!=`: both operands of one type.
fn equality_check(stack: &mut TypeStack) -> (r: Result<(), TypeCheckError>)
    ensures
        custom_ok(r, final(stack)@, simple_effect(old(stack)@, Statement::Eqs(EqsStatement))),
        r is Err ==> final(stack)@ == old(stack)@,
{
    stack.required_size(2)?;
    let (a, b) = top_two(stack);
    if a != b {
        return err("cannot compare values of different types");
    }
    replace_top_two(stack, Some(BOOL), "")
}

/// The check shared by `<`, `<=`, `>`, `>=`: both operands int, or both float.
fn ordering_check(stack: &mut TypeStack) -> (r: Result<(), TypeCheckError>)
    ensures
        custom_ok(r, final(stack)@, simple_effect(old(stack)@, Statement::Gt(GtStatement))),
        r is Err ==> final(stack)@ == old(stack)@,
{
    stack.required_size(2)?;
    let (a, b) = top_two(stack);
    if !(a == b && (a == INT || a == FLOAT)) {
        return err("can only arithmetically compare int to int and float to float");
    }
    replace_top_two(stack, Some(BOOL), "")
}

impl EqsStatement {
    pub fn custom_type_check(&self, stack: &mut TypeStack) -> (r: Result<(), TypeCheckError>)
        ensures
            custom_ok(r, final(stack)@, simple_effect(old(stack)@, Statement::Eqs(*self))),
            r is Err ==> final(stack)@ == old(stack)@,
    {
        equality_check(stack)
    }
}

impl NotEqsStatement {
    pub fn custom_type_check(&self, stack: &mut TypeStack) -> (r: Result<(), TypeCheckError>)
        ensures
            custom_ok(r, final(stack)@, simple_effect(old(stack)@, Statement::NotEqs(*self))),
            r is Err ==> final(stack)@ == old(stack)@,
    {
        equality_check(stack)
    }
}

impl GtStatement {
    pub fn custom_type_check(&self, stack: &mut TypeStack) -> (r: Result<(), TypeCheckError>)
        ensures
            custom_ok(r, final(stack)@, simple_effect(old(stack)@, Statement::Gt(*self))),
            r is Err ==> final(stack)@ == old(stack)@,
    {
        ordering_check(stack)
    }
}

impl GtEqsStatement {
    pub fn custom_type_check(&self, stack: &mut TypeStack) -> (r: Result<(), TypeCheckError>)
        ensures
            custom_ok(r, final(stack)@, simple_effect(old(stack)@, Statement::GtEqs(*self))),
            r is Err ==> final(stack)@ == old(stack)@,
    {
        ordering_check(stack)
    }
}

impl LtStatement {
    pub fn custom_type_check(&self, stack: &mut TypeStack) -> (r: Result<(), TypeCheckError>)
        ensures
            custom_ok(r, final(stack)@, simple_effect(old(stack)@, Statement::Lt(*self))),
            r is Err ==> final(stack)@ == old(stack)@,
    {
        ordering_check(stack)
    }
}

impl LtEqsStatement {
    pub fn custom_type_check(&self, stack: &mut TypeStack) -> (r: Result<(), TypeCheckError>)
        ensures
            custom_ok(r, final(stack)@, simple_effect(old(stack)@, Statement::LtEqs(*self))),
            r is Err ==> final(stack)@ == old(stack)@,
    {
        ordering_check(stack)
    }
}

impl LetStatement {
    pub fn in_pattern(&self) -> (r: StackPattern)
        ensures
            r@ == in_pattern_of(Statement::Let(*self)),
    {
        match self.literal {
            None => StackPattern::single(self.ty),
            Some(_) => StackPattern(Vec::new()),
        }
    }

    pub fn custom_type_check(&self, stack: &mut TypeStack) -> (r: Result<(), TypeCheckError>)
        ensures
            custom_ok(r, final(stack)@, simple_effect(old(stack)@, Statement::Let(*self))),
            r is Err ==> final(stack)@ == old(stack)@,
    {
        if let Some(v) = &self.literal {
            let t = type_bit(v);
            if t & self.ty != t {
                return err("literal does not have the declared type");
            }
        }
        stack.vars.push((self.ident.clone(), self.ty));
        assert(stack@.vars =~= old(stack)@.vars.push((self.ident@, self.ty)));
        Ok(())
    }
}

impl PushFromTableStatement {
    pub fn custom_type_check(&self, stack: &mut TypeStack) -> (r: Result<(), TypeCheckError>)
        ensures
            custom_ok(
                r,
                final(stack)@,
                simple_effect(old(stack)@, Statement::PushFromTable(*self)),
            ),
            r is Err ==> final(stack)@ == old(stack)@,
    {
        match stack.var_type(&self.0) {
            Some(ty) => {
                stack.vals.push(ty);
                Ok(())
            },
            None => err("variable binding doesn't exist when this executes"),
        }
    }
}

impl ExecuteFunStatement {
    pub fn custom_type_check(&self, stack: &mut TypeStack) -> (r: Result<(), TypeCheckError>)
        ensures
            custom_ok(r, final(stack)@, simple_effect(old(stack)@, Statement::ExecuteFun(*self))),
    {
        match stack.fun_sig(&self.0) {
            Some((args, ret)) => {
                args.type_check(stack)?;
                if ret != 0 {
                    stack.vals.push(ret);
                }
                Ok(())
            },
            None => err("function doesn't exist when this executes"),
        }
    }
}

/// Once a prefix of `ss` is rejected, so is `ss`.
pub proof fn lemma_check_seq_prefix_rejected(ts: TypeState, ss: Seq<Statement>, i: int)
    requires
        0 <= i <= ss.len(),
        check_seq(ts, ss.subrange(0, i)) is None,
    ensures
        check_seq(ts, ss) is None,
    decreases ss.len() - i,
{
    if i < ss.len() {
        let longer = ss.subrange(0, i + 1);
        assert(longer.subrange(0, longer.len() - 1) =~= ss.subrange(0, i));
        lemma_check_seq_prefix_rejected(ts, ss, i + 1);
    } else {
        assert(ss.subrange(0, i) =~= ss);
    }
}

/// Checking one more statement extends the check of a prefix.
pub proof fn lemma_check_seq_step(ts: TypeState, ss: Seq<Statement>, i: int)
    requires
        0 <= i < ss.len(),
    ensures
        check_seq(ts, ss.subrange(0, i + 1)) == match check_seq(ts, ss.subrange(0, i)) {
            Some(t) => check_stmt(t, ss[i]),
            None => None,
        },
{
    let longer = ss.subrange(0, i + 1);
    assert(longer.subrange(0, longer.len() - 1) =~= ss.subrange(0, i));
    assert(longer[longer.len() - 1] == ss[i]);
}

impl Statement {
    pub fn in_pattern(&self) -> (r: StackPattern)
        ensures
            r@ == in_pattern_of(*self),
    {
        match self {
            Statement::Println(_) | Statement::Print(_) | Statement::Drop(_) => StackPattern::any(
                1,
            ),
            Statement::Exit(_) => StackPattern::single(INT),
            Statement::Let(l) => l.in_pattern(),
            Statement::If(_) | Statement::IfElse(_) | Statement::Not(_) => StackPattern::single(
                BOOL,
            ),
            _ => StackPattern(Vec::new()),
        }
    }

    pub fn out_pattern(&self) -> (r: StackPattern)
        ensures
            r@ == out_pattern_of(*self),
    {
        match self {
            Statement::Push(p) => StackPattern::single(type_bit(&p.0)),
            Statement::ReadInput(_) => StackPattern::single(STRING),
            Statement::Not(_) => StackPattern::single(BOOL),
            _ => StackPattern(Vec::new()),
        }
    }

    /// Applies the statement's own effect to the abstract stack.
    pub fn custom_type_check(&self, stack: &mut TypeStack) -> (r: Result<(), TypeCheckError>)
        ensures
            custom_ok(r, final(stack)@, custom_effect(old(stack)@, *self)),
        decreases self, 2nat,
    {
        match self {
            Statement::Swap(x) => x.custom_type_check(stack),
            Statement::Dup(x) => x.custom_type_check(stack),
            Statement::Over(x) => x.custom_type_check(stack),
            Statement::Rot(x) => x.custom_type_check(stack),
            Statement::Clear(x) => x.custom_type_check(stack),
            Statement::Add(x) => x.custom_type_check(stack),
            Statement::Sub(x) => x.custom_type_check(stack),
            Statement::Mul(x) => x.custom_type_check(stack),
            Statement::Div(x) => x.custom_type_check(stack),
            Statement::Mod(x) => x.custom_type_check(stack),
            Statement::Pow(x) => x.custom_type_check(stack),
            Statement::Eqs(x) => x.custom_type_check(stack),
            Statement::NotEqs(x) => x.custom_type_check(stack),
            Statement::Gt(x) => x.custom_type_check(stack),
            Statement::GtEqs(x) => x.custom_type_check(stack),
            Statement::Lt(x) => x.custom_type_check(stack),
            Statement::LtEqs(x) => x.custom_type_check(stack),
            Statement::Let(x) => x.custom_type_check(stack),
            Statement::PushFromTable(x) => x.custom_type_check(stack),
            Statement::ExecuteFun(x) => x.custom_type_check(stack),
            Statement::Fun(x) => x.custom_type_check(stack),
            Statement::If(x) => x.custom_type_check(stack),
            Statement::IfElse(x) => x.custom_type_check(stack),
            _ => Ok(()),
        }
    }
}

impl IfStatement {
    /// The body, checked on a copy of the state, must leave the stack types as it found
    /// them; the names it binds do not outlive it.
    pub fn custom_type_check(&self, stack: &mut TypeStack) -> (r: Result<(), TypeCheckError>)
        ensures
            custom_ok(r, final(stack)@, custom_effect(old(stack)@, Statement::If(*self))),
            final(stack)@ == old(stack)@,
        decreases self, 2nat,
    {
        let mut arm = stack.duplicate();
        check_rc(&mut arm, &self.0.body)?;
        if !stack.same_vals(&arm) {
            err("if without else part is not allowed to modify stack")
        } else {
            Ok(())
        }
    }
}

impl IfElseStatement {
    /// Both arms are checked from the same state and must leave the same stack types,
    /// which the state then takes; the names an arm binds do not outlive it.
    pub fn custom_type_check(&self, stack: &mut TypeStack) -> (r: Result<(), TypeCheckError>)
        ensures
            custom_ok(r, final(stack)@, custom_effect(old(stack)@, Statement::IfElse(*self))),
            r is Err ==> final(stack)@ == old(stack)@,
        decreases self, 2nat,
    {
        let mut then_arm = stack.duplicate();
        let mut else_arm = stack.duplicate();
        check_rc(&mut then_arm, &self.0.if_body)?;
        check_rc(&mut else_arm, &self.0.else_body)?;
        if then_arm.same_vals(&else_arm) {
            stack.vals = then_arm.vals;
            Ok(())
        } else {
            err("if and else body don't have equal effect on stack")
        }
    }
}

impl FunStatement {
    /// Checks the body against the signature, then records the signature.
    pub fn custom_type_check(&self, stack: &mut TypeStack) -> (r: Result<(), TypeCheckError>)
        ensures
            custom_ok(r, final(stack)@, custom_effect(old(stack)@, Statement::Fun(*self))),
            r is Err ==> final(stack)@ == old(stack)@,
        decreases self, 2nat,
    {
        self.fun.type_check()?;
        let args = self.fun.args.clone_pattern();
        stack.funs.push((self.ident.clone(), args, self.fun.return_type));
        assert(stack@.funs =~= old(stack)@.funs.push(
            (self.ident@, self.fun.args@, self.fun.return_type),
        ));
        Ok(())
    }
}

} // verus!
