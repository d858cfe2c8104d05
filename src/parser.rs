use vstd::prelude::*;

use crate::flow::{IfContainer, IfElseContainer};
use crate::keyword::{keyword_lookup, keyword_of, Keyword};
use crate::lexer::{AliceOp, AliceSeparator, AliceToken, NumberLit};
use crate::object::AliceFun;
use crate::runtime::{type_bit_of, AliceVal, FloatOps};
use crate::statement::{
    AddStatement, DivStatement, DropStatement, DupStatement, EqsStatement, ExecuteFunStatement,
    ExitStatement, FunStatement, GtEqsStatement, GtStatement, IfElseStatement, IfStatement,
    LetStatement, LtEqsStatement, LtStatement, ModStatement, MulStatement, NotEqsStatement,
    OkExitStatement, OverStatement, PowStatement, PrintStackStatement, PrintStatement,
    PrintlnStatement, PushFromTableStatement, PushStatement, RotStatement, Statement,
    SubStatement, SwapStatement, ClearStatement,
};
use crate::text::chars_of;
use crate::type_check::{
    check, check_interactive, program_accepted, StackPattern, TypeStack, ANY, BOOL, FLOAT, INT,
    STRING,
};

verus! {

/// Turns tokens into statements, then type-checks them.
#[derive(Debug)]
pub struct AliceParser {
    tokens: Vec<AliceToken>,
}

/// The type that a type name spells: `string`, `bool`, `int` or `float`.
pub open spec fn type_of_name(s: Seq<char>) -> Option<u32> {
    if s == seq!['s', 't', 'r', 'i', 'n', 'g'] {
        Some(STRING)
    } else if s == seq!['b', 'o', 'o', 'l'] {
        Some(BOOL)
    } else if s == seq!['i', 'n', 't'] {
        Some(INT)
    } else if s == seq!['f', 'l', 'o', 'a', 't'] {
        Some(FLOAT)
    } else {
        None
    }
}

/// Whether the characters `cs` spell the text `lit`.
fn spells(cs: &Vec<char>, lit: &str) -> (r: bool)
    ensures
        r == (cs@ == lit@),
{
    let l = chars_of(lit);
    if cs.len() != l.len() {
        return false;
    }
    let mut i: usize = 0;
    while i < cs.len()
        invariant
            i <= cs@.len(),
            cs@.len() == l@.len(),
            l@ == lit@,
            forall|k: int| 0 <= k < i ==> cs@[k] == l@[k],
        decreases cs@.len() - i,
    {
        if cs[i] != l[i] {
            return false;
        }
        i = i + 1;
    }
    assert(cs@ =~= l@);
    true
}

/// The type bitmask that a type name spells.
pub fn type_bit_of_name(name: &String) -> (r: Option<u32>)
    ensures
        r == type_of_name(name@),
{
    proof {
        reveal_strlit("string");
        reveal_strlit("bool");
        reveal_strlit("int");
        reveal_strlit("float");
        assert(seq!['s', 't', 'r', 'i', 'n', 'g'] =~= "string"@);
        assert(seq!['b', 'o', 'o', 'l'] =~= "bool"@);
        assert(seq!['i', 'n', 't'] =~= "int"@);
        assert(seq!['f', 'l', 'o', 'a', 't'] =~= "float"@);
    }
    let cs = chars_of(name.as_str());
    if spells(&cs, "string") {
        Some(STRING)
    } else if spells(&cs, "bool") {
        Some(BOOL)
    } else if spells(&cs, "int") {
        Some(INT)
    } else if spells(&cs, "float") {
        Some(FLOAT)
    } else {
        None
    }
}

/// The type an argument type name spells: a type name, or `any`.
pub fn type_bit_any_allowed(name: &String) -> (r: Result<u32, String>)
    ensures
        name@ == seq!['a', 'n', 'y'] ==> r == Ok::<u32, String>(ANY),
        name@ != seq!['a', 'n', 'y'] ==> match type_of_name(name@) {
            Some(t) => r == Ok::<u32, String>(t),
            None => r is Err,
        },
{
    proof {
        reveal_strlit("any");
        assert(seq!['a', 'n', 'y'] =~= "any"@);
    }
    let cs = chars_of(name.as_str());
    if spells(&cs, "any") {
        return Ok(ANY);
    }
    match type_bit_of_name(name) {
        Some(t) => Ok(t),
        None => Err("unknown type name".to_string()),
    }
}

/// The value a number literal pushes, converted to `target` when an `@` conversion
/// names one: an integer literal is an int and a decimal literal a float by default;
/// `@int`, `@float` and `@string` give a value of exactly that type. An integer literal
/// too large for an `i64` is `i64::MAX` as an int.
pub fn number_literal_value<F: FloatOps>(n: &NumberLit, target: Option<u32>) -> (r: Result<
    AliceVal,
    String,
>)
    ensures
        (target matches Some(t) && (t == INT || t == FLOAT || t == STRING)) ==> (r is Ok
            && type_bit_of(r->Ok_0) == target->0),
        target is None ==> (r is Ok && type_bit_of(r->Ok_0) == match n {
            NumberLit::Decimal(_) => FLOAT,
            _ => INT,
        }),
        target is None && n is Int ==> r == Ok::<AliceVal, String>(AliceVal::Int(n->Int_0)),
        target == Some(INT) && n is Int ==> r == Ok::<AliceVal, String>(AliceVal::Int(n->Int_0)),
        (target is None || target == Some(INT)) && n is Wide ==> r == Ok::<AliceVal, String>(
            AliceVal::Int(i64::MAX),
        ),
        (target matches Some(t) && !(t == INT || t == FLOAT || t == STRING)) ==> r is Err,
{
    match target {
        None => match n {
            NumberLit::Int(v) => Ok(AliceVal::Int(*v)),
            NumberLit::Wide(_) => Ok(AliceVal::Int(i64::MAX)),
            NumberLit::Decimal(text) => Ok(AliceVal::Float(F::parse_decimal(text))),
        },
        Some(t) => {
            if t == INT {
                match n {
                    NumberLit::Int(v) => Ok(AliceVal::Int(*v)),
                    NumberLit::Wide(_) => Ok(AliceVal::Int(i64::MAX)),
                    NumberLit::Decimal(text) => Ok(AliceVal::Int(F::to_int(F::parse_decimal(text)))),
                }
            } else if t == FLOAT || t == STRING {
                let bits = match n {
                    NumberLit::Int(v) => F::from_int(*v),
                    NumberLit::Wide(text) | NumberLit::Decimal(text) => F::parse_decimal(text),
                };
                if t == FLOAT {
                    Ok(AliceVal::Float(bits))
                } else {
                    Ok(AliceVal::String(F::render(bits)))
                }
            } else {
                Err("cannot convert number literal to that type".to_string())
            }
        },
    }
}

/// The value a string literal pushes: only `@string` may convert it.
pub fn string_literal_value(s: &String, target: Option<u32>) -> (r: Result<AliceVal, String>)
    ensures
        (target is None || target == Some(STRING)) ==> r == Ok::<AliceVal, String>(
            AliceVal::String(*s),
        ),
        !(target is None || target == Some(STRING)) ==> r is Err,
{
    match target {
        None => Ok(AliceVal::String(s.clone())),
        Some(t) => {
            if t == STRING {
                Ok(AliceVal::String(s.clone()))
            } else {
                Err("a string literal only converts to string".to_string())
            }
        },
    }
}

/// The statement a built-in word names.
pub open spec fn builtin_of(s: Seq<char>) -> Option<Statement> {
    if s == seq!['p', 'r', 'i', 'n', 't', 'l', 'n'] {
        Some(Statement::Println(PrintlnStatement))
    } else if s == seq!['p', 'r', 'i', 'n', 't'] {
        Some(Statement::Print(PrintStatement))
    } else if s == seq!['p', 's', 't', 'a', 'c', 'k'] {
        Some(Statement::PrintStack(PrintStackStatement))
    } else if s == seq!['e', 'x', 'i', 't'] {
        Some(Statement::Exit(ExitStatement))
    } else if s == seq!['o', 'k', 'e', 'x', 'i', 't'] {
        Some(Statement::OkExit(OkExitStatement))
    } else if s == seq!['d', 'r', 'o', 'p'] {
        Some(Statement::Drop(DropStatement))
    } else if s == seq!['s', 'w', 'a', 'p'] {
        Some(Statement::Swap(SwapStatement))
    } else if s == seq!['d', 'u', 'p'] {
        Some(Statement::Dup(DupStatement))
    } else if s == seq!['o', 'v', 'e', 'r'] {
        Some(Statement::Over(OverStatement))
    } else if s == seq!['r', 'o', 't'] {
        Some(Statement::Rot(RotStatement))
    } else if s == seq!['c', 'l', 'e', 'a', 'r'] {
        Some(Statement::Clear(ClearStatement))
    } else {
        None
    }
}

/// The statement a built-in word names.
pub fn maybe_gobble_statement(ident: &String) -> (r: Option<Statement>)
    ensures
        r == builtin_of(ident@),
{
    proof {
        reveal_strlit("println");
        assert(seq!['p', 'r', 'i', 'n', 't', 'l', 'n'] =~= "println"@);
        reveal_strlit("print");
        assert(seq!['p', 'r', 'i', 'n', 't'] =~= "print"@);
        reveal_strlit("pstack");
        assert(seq!['p', 's', 't', 'a', 'c', 'k'] =~= "pstack"@);
        reveal_strlit("exit");
        assert(seq!['e', 'x', 'i', 't'] =~= "exit"@);
        reveal_strlit("okexit");
        assert(seq!['o', 'k', 'e', 'x', 'i', 't'] =~= "okexit"@);
        reveal_strlit("drop");
        assert(seq!['d', 'r', 'o', 'p'] =~= "drop"@);
        reveal_strlit("swap");
        assert(seq!['s', 'w', 'a', 'p'] =~= "swap"@);
        reveal_strlit("dup");
        assert(seq!['d', 'u', 'p'] =~= "dup"@);
        reveal_strlit("over");
        assert(seq!['o', 'v', 'e', 'r'] =~= "over"@);
        reveal_strlit("rot");
        assert(seq!['r', 'o', 't'] =~= "rot"@);
        reveal_strlit("clear");
        assert(seq!['c', 'l', 'e', 'a', 'r'] =~= "clear"@);
    }
    let cs = chars_of(ident.as_str());
    if spells(&cs, "println") {
        Some(Statement::Println(PrintlnStatement))
    } else if spells(&cs, "print") {
        Some(Statement::Print(PrintStatement))
    } else if spells(&cs, "pstack") {
        Some(Statement::PrintStack(PrintStackStatement))
    } else if spells(&cs, "exit") {
        Some(Statement::Exit(ExitStatement))
    } else if spells(&cs, "okexit") {
        Some(Statement::OkExit(OkExitStatement))
    } else if spells(&cs, "drop") {
        Some(Statement::Drop(DropStatement))
    } else if spells(&cs, "swap") {
        Some(Statement::Swap(SwapStatement))
    } else if spells(&cs, "dup") {
        Some(Statement::Dup(DupStatement))
    } else if spells(&cs, "over") {
        Some(Statement::Over(OverStatement))
    } else if spells(&cs, "rot") {
        Some(Statement::Rot(RotStatement))
    } else if spells(&cs, "clear") {
        Some(Statement::Clear(ClearStatement))
    } else {
        None
    }
}

fn keyword_of_string(s: &String) -> (r: Option<Keyword>)
    ensures
        r == crate::keyword::keyword_of(s@),
{
    let cs = chars_of(s.as_str());
    keyword_lookup(&cs)
}


/// What a literal pushes: a value known exactly, or (where float arithmetic makes it)
/// a value known by its type.
pub enum LitSpec {
    Exact(AliceVal),
    OfType(u32),
}

/// The statement a piece of source stands for.
pub enum StmtSpec {
    /// a statement without a body or a literal, exactly
    Plain(Statement),
    Push(LitSpec),
    Let(Seq<char>, u32, Option<LitSpec>),
    Fun(Seq<char>, Seq<u32>, u32, Seq<StmtSpec>),
    If(Seq<StmtSpec>),
    IfElse(Seq<StmtSpec>, Seq<StmtSpec>),
}

pub open spec fn lit_conforms(v: AliceVal, l: LitSpec) -> bool {
    match l {
        LitSpec::Exact(x) => v == x,
        LitSpec::OfType(t) => type_bit_of(v) == t,
    }
}

/// Whether statement `s` is what `sp` describes.
pub open spec fn conforms(s: Statement, sp: StmtSpec) -> bool
    decreases s,
{
    match sp {
        StmtSpec::Plain(p) => s == p && !(s is Push || s is Let || s is Fun || s is If
            || s is IfElse),
        StmtSpec::Push(l) => match s {
            Statement::Push(p) => lit_conforms(p.0, l),
            _ => false,
        },
        StmtSpec::Let(n, t, l) => match s {
            Statement::Let(x) => x.ident@ == n && x.ty == t && match (x.literal, l) {
                (None, None) => true,
                (Some(v), Some(lv)) => lit_conforms(v, lv),
                _ => false,
            },
            _ => false,
        },
        StmtSpec::Fun(n, a, r, b) => match s {
            Statement::Fun(f) => f.ident@ == n && f.fun.args@ == a && f.fun.return_type == r
                && f.fun.body@.len() == b.len() && forall|i: int|
                0 <= i < b.len() ==> conforms(#[trigger] f.fun.body@[i], b[i]),
            _ => false,
        },
        StmtSpec::If(b) => match s {
            Statement::If(x) => x.0.body@.len() == b.len() && forall|i: int|
                0 <= i < b.len() ==> conforms(#[trigger] x.0.body@[i], b[i]),
            _ => false,
        },
        StmtSpec::IfElse(a, b) => match s {
            Statement::IfElse(x) => x.0.if_body@.len() == a.len() && (forall|i: int|
                0 <= i < a.len() ==> conforms(#[trigger] x.0.if_body@[i], a[i]))
                && x.0.else_body@.len() == b.len() && (forall|i: int|
                0 <= i < b.len() ==> conforms(#[trigger] x.0.else_body@[i], b[i])),
            _ => false,
        },
    }
}

pub open spec fn all_conform(ss: Seq<Statement>, sps: Seq<StmtSpec>) -> bool {
    &&& ss.len() == sps.len()
    &&& forall|i: int| 0 <= i < ss.len() ==> conforms(#[trigger] ss[i], sps[i])
}

pub open spec fn sep_at(ts: Seq<AliceToken>, p: int, sep: AliceSeparator) -> bool {
    0 <= p < ts.len() && (ts[p] matches AliceToken::Sep(x) && x == sep)
}

pub open spec fn op_at(ts: Seq<AliceToken>, p: int, op: AliceOp) -> bool {
    0 <= p < ts.len() && (ts[p] matches AliceToken::Op(x) && x == op)
}

/// An `@ type` conversion at `p`, if one stands there, and the position after it.
pub open spec fn spec_at_conversion(ts: Seq<AliceToken>, p: int) -> Result<(Option<u32>, int), ()> {
    if !sep_at(ts, p, AliceSeparator::At) {
        Ok((None, p))
    } else if p + 1 >= ts.len() {
        Err(())
    } else {
        match ts[p + 1] {
            AliceToken::IdentOrKeyw(n) => match type_of_name(n@) {
                Some(t) => Ok((Some(t), p + 2)),
                None => Err(()),
            },
            _ => Err(()),
        }
    }
}

pub open spec fn spec_number_lit(n: NumberLit, target: Option<u32>) -> Result<LitSpec, ()> {
    match target {
        None => match n {
            NumberLit::Int(v) => Ok(LitSpec::Exact(AliceVal::Int(v))),
            NumberLit::Wide(_) => Ok(LitSpec::Exact(AliceVal::Int(i64::MAX))),
            NumberLit::Decimal(_) => Ok(LitSpec::OfType(FLOAT)),
        },
        Some(t) => if t == INT {
            match n {
                NumberLit::Int(v) => Ok(LitSpec::Exact(AliceVal::Int(v))),
                NumberLit::Wide(_) => Ok(LitSpec::Exact(AliceVal::Int(i64::MAX))),
                NumberLit::Decimal(_) => Ok(LitSpec::OfType(INT)),
            }
        } else if t == FLOAT || t == STRING {
            Ok(LitSpec::OfType(t))
        } else {
            Err(())
        },
    }
}

pub open spec fn spec_string_lit(s: String, target: Option<u32>) -> Result<LitSpec, ()> {
    if target is None || target == Some(STRING) {
        Ok(LitSpec::Exact(AliceVal::String(s)))
    } else {
        Err(())
    }
}

/// The literal after `let x : T =`, which takes the declared type `t`.
pub open spec fn spec_let_literal(tok: AliceToken, t: u32) -> Result<LitSpec, ()> {
    match tok {
        AliceToken::Number(n) => spec_number_lit(n, Some(t)),
        AliceToken::String(s) => spec_string_lit(s, Some(t)),
        AliceToken::IdentOrKeyw(w) => match keyword_of(w@) {
            Some(Keyword::True) => Ok(LitSpec::Exact(AliceVal::Bool(true))),
            Some(Keyword::False) => Ok(LitSpec::Exact(AliceVal::Bool(false))),
            _ => Err(()),
        },
        _ => Err(()),
    }
}

/// let = "let", ident, ":", type, ["=", literal]
pub open spec fn spec_let(ts: Seq<AliceToken>, p: int) -> Result<(StmtSpec, int), ()> {
    if !(0 <= p && p + 2 < ts.len() && sep_at(ts, p + 1, AliceSeparator::Colon)) {
        Err(())
    } else {
        match (ts[p], ts[p + 2]) {
            (AliceToken::IdentOrKeyw(ident), AliceToken::IdentOrKeyw(ty_name)) => if keyword_of(
                ident@,
            ) is Some {
                Err(())
            } else {
                match type_of_name(ty_name@) {
                    None => Err(()),
                    Some(t) => if !op_at(ts, p + 3, AliceOp::Eqs) {
                        Ok((StmtSpec::Let(ident@, t, None), p + 3))
                    } else if p + 4 >= ts.len() {
                        Err(())
                    } else {
                        match spec_let_literal(ts[p + 4], t) {
                            Ok(l) => Ok((StmtSpec::Let(ident@, t, Some(l)), p + 5)),
                            Err(()) => Err(()),
                        }
                    },
                }
            },
            _ => Err(()),
        }
    }
}

/// After `->`'s dash at `p - 1`: `>`, a type, and `{`. The type and the position after `{`.
pub open spec fn spec_fun_return(ts: Seq<AliceToken>, p: int) -> Result<(u32, int), ()> {
    if !op_at(ts, p, AliceOp::Gt) || !sep_at(ts, p + 2, AliceSeparator::OpenB) {
        Err(())
    } else {
        match ts[p + 1] {
            AliceToken::IdentOrKeyw(n) => match type_of_name(n@) {
                Some(t) => Ok((t, p + 3)),
                None => Err(()),
            },
            _ => Err(()),
        }
    }
}

/// The argument types of a signature from `q`: types separated by single commas, ended by
/// `->` and a return type, or by `{`. The types, the return type and the position after `{`.
pub open spec fn spec_fun_args(ts: Seq<AliceToken>, q: int, args: Seq<u32>, comma_ok: bool) -> Result<
    (Seq<u32>, u32, int),
    (),
>
    decreases ts.len() - q,
{
    if q < 0 || q >= ts.len() {
        Err(())
    } else {
        match ts[q] {
            AliceToken::IdentOrKeyw(ty) => {
                let t = if ty@ == seq!['a', 'n', 'y'] {
                    Some(ANY)
                } else {
                    type_of_name(ty@)
                };
                match t {
                    Some(t) => spec_fun_args(ts, q + 1, args.push(t), true),
                    None => Err(()),
                }
            },
            AliceToken::Sep(AliceSeparator::Comma) => if comma_ok {
                spec_fun_args(ts, q + 1, args, false)
            } else {
                Err(())
            },
            AliceToken::Op(AliceOp::Sub) => match spec_fun_return(ts, q + 1) {
                Ok((r, e)) => Ok((args, r, e)),
                Err(()) => Err(()),
            },
            AliceToken::Sep(AliceSeparator::OpenB) => Ok((args, 0, q + 1)),
            _ => Err(()),
        }
    }
}

/// The signature after `fun ident` at `p`: the argument types, the return type and the
/// position where the body starts (after `{`).
pub open spec fn spec_fun_signature(ts: Seq<AliceToken>, p: int) -> Result<(Seq<u32>, u32, int), ()> {
    if sep_at(ts, p, AliceSeparator::OpenB) {
        Ok((seq![], 0, p + 1))
    } else if op_at(ts, p, AliceOp::Sub) {
        match spec_fun_return(ts, p + 1) {
            Ok((r, e)) => Ok((seq![], r, e)),
            Err(()) => Err(()),
        }
    } else if sep_at(ts, p, AliceSeparator::Colon) {
        match spec_fun_args(ts, p + 1, seq![], false) {
            Ok((a, r, e)) => if a.len() == 0 {
                Err(())
            } else {
                Ok((a, r, e))
            },
            Err(()) => Err(()),
        }
    } else {
        Err(())
    }
}

/// fun = "fun", ident, signature, block
pub open spec fn spec_fun(ts: Seq<AliceToken>, p: int) -> Result<(StmtSpec, int), ()>
    decreases ts.len() - p, 0nat,
{
    if p < 0 || p >= ts.len() {
        Err(())
    } else {
        match ts[p] {
            AliceToken::IdentOrKeyw(ident) => if keyword_of(ident@) is Some {
                Err(())
            } else {
                match spec_fun_signature(ts, p + 1) {
                    Ok((a, r, start)) => if p < start <= ts.len() {
                        match spec_block(ts, start, seq![]) {
                            Ok((b, e)) => Ok((StmtSpec::Fun(ident@, a, r, b), e)),
                            Err(()) => Err(()),
                        }
                    } else {
                        Err(())
                    },
                    Err(()) => Err(()),
                }
            },
            _ => Err(()),
        }
    }
}

/// if = "if", block, ["else", block]
pub open spec fn spec_if(ts: Seq<AliceToken>, p: int) -> Result<(StmtSpec, int), ()>
    decreases ts.len() - p, 0nat,
{
    if !sep_at(ts, p, AliceSeparator::OpenB) {
        Err(())
    } else {
        match spec_block(ts, p + 1, seq![]) {
            Ok((b, e)) => if e < ts.len() && e > p && (ts[e] matches AliceToken::IdentOrKeyw(w)
                && keyword_of(w@) == Some(Keyword::Else)) {
                if !sep_at(ts, e + 1, AliceSeparator::OpenB) {
                    Err(())
                } else {
                    match spec_block(ts, e + 2, seq![]) {
                        Ok((b2, e2)) => Ok((StmtSpec::IfElse(b, b2), e2)),
                        Err(()) => Err(()),
                    }
                }
            } else {
                Ok((StmtSpec::If(b), e))
            },
            Err(()) => Err(()),
        }
    }
}

/// The statements from `p` up to the matching `}` (`acc` holds those before `p`),
/// and the position after it.
pub open spec fn spec_block(ts: Seq<AliceToken>, p: int, acc: Seq<StmtSpec>) -> Result<
    (Seq<StmtSpec>, int),
    (),
>
    decreases ts.len() - p, 4nat,
{
    if p < 0 || p >= ts.len() {
        Err(())
    } else if sep_at(ts, p, AliceSeparator::CloseB) {
        Ok((acc, p + 1))
    } else {
        match spec_token(ts, p) {
            Ok((sp, e)) => if p < e <= ts.len() {
                spec_block(ts, e, acc.push(sp))
            } else {
                Err(())
            },
            Err(()) => Err(()),
        }
    }
}

/// A variable read, or a call `ident ( )`.
pub open spec fn spec_ident(ts: Seq<AliceToken>, s: String, p: int) -> Result<(StmtSpec, int), ()> {
    if sep_at(ts, p + 1, AliceSeparator::OpenP) {
        if sep_at(ts, p + 2, AliceSeparator::CloseP) {
            Ok((StmtSpec::Plain(Statement::ExecuteFun(ExecuteFunStatement(s))), p + 3))
        } else {
            Err(())
        }
    } else {
        Ok((StmtSpec::Plain(Statement::PushFromTable(PushFromTableStatement(s))), p + 1))
    }
}

/// The statement an operator at `p` spells.
pub open spec fn spec_operator(ts: Seq<AliceToken>, op: AliceOp, p: int) -> Result<(StmtSpec, int), ()> {
    let eq_next = op_at(ts, p + 1, AliceOp::Eqs);
    match op {
        AliceOp::Add => Ok((StmtSpec::Plain(Statement::Add(AddStatement)), p + 1)),
        AliceOp::Sub => Ok((StmtSpec::Plain(Statement::Sub(SubStatement)), p + 1)),
        AliceOp::Mul => Ok((StmtSpec::Plain(Statement::Mul(MulStatement)), p + 1)),
        AliceOp::Div => Ok((StmtSpec::Plain(Statement::Div(DivStatement)), p + 1)),
        AliceOp::Pow => Ok((StmtSpec::Plain(Statement::Pow(PowStatement)), p + 1)),
        AliceOp::Mod => Ok((StmtSpec::Plain(Statement::Mod(ModStatement)), p + 1)),
        AliceOp::Gt => if eq_next {
            Ok((StmtSpec::Plain(Statement::GtEqs(GtEqsStatement)), p + 2))
        } else {
            Ok((StmtSpec::Plain(Statement::Gt(GtStatement)), p + 1))
        },
        AliceOp::Lt => if eq_next {
            Ok((StmtSpec::Plain(Statement::LtEqs(LtEqsStatement)), p + 2))
        } else {
            Ok((StmtSpec::Plain(Statement::Lt(LtStatement)), p + 1))
        },
        AliceOp::Eqs => if eq_next {
            Ok((StmtSpec::Plain(Statement::Eqs(EqsStatement)), p + 2))
        } else {
            Err(())
        },
    }
}

pub open spec fn spec_kw(ts: Seq<AliceToken>, kw: Keyword, p: int) -> Result<(StmtSpec, int), ()>
    decreases ts.len() - p, 1nat,
{
    if p < 0 || p >= ts.len() {
        Err(())
    } else {
        match kw {
            Keyword::True => Ok((StmtSpec::Push(LitSpec::Exact(AliceVal::Bool(true))), p + 1)),
            Keyword::False => Ok((StmtSpec::Push(LitSpec::Exact(AliceVal::Bool(false))), p + 1)),
            Keyword::Let => spec_let(ts, p + 1),
            Keyword::Fun => spec_fun(ts, p + 1),
            Keyword::If => spec_if(ts, p + 1),
            Keyword::Else => Err(()),
        }
    }
}

/// The statement that the token at `p` starts, and the position after it.
pub open spec fn spec_token(ts: Seq<AliceToken>, p: int) -> Result<(StmtSpec, int), ()>
    decreases ts.len() - p, 3nat,
{
    if p < 0 || p >= ts.len() {
        Err(())
    } else {
        match ts[p] {
            AliceToken::IdentOrKeyw(s) => match keyword_of(s@) {
                Some(kw) => spec_kw(ts, kw, p),
                None => match builtin_of(s@) {
                    Some(st) => Ok((StmtSpec::Plain(st), p + 1)),
                    None => if s@ == seq!['!'] && op_at(ts, p + 1, AliceOp::Eqs) {
                        Ok((StmtSpec::Plain(Statement::NotEqs(NotEqsStatement)), p + 2))
                    } else {
                        spec_ident(ts, s, p)
                    },
                },
            },
            AliceToken::String(s) => match spec_at_conversion(ts, p + 1) {
                Ok((t, e)) => match spec_string_lit(s, t) {
                    Ok(l) => Ok((StmtSpec::Push(l), e)),
                    Err(()) => Err(()),
                },
                Err(()) => Err(()),
            },
            AliceToken::Number(n) => match spec_at_conversion(ts, p + 1) {
                Ok((t, e)) => match spec_number_lit(n, t) {
                    Ok(l) => Ok((StmtSpec::Push(l), e)),
                    Err(()) => Err(()),
                },
                Err(()) => Err(()),
            },
            AliceToken::Op(op) => spec_operator(ts, op, p),
            AliceToken::Sep(_) => Err(()),
        }
    }
}

/// The statements of a whole token sequence from `p` (`acc` holds those before `p`).
pub open spec fn spec_program(ts: Seq<AliceToken>, p: int, acc: Seq<StmtSpec>) -> Result<
    Seq<StmtSpec>,
    (),
>
    decreases ts.len() - p,
{
    if p < 0 || p >= ts.len() {
        Ok(acc)
    } else {
        match spec_token(ts, p) {
            Ok((sp, e)) => if p < e <= ts.len() {
                spec_program(ts, e, acc.push(sp))
            } else {
                Err(())
            },
            Err(()) => Err(()),
        }
    }
}

/// Whether `r`, the result of parsing from `pos`, is what `spec` (the grammar's
/// result there) describes: the same statement and end, or an error for both.
pub open spec fn parsed_as(r: Result<(Statement, usize), String>, spec: Result<(StmtSpec, int), ()>) -> bool {
    match (r, spec) {
        (Ok((s, e)), Ok((sp, ev))) => conforms(s, sp) && e as int == ev,
        (Err(_), Err(())) => true,
        _ => false,
    }
}

/// Whether a parse that started at `pos` and gave `r` moved forward within the tokens.
pub open spec fn advanced<T>(r: Result<(T, usize), String>, pos: usize, len: usize) -> bool {
    r matches Ok((_, e)) ==> pos < e <= len
}

impl AliceParser {
    pub fn new(tokens: Vec<AliceToken>) -> (r: Self)
        ensures
            r.tokens() == tokens@,
    {
        AliceParser { tokens }
    }

    pub closed spec fn tokens(&self) -> Seq<AliceToken> {
        self.tokens@
    }

    /// Parses the whole program and checks it in batch mode: the stack must end empty.
    /// The statements are those the grammar gives, and the checker accepts them.
    pub fn parse<F: FloatOps>(&self) -> (r: Result<Vec<Statement>, String>)
        ensures
            r matches Ok(v) ==> (program_accepted(v@) && (spec_program(self.tokens(), 0, seq![])
                matches Ok(sps) && all_conform(v@, sps))),
            spec_program(self.tokens(), 0, seq![]) is Err ==> r is Err,
            r is Err && spec_program(self.tokens(), 0, seq![]) is Ok ==> exists|
                v: Seq<Statement>,
            |
                all_conform(v, spec_program(self.tokens(), 0, seq![])->Ok_0) && !program_accepted(
                    v,
                ),
    {
        let statements = self.parse_statements::<F>()?;
        match check(&statements) {
            Ok(()) => Ok(statements),
            Err(e) => Err(e.0),
        }
    }

    /// Parses a piece of a program and checks it against the state the pieces before
    /// it left; values may remain on the stack.
    pub fn parse_interactive<F: FloatOps>(&self, stack: &mut TypeStack) -> (r: Result<
        Vec<Statement>,
        String,
    >)
        ensures
            r matches Ok(v) ==> (crate::statement::check_seq(old(stack)@, v@) == Some(
                final(stack)@,
            ) && (spec_program(self.tokens(), 0, seq![]) matches Ok(sps) && all_conform(v@, sps))),
            spec_program(self.tokens(), 0, seq![]) is Err ==> r is Err,
            r is Err && spec_program(self.tokens(), 0, seq![]) is Ok ==> exists|
                v: Seq<Statement>,
            |
                all_conform(v, spec_program(self.tokens(), 0, seq![])->Ok_0)
                    && crate::statement::check_seq(old(stack)@, v) is None,
            r is Err ==> final(stack)@ == old(stack)@,
    {
        let statements = self.parse_statements::<F>()?;
        match check_interactive(stack, &statements) {
            Ok(()) => Ok(statements),
            Err(e) => Err(e.0),
        }
    }

    /// All the statements the tokens spell, in order.
    pub fn parse_statements<F: FloatOps>(&self) -> (r: Result<Vec<Statement>, String>)
        ensures
            match (r, spec_program(self.tokens(), 0, seq![])) {
                (Ok(v), Ok(sps)) => all_conform(v@, sps),
                (Err(_), Err(())) => true,
                _ => false,
            },
    {
        let n = self.tokens.len();
        let mut statements: Vec<Statement> = Vec::new();
        let ghost mut acc: Seq<StmtSpec> = seq![];
        let mut pos: usize = 0;
        while pos < n
            invariant
                pos <= n,
                n == self.tokens.len(),
                all_conform(statements@, acc),
                spec_program(self.tokens(), pos as int, acc) == spec_program(
                    self.tokens@,
                    0,
                    seq![],
                ),
            decreases n - pos,
        {
            match self.gobble_token::<F>(pos) {
                Ok((st, e)) => {
                    let ghost sp = spec_token(self.tokens@, pos as int)->Ok_0.0;
                    let ghost before = statements@;
                    statements.push(st);
                    proof {
                        assert forall|i: int| 0 <= i < statements@.len() implies conforms(
                            #[trigger] statements@[i],
                            acc.push(sp)[i],
                        ) by {
                            if i < before.len() {
                                assert(statements@[i] == before[i]);
                            }
                        }
                        acc = acc.push(sp);
                    }
                    pos = e;
                },
                Err(m) => {
                    return Err(m);
                },
            }
        }
        Ok(statements)
    }

    /// Whether the token `k` places after `pos` is the separator `sep`.
    fn is_sep_at(&self, pos: usize, k: usize, sep: AliceSeparator) -> (r: bool)
        ensures
            r ==> pos + k < self.tokens.len(),
            r == sep_at(self.tokens@, pos + k, sep),
    {
        let n = self.tokens.len();
        if pos < n && k < n - pos {
            match &self.tokens[pos + k] {
                AliceToken::Sep(x) => *x == sep,
                _ => false,
            }
        } else {
            false
        }
    }

    /// Whether the token `k` places after `pos` is the operator `op`.
    fn is_op_at(&self, pos: usize, k: usize, op: AliceOp) -> (r: bool)
        ensures
            r ==> pos + k < self.tokens.len(),
            r == op_at(self.tokens@, pos + k, op),
    {
        let n = self.tokens.len();
        if pos < n && k < n - pos {
            match &self.tokens[pos + k] {
                AliceToken::Op(x) => *x == op,
                _ => false,
            }
        } else {
            false
        }
    }

    /// The statement that starts at `pos`, and the position after it.
    fn gobble_token<F: FloatOps>(&self, pos: usize) -> (r: Result<(Statement, usize), String>)
        requires
            pos < self.tokens.len(),
        ensures
            advanced(r, pos, self.tokens.len()),
            parsed_as(r, spec_token(self.tokens@, pos as int)),
        decreases self.tokens.len() - pos, 3nat,
    {
        match &self.tokens[pos] {
            AliceToken::IdentOrKeyw(s) => self.gobble_ident_or_kw::<F>(s, pos),
            AliceToken::String(s) => {
                let (target, e) = self.maybe_at_conversion(pos + 1)?;
                let v = string_literal_value(s, target)?;
                Ok((Statement::Push(PushStatement(v)), e))
            },
            AliceToken::Number(n) => {
                let (target, e) = self.maybe_at_conversion(pos + 1)?;
                let v = number_literal_value::<F>(n, target)?;
                Ok((Statement::Push(PushStatement(v)), e))
            },
            AliceToken::Op(op) => self.gobble_operator(*op, pos),
            AliceToken::Sep(_) => Err("unexpected separator".to_string()),
        }
    }

    fn gobble_ident_or_kw<F: FloatOps>(&self, iok: &String, pos: usize) -> (r: Result<
        (Statement, usize),
        String,
    >)
        requires
            pos < self.tokens.len(),
            self.tokens@[pos as int] == AliceToken::IdentOrKeyw(*iok),
        ensures
            advanced(r, pos, self.tokens.len()),
            parsed_as(r, spec_token(self.tokens@, pos as int)),
        decreases self.tokens.len() - pos, 2nat,
    {
        proof {
            reveal_strlit("!");
            assert(seq!['!'] =~= "!"@);
        }
        if let Some(kw) = keyword_of_string(iok) {
            return self.gobble_kw::<F>(kw, pos);
        }
        if let Some(s) = maybe_gobble_statement(iok) {
            return Ok((s, pos + 1));
        }
        let cs = chars_of(iok.as_str());
        if spells(&cs, "!") && self.is_op_at(pos, 1, AliceOp::Eqs) {
            return Ok((Statement::NotEqs(NotEqsStatement), pos + 2));
        }
        self.gobble_ident(iok, pos)
    }

    fn gobble_kw<F: FloatOps>(&self, kw: Keyword, pos: usize) -> (r: Result<
        (Statement, usize),
        String,
    >)
        requires
            pos < self.tokens.len(),
        ensures
            advanced(r, pos, self.tokens.len()),
            parsed_as(r, spec_kw(self.tokens@, kw, pos as int)),
        decreases self.tokens.len() - pos, 1nat,
    {
        match kw {
            Keyword::True => Ok((Statement::Push(PushStatement(AliceVal::Bool(true))), pos + 1)),
            Keyword::False => Ok((Statement::Push(PushStatement(AliceVal::Bool(false))), pos + 1)),
            Keyword::Let => self.gobble_let::<F>(pos + 1),
            Keyword::Fun => self.gobble_fun::<F>(pos + 1),
            Keyword::If => self.gobble_if::<F>(pos + 1),
            Keyword::Else => Err("else without a preceding if".to_string()),
        }
    }

    /// let = "let", ident, ":", type, ["=", literal]; the literal takes the declared type.
    fn gobble_let<F: FloatOps>(&self, pos: usize) -> (r: Result<(Statement, usize), String>)
        requires
            pos <= self.tokens.len(),
        ensures
            advanced(r, pos, self.tokens.len()),
            parsed_as(r, spec_let(self.tokens@, pos as int)),
    {
        let n = self.tokens.len();
        let syntax = "let syntax: 'let' ident ':' type ['=' literal]";
        if !(pos < n && 2 < n - pos && self.is_sep_at(pos, 1, AliceSeparator::Colon)) {
            return Err(syntax.to_string());
        }
        let ident = match &self.tokens[pos] {
            AliceToken::IdentOrKeyw(i) => i,
            _ => {
                return Err(syntax.to_string());
            },
        };
        let ty_name = match &self.tokens[pos + 2] {
            AliceToken::IdentOrKeyw(t) => t,
            _ => {
                return Err(syntax.to_string());
            },
        };
        if keyword_of_string(ident).is_some() {
            return Err("a reserved keyword can't be bound".to_string());
        }
        let ty = match type_bit_of_name(ty_name) {
            Some(t) => t,
            None => {
                return Err("unknown type name".to_string());
            },
        };
        if !self.is_op_at(pos, 3, AliceOp::Eqs) {
            return Ok(
                (Statement::Let(LetStatement { ident: ident.clone(), ty, literal: None }), pos + 3),
            );
        }
        if 4 >= n - pos {
            return Err("literal expected after '='".to_string());
        }
        let v = match &self.tokens[pos + 4] {
            AliceToken::Number(num) => number_literal_value::<F>(num, Some(ty))?,
            AliceToken::String(st) => string_literal_value(st, Some(ty))?,
            AliceToken::IdentOrKeyw(w) => match keyword_of_string(w) {
                Some(Keyword::True) => AliceVal::Bool(true),
                Some(Keyword::False) => AliceVal::Bool(false),
                _ => {
                    return Err("literal expected after '='".to_string());
                },
            },
            _ => {
                return Err("literal expected after '='".to_string());
            },
        };
        Ok((Statement::Let(LetStatement { ident: ident.clone(), ty, literal: Some(v) }), pos + 5))
    }

    /// fun = "fun", ident, [":", type, {",", type}], ["->", type], block
    fn gobble_fun<F: FloatOps>(&self, pos: usize) -> (r: Result<(Statement, usize), String>)
        requires
            pos <= self.tokens.len(),
        ensures
            advanced(r, pos, self.tokens.len()),
            parsed_as(r, spec_fun(self.tokens@, pos as int)),
        decreases self.tokens.len() - pos, 0nat,
    {
        let n = self.tokens.len();
        if pos >= n {
            return Err("fun syntax: 'fun' ident '{' statement* '}'".to_string());
        }
        let ident = match &self.tokens[pos] {
            AliceToken::IdentOrKeyw(i) => i,
            _ => {
                return Err("fun syntax: 'fun' ident '{' statement* '}'".to_string());
            },
        };
        if keyword_of_string(ident).is_some() {
            return Err("a reserved keyword can't be bound".to_string());
        }
        let (args, return_type, start) = self.gobble_fun_signature(pos + 1)?;
        let (body, e) = match self.gobble_block::<F>(start) {
            Ok(x) => x,
            Err(m) => {
                return Err(m);
            },
        };
        let fun = AliceFun::new(StackPattern(args), return_type, body);
        Ok((Statement::Fun(FunStatement { ident: ident.clone(), fun }), e))
    }

    /// The signature after `fun ident`, at `p`: `{`, or `->` type `{`, or `:` types
    /// [`->` type] `{`. The argument types, the return type (0 for none) and the
    /// position after `{`.
    fn gobble_fun_signature(&self, p: usize) -> (r: Result<(Vec<u32>, u32, usize), String>)
        requires
            p <= self.tokens.len(),
        ensures
            r matches Ok((_, _, e)) ==> p < e <= self.tokens.len(),
            match (r, spec_fun_signature(self.tokens@, p as int)) {
                (Ok((a, t, e)), Ok((av, tv, ev))) => a@ == av && t == tv && e as int == ev,
                (Err(_), Err(())) => true,
                _ => false,
            },
    {
        let n = self.tokens.len();
        if self.is_sep_at(p, 0, AliceSeparator::OpenB) {
            return Ok((Vec::new(), 0, p + 1));
        }
        if self.is_op_at(p, 0, AliceOp::Sub) {
            return match self.parse_fun_return_after_dash(p + 1) {
                Ok((t, q)) => Ok((Vec::new(), t, q)),
                Err(m) => Err(m),
            };
        }
        if !self.is_sep_at(p, 0, AliceSeparator::Colon) {
            return Err("after `'fun' ident`, expected one of: `'->'` `':'` `'{'`".to_string());
        }
        let mut args: Vec<u32> = Vec::new();
        let mut comma_ok = false;
        let mut q = p + 1;
        proof {
            assert(args@ =~= seq![]);
        }
        while q < n
            invariant
                p < q <= n,
                n == self.tokens.len(),
                spec_fun_args(self.tokens@, q as int, args@, comma_ok) == spec_fun_args(
                    self.tokens@,
                    p + 1,
                    seq![],
                    false,
                ),
                spec_fun_signature(self.tokens@, p as int) == match spec_fun_args(
                    self.tokens@,
                    p + 1,
                    seq![],
                    false,
                ) {
                    Ok((a, r, e)) => if a.len() == 0 {
                        Err(())
                    } else {
                        Ok((a, r, e))
                    },
                    Err(()) => Err(()),
                },
            decreases n - q,
        {
            match &self.tokens[q] {
                AliceToken::IdentOrKeyw(ty) => {
                    match type_bit_any_allowed(ty) {
                        Ok(t) => args.push(t),
                        Err(m) => {
                            return Err(m);
                        },
                    }
                    comma_ok = true;
                    q = q + 1;
                },
                AliceToken::Sep(AliceSeparator::Comma) => {
                    if comma_ok {
                        comma_ok = false;
                        q = q + 1;
                    } else {
                        return Err("Unexpected double comma in function signature".to_string());
                    }
                },
                AliceToken::Op(AliceOp::Sub) => {
                    let (t, e) = match self.parse_fun_return_after_dash(q + 1) {
                        Ok(x) => x,
                        Err(m) => {
                            return Err(m);
                        },
                    };
                    if args.len() == 0 {
                        return Err("expected argument type(s) after `'fun' ident ':'`".to_string());
                    }
                    return Ok((args, t, e));
                },
                AliceToken::Sep(AliceSeparator::OpenB) => {
                    if args.len() == 0 {
                        return Err("expected argument type(s) after `'fun' ident ':'`".to_string());
                    }
                    return Ok((args, 0, q + 1));
                },
                _ => {
                    return Err("Unexpected token in function signature".to_string());
                },
            }
        }
        Err("missing delimiter: hit EOF while searching for '}'".to_string())
    }

    /// After `->`'s dash: `>`, a type, and the opening brace of the body. Gives the
    /// type and the position after the brace.
    fn parse_fun_return_after_dash(&self, pos: usize) -> (r: Result<(u32, usize), String>)
        ensures
            r matches Ok((_, e)) ==> pos < e <= self.tokens.len(),
            match (r, spec_fun_return(self.tokens@, pos as int)) {
                (Ok((t, e)), Ok((tv, ev))) => t == tv && e as int == ev,
                (Err(_), Err(())) => true,
                _ => false,
            },
    {
        if !self.is_op_at(pos, 0, AliceOp::Gt) {
            return Err(
                "unexpected token after `'fun' ident ... -`, you probably meant to put `->`".to_string(),
            );
        }
        if !self.is_sep_at(pos, 2, AliceSeparator::OpenB) {
            return Err("return type and function body expected".to_string());
        }
        match &self.tokens[pos + 1] {
            AliceToken::IdentOrKeyw(ty) => match type_bit_of_name(ty) {
                Some(t) => Ok((t, pos + 3)),
                None => Err("unknown type name".to_string()),
            },
            _ => Err("return type and function body expected".to_string()),
        }
    }

    /// if = "if", block, ["else", block]
    fn gobble_if<F: FloatOps>(&self, pos: usize) -> (r: Result<(Statement, usize), String>)
        requires
            pos <= self.tokens.len(),
        ensures
            advanced(r, pos, self.tokens.len()),
            parsed_as(r, spec_if(self.tokens@, pos as int)),
        decreases self.tokens.len() - pos, 0nat,
    {
        if !self.is_sep_at(pos, 0, AliceSeparator::OpenB) {
            return Err("if syntax: 'if' '{' statement* '}' ['else' '{' statement* '}']".to_string());
        }
        let (body, e) = self.gobble_block::<F>(pos + 1)?;
        let mut is_else = false;
        if e < self.tokens.len() {
            if let AliceToken::IdentOrKeyw(w) = &self.tokens[e] {
                is_else = keyword_of_string(w) == Some(Keyword::Else);
            }
        }
        if is_else {
            if !self.is_sep_at(e, 1, AliceSeparator::OpenB) {
                return Err("else syntax: 'else' '{' statement* '}'".to_string());
            }
            let (else_body, e2) = self.gobble_block::<F>(e + 2)?;
            Ok(
                (
                    Statement::IfElse(
                        IfElseStatement(IfElseContainer { if_body: body, else_body }),
                    ),
                    e2,
                ),
            )
        } else {
            Ok((Statement::If(IfStatement(IfContainer { body })), e))
        }
    }

    /// The statements up to the matching `}`, and the position after it.
    fn gobble_block<F: FloatOps>(&self, pos: usize) -> (r: Result<(Vec<Statement>, usize), String>)
        requires
            pos <= self.tokens.len(),
        ensures
            r matches Ok((_, e)) ==> pos < e <= self.tokens.len(),
            match (r, spec_block(self.tokens@, pos as int, seq![])) {
                (Ok((v, e)), Ok((sps, ev))) => all_conform(v@, sps) && e as int == ev,
                (Err(_), Err(())) => true,
                _ => false,
            },
        decreases self.tokens.len() - pos, 4nat,
    {
        let n = self.tokens.len();
        let mut body: Vec<Statement> = Vec::new();
        let ghost mut acc: Seq<StmtSpec> = seq![];
        let mut q = pos;
        while q < n
            invariant
                pos <= q <= n,
                n == self.tokens.len(),
                all_conform(body@, acc),
                spec_block(self.tokens@, q as int, acc) == spec_block(
                    self.tokens@,
                    pos as int,
                    seq![],
                ),
            decreases n - q,
        {
            if self.is_sep_at(q, 0, AliceSeparator::CloseB) {
                return Ok((body, q + 1));
            }
            match self.gobble_token::<F>(q) {
                Ok((st, e)) => {
                    let ghost sp = spec_token(self.tokens@, q as int)->Ok_0.0;
                    let ghost before = body@;
                    body.push(st);
                    proof {
                        assert forall|i: int| 0 <= i < body@.len() implies conforms(
                            #[trigger] body@[i],
                            acc.push(sp)[i],
                        ) by {
                            if i < before.len() {
                                assert(body@[i] == before[i]);
                            }
                        }
                        acc = acc.push(sp);
                    }
                    q = e;
                },
                Err(m) => {
                    return Err(m);
                },
            }
        }
        Err("missing delimiter: hit EOF while searching for '}'".to_string())
    }

    /// A variable read, or a call `ident ( )`.
    fn gobble_ident(&self, ident: &String, pos: usize) -> (r: Result<(Statement, usize), String>)
        requires
            pos < self.tokens.len(),
        ensures
            advanced(r, pos, self.tokens.len()),
            parsed_as(r, spec_ident(self.tokens@, *ident, pos as int)),
    {
        if self.is_sep_at(pos, 1, AliceSeparator::OpenP) {
            if self.is_sep_at(pos, 2, AliceSeparator::CloseP) {
                Ok((Statement::ExecuteFun(ExecuteFunStatement(ident.clone())), pos + 3))
            } else {
                Err("closing parentheses in function call missing!".to_string())
            }
        } else {
            Ok((Statement::PushFromTable(PushFromTableStatement(ident.clone())), pos + 1))
        }
    }

    /// The statement an operator spells; `>` `=` and `<` `=` form `>=` and `<=`, and
    /// `=` `=` forms `==`.
    fn gobble_operator(&self, op: AliceOp, pos: usize) -> (r: Result<(Statement, usize), String>)
        requires
            pos < self.tokens.len(),
        ensures
            advanced(r, pos, self.tokens.len()),
            parsed_as(r, spec_operator(self.tokens@, op, pos as int)),
    {
        let s = match op {
            AliceOp::Add => Statement::Add(AddStatement),
            AliceOp::Sub => Statement::Sub(SubStatement),
            AliceOp::Mul => Statement::Mul(MulStatement),
            AliceOp::Div => Statement::Div(DivStatement),
            AliceOp::Pow => Statement::Pow(PowStatement),
            AliceOp::Mod => Statement::Mod(ModStatement),
            AliceOp::Gt => {
                if self.is_op_at(pos, 1, AliceOp::Eqs) {
                    return Ok((Statement::GtEqs(GtEqsStatement), pos + 2));
                }
                Statement::Gt(GtStatement)
            },
            AliceOp::Lt => {
                if self.is_op_at(pos, 1, AliceOp::Eqs) {
                    return Ok((Statement::LtEqs(LtEqsStatement), pos + 2));
                }
                Statement::Lt(LtStatement)
            },
            AliceOp::Eqs => {
                if self.is_op_at(pos, 1, AliceOp::Eqs) {
                    return Ok((Statement::Eqs(EqsStatement), pos + 2));
                }
                return Err("unexpected equal sign".to_string());
            },
        };
        Ok((s, pos + 1))
    }

    /// An `@ type` conversion at `pos`, if one stands there, and the position after it.
    fn maybe_at_conversion(&self, pos: usize) -> (r: Result<(Option<u32>, usize), String>)
        ensures
            match (r, spec_at_conversion(self.tokens@, pos as int)) {
                (Ok((t, e)), Ok((tv, ev))) => t == tv && e as int == ev,
                (Err(_), Err(())) => true,
                _ => false,
            },
            r matches Ok((None, e)) ==> e == pos,
            r matches Ok((Some(t), e)) ==> e == pos + 2 && e <= self.tokens.len() && (t == STRING
                || t == BOOL || t == INT || t == FLOAT),
    {
        if !self.is_sep_at(pos, 0, AliceSeparator::At) {
            return Ok((None, pos));
        }
        if pos + 1 >= self.tokens.len() {
            return Err("missing target type for @ conversion".to_string());
        }
        match &self.tokens[pos + 1] {
            AliceToken::IdentOrKeyw(name) => match type_bit_of_name(name) {
                Some(t) => Ok((Some(t), pos + 2)),
                None => Err("@ conversion expects a target type".to_string()),
            },
            _ => Err("@ conversion expects a target type".to_string()),
        }
    }
}

} // verus!
