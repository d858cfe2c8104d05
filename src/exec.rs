use vstd::prelude::*;
use vstd::string::StringExecFns;

use crate::object::AliceFun;
use crate::runtime::{
    lookup_function, lookup_value, type_bit_of, types_of, AliceStack, AliceTable, AliceVal, ArithOp, CmpOp,
    Console, FloatOps, Flow, Output, RuntimeError,
};
use crate::statement::{
    arith_type, FunStatement, check_seq, check_stmt, fun_body_ok, lemma_check_seq_prefix_rejected,
    lemma_check_seq_step, ordered_types, pow_type, Statement,
};
use crate::type_check::{lookup_fun, lookup_var, slot_accepts, TypeState, BOOL, FLOAT, INT, STRING};

verus! {


/// Each value is accepted by the type the checker gave its slot.
pub open spec fn values_typed(vs: Seq<AliceVal>, ts: Seq<u32>) -> bool {
    &&& vs.len() == ts.len()
    &&& forall|i: int| 0 <= i < vs.len() ==> slot_accepts(type_bit_of(#[trigger] vs[i]), ts[i])
}

/// Every variable the checker knows is bound at runtime to a value of its type.
pub open spec fn vars_agree(vars: Seq<(String, AliceVal)>, tvars: Seq<(Seq<char>, u32)>) -> bool {
    forall|n: Seq<char>| #[trigger]
        lookup_var(tvars, n) is Some ==> lookup_value(vars, n) is Some && slot_accepts(
            type_bit_of(lookup_value(vars, n)->0),
            lookup_var(tvars, n)->0,
        )
}

/// Every function the checker knows is bound at runtime to a function with that
/// signature, whose body was checked against it.
pub open spec fn funs_agree(funs: Seq<(String, &AliceFun)>, tfuns: Seq<(Seq<char>, Seq<u32>, u32)>) -> bool {
    forall|n: Seq<char>| #[trigger]
        lookup_fun(tfuns, n) is Some ==> {
            let sig = lookup_fun(tfuns, n)->0;
            &&& lookup_function(funs, n) is Some
            &&& lookup_function(funs, n)->0.args@ == sig.0
            &&& lookup_function(funs, n)->0.return_type == sig.1
            &&& fun_body_ok(sig.0, sig.1, lookup_function(funs, n)->0.body@)
        }
}

/// Where the running code's own part of the machine begins: the values below `stack`
/// and the bindings below `vars` and `funs` belong to the code that called it. A
/// program's top level owns everything; a function body sees only the bindings made
/// while it runs, and `clear` empties only its own part of the stack.
#[derive(Debug, Clone, Copy)]
pub struct Frame {
    pub stack: usize,
    pub vars: usize,
    pub funs: usize,
}

impl Frame {
    /// The frame of a program's top level.
    pub fn top() -> (r: Frame)
        ensures
            r.stack == 0 && r.vars == 0 && r.funs == 0,
    {
        Frame { stack: 0, vars: 0, funs: 0 }
    }
}

/// The variable bindings the code running in `frame` sees, oldest first.
pub open spec fn frame_vars(vars: Seq<(String, AliceVal)>, frame: Frame) -> Seq<(String, AliceVal)> {
    vars.subrange(frame.vars as int, vars.len() as int)
}

/// The function bindings the code running in `frame` sees, oldest first.
pub open spec fn frame_funs(funs: Seq<(String, &AliceFun)>, frame: Frame) -> Seq<(String, &AliceFun)> {
    funs.subrange(frame.funs as int, funs.len() as int)
}

/// The runtime state agrees with the checker's state `ts`: the stack holds the caller's
/// values (`base`, below the frame) and values typed by `ts.vals` above; the bindings
/// in the frame agree with the checker's environments.
pub open spec fn typed(stack: Seq<AliceVal>, table: AliceTable, base: Seq<u32>, ts: TypeState, frame: Frame) -> bool {
    &&& values_typed(stack, base + ts.vals)
    &&& base.len() == frame.stack
    &&& frame.vars <= table.vars@.len()
    &&& frame.funs <= table.funs@.len()
    &&& vars_agree(frame_vars(table.vars@, frame), ts.vars)
    &&& funs_agree(frame_funs(table.funs@, frame), ts.funs)
}

/// Every function bound in the frame has a body strictly inside `ctx`, the code that
/// is running: so a call always runs less code than the one making it.
pub open spec fn within(ctx: Seq<Statement>, funs: Seq<(String, &AliceFun)>, frame: Frame) -> bool {
    forall|i: int| frame.funs <= i < funs.len() ==> decreases_to!(ctx => (#[trigger] funs[i]).1.body@)
}

/// What running a statement does to the bindings: only `let` adds a variable and only
/// `fun` adds a function, each by one; all else leaves them as they were.
pub open spec fn table_step(s: Statement, old: AliceTable, new: AliceTable) -> bool {
    &&& !(s is Let) ==> new.vars@ == old.vars@
    &&& s is Let ==> new.vars@ == old.vars@ || (new.vars@.len() == old.vars@.len() + 1
        && new.vars@.drop_last() == old.vars@)
    &&& !(s is Fun) ==> new.funs@ == old.funs@
    &&& s is Fun ==> new.funs@ == old.funs@ || new.funs@ == old.funs@.push(
        (s->Fun_0.ident, &s->Fun_0.fun),
    )
}

/// The bindings grew at most: the old ones are still there, in place.
pub open spec fn extends(old: AliceTable, new: AliceTable) -> bool {
    &&& old.vars@.len() <= new.vars@.len()
    &&& new.vars@.subrange(0, old.vars@.len() as int) == old.vars@
    &&& old.funs@.len() <= new.funs@.len()
    &&& new.funs@.subrange(0, old.funs@.len() as int) == old.funs@
}

/// A binary operation of the language.
#[derive(Debug, PartialEq, Eq, Structural, Clone, Copy)]
pub enum BinaryOp {
    Add,
    Sub,
    Mul,
    Div,
    Mod,
    Pow,
    Eq,
    NotEq,
    Gt,
    GtEq,
    Lt,
    LtEq,
}

/// The result type the checker gives `op` on operand types `a`, `b`.
pub open spec fn binary_type(op: BinaryOp, a: u32, b: u32) -> Option<u32> {
    match op {
        BinaryOp::Add => arith_type(a, b, true),
        BinaryOp::Sub | BinaryOp::Mul | BinaryOp::Div | BinaryOp::Mod => arith_type(a, b, false),
        BinaryOp::Pow => pow_type(a, b),
        BinaryOp::Eq | BinaryOp::NotEq => if a == b {
            Some(BOOL)
        } else {
            None
        },
        _ => if ordered_types(a, b) {
            Some(BOOL)
        } else {
            None
        },
    }
}

/// `x` to the power `e`.
pub open spec fn int_pow(x: int, e: nat) -> int
    decreases e,
{
    if e == 0 {
        1
    } else {
        x * int_pow(x, (e - 1) as nat)
    }
}

/// Division truncated toward zero.
pub open spec fn trunc_div(x: int, y: int) -> int {
    let q = abs(x) / abs(y);
    if (x >= 0) == (y >= 0) {
        q
    } else {
        -q
    }
}

/// The remainder of truncated division: it has the sign of `x`.
pub open spec fn trunc_rem(x: int, y: int) -> int {
    x - y * trunc_div(x, y)
}

pub open spec fn abs(x: int) -> int {
    if x < 0 {
        -x
    } else {
        x
    }
}

/// The exact result of an operation on two integers, when it is defined
/// (division by zero and negative exponents are not).
pub open spec fn int_binary(op: BinaryOp, x: int, y: int) -> Option<int> {
    match op {
        BinaryOp::Add => Some(x + y),
        BinaryOp::Sub => Some(x - y),
        BinaryOp::Mul => Some(x * y),
        BinaryOp::Div => if y == 0 {
            None
        } else {
            Some(trunc_div(x, y))
        },
        BinaryOp::Mod => if y == 0 {
            None
        } else {
            Some(trunc_rem(x, y))
        },
        BinaryOp::Pow => if y < 0 {
            None
        } else {
            Some(int_pow(x, y as nat))
        },
        _ => None,
    }
}

pub open spec fn int_compare(op: BinaryOp, x: int, y: int) -> bool {
    match op {
        BinaryOp::Eq => x == y,
        BinaryOp::NotEq => x != y,
        BinaryOp::Gt => x > y,
        BinaryOp::GtEq => x >= y,
        BinaryOp::Lt => x < y,
        _ => x <= y,
    }
}

pub open spec fn is_comparison(op: BinaryOp) -> bool {
    op == BinaryOp::Eq || op == BinaryOp::NotEq || op == BinaryOp::Gt || op == BinaryOp::GtEq
        || op == BinaryOp::Lt || op == BinaryOp::LtEq
}

/// What `op` gives on two values whose result the library computes itself:
/// integers, strings and bools. Floats and objects are left open here.
pub open spec fn exact_binary(op: BinaryOp, a: AliceVal, b: AliceVal) -> Option<
    Result<AliceVal, ()>,
> {
    match (a, b) {
        (AliceVal::Int(x), AliceVal::Int(y)) => if is_comparison(op) {
            Some(Ok(AliceVal::Bool(int_compare(op, x as int, y as int))))
        } else {
            match int_binary(op, x as int, y as int) {
                Some(v) => if i64::MIN <= v <= i64::MAX {
                    Some(Ok(AliceVal::Int(v as i64)))
                } else {
                    Some(Err(()))
                },
                None => Some(Err(())),
            }
        },
        (AliceVal::String(x), AliceVal::String(y)) => match op {
            BinaryOp::Eq => Some(Ok(AliceVal::Bool(x@ == y@))),
            BinaryOp::NotEq => Some(Ok(AliceVal::Bool(x@ != y@))),
            _ => None,
        },
        (AliceVal::Bool(x), AliceVal::Bool(y)) => match op {
            BinaryOp::Eq => Some(Ok(AliceVal::Bool(x == y))),
            BinaryOp::NotEq => Some(Ok(AliceVal::Bool(x != y))),
            _ => None,
        },
        _ => None,
    }
}

pub proof fn lemma_accepts_trans(a: u32, b: u32, c: u32)
    requires
        slot_accepts(a, b),
        slot_accepts(b, c),
    ensures
        slot_accepts(a, c),
{
    assert(a & b == a && b & c == b ==> a & c == a) by (bit_vector);
}

/// Whether an operation whose result the library leaves to float arithmetic, or that
/// joins strings or compares values, is bound to succeed: the checker gives the operand
/// types a result, they are not two integers (whose arithmetic may overflow), and a
/// float is not raised to an integer power outside the `i32` range.
pub open spec fn binary_succeeds(op: BinaryOp, a: AliceVal, b: AliceVal) -> bool {
    &&& binary_type(op, type_bit_of(a), type_bit_of(b)) is Some
    &&& !(a is Int && b is Int)
    &&& !(op == BinaryOp::Pow && b is Int && !(i32::MIN <= b->Int_0 <= i32::MAX))
}

/// The text `a + b` gives when both are strings: left operand, then right.
pub open spec fn concat_of(op: BinaryOp, a: AliceVal, b: AliceVal) -> Option<Seq<char>> {
    match (a, b) {
        (AliceVal::String(x), AliceVal::String(y)) => if op == BinaryOp::Add {
            Some(x@ + y@)
        } else {
            None
        },
        _ => None,
    }
}

/// A value's type has a bit set, and only an int's type is `INT` (likewise for the others).
pub proof fn lemma_type_bit_shape(v: AliceVal)
    ensures
        type_bit_of(v) != 0,
        type_bit_of(v) == INT <==> v is Int,
        type_bit_of(v) == FLOAT <==> v is Float,
        type_bit_of(v) == STRING <==> v is String,
        type_bit_of(v) == BOOL <==> v is Bool,
{
    if let AliceVal::Object(o) = v {
        let h = o.type_hash;
        assert((16u32 | (h & 0xffffffe0u32)) != 0 && (16u32 | (h & 0xffffffe0u32)) != 1 && (16u32
            | (h & 0xffffffe0u32)) != 2 && (16u32 | (h & 0xffffffe0u32)) != 4 && (16u32 | (h
            & 0xffffffe0u32)) != 8) by (bit_vector);
    }
}

/// A value accepted by a single primitive's slot is of that primitive.
pub proof fn lemma_accepted_by_single(v: AliceVal, t: u32)
    requires
        slot_accepts(type_bit_of(v), t),
        t == INT || t == FLOAT || t == STRING || t == BOOL,
    ensures
        type_bit_of(v) == t,
{
    lemma_type_bit_shape(v);
    let a = type_bit_of(v);
    assert(a & t == a && a != 0 && (t == 1 || t == 2 || t == 4 || t == 8) ==> a == t)
        by (bit_vector);
}

fn int_pow_checked(x: i64, e: i64) -> (r: Option<i64>)
    requires
        e >= 0,
    ensures
        r matches Some(v) ==> v as int == int_pow(x as int, e as nat),
        r is None ==> !(i64::MIN <= int_pow(x as int, e as nat) <= i64::MAX),
{
    if x == 0 || x == 1 || x == -1 {
        let mut acc: i64 = 1;
        let mut k: i64 = 0;
        while k < e
            invariant
                0 <= k <= e,
                acc as int == int_pow(x as int, k as nat),
                -1 <= acc <= 1,
                x == 0 || x == 1 || x == -1,
            decreases e - k,
        {
            assert(int_pow(x as int, (k + 1) as nat) == x * int_pow(x as int, k as nat));
            acc = if x == 0 {
                0
            } else if x == 1 {
                acc
            } else {
                -acc
            };
            k = k + 1;
        }
        return Some(acc);
    }
    let mut acc: i64 = 1;
    let mut k: i64 = 0;
    while k < e
        invariant
            0 <= k <= e,
            acc as int == int_pow(x as int, k as nat),
            acc != 0,
            x != 0 && x != 1 && x != -1,
        decreases e - k,
    {
        proof {
            assert(-0x8000_0000_0000_0000 <= acc <= 0x7fff_ffff_ffff_ffff);
            assert((acc as int) * (x as int) <= 0x8000_0000_0000_0000 * 0x8000_0000_0000_0000)
                by (nonlinear_arith)
                requires
                    -0x8000_0000_0000_0000 <= acc <= 0x7fff_ffff_ffff_ffff,
                    -0x8000_0000_0000_0000 <= x <= 0x7fff_ffff_ffff_ffff,
            ;
            assert((acc as int) * (x as int) >= -0x8000_0000_0000_0000 * 0x8000_0000_0000_0000)
                by (nonlinear_arith)
                requires
                    -0x8000_0000_0000_0000 <= acc <= 0x7fff_ffff_ffff_ffff,
                    -0x8000_0000_0000_0000 <= x <= 0x7fff_ffff_ffff_ffff,
            ;
        }
        let wide: i128 = (acc as i128) * (x as i128);
        proof {
            assert((acc as int) * (x as int) == (x as int) * (acc as int)) by (nonlinear_arith);
            assert(int_pow(x as int, (k + 1) as nat) == (x as int) * int_pow(x as int, k as nat));
        }
        if wide < i64::MIN as i128 || wide > i64::MAX as i128 {
            proof {
                lemma_pow_escapes(x as int, k as nat, e as nat);
            }
            return None;
        }
        proof {
            assert(wide != 0) by (nonlinear_arith)
                requires
                    wide == (acc as int) * (x as int),
                    acc != 0,
                    x != 0,
            ;
        }
        acc = wide as i64;
        k = k + 1;
    }
    Some(acc)
}

/// Once a power of `x` (with |x| >= 2) leaves the `i64` range, every higher power does.
proof fn lemma_pow_escapes(x: int, k: nat, e: nat)
    requires
        x != 0 && x != 1 && x != -1,
        k < e,
        !(i64::MIN <= x * int_pow(x, k) <= i64::MAX),
    ensures
        !(i64::MIN <= int_pow(x, e) <= i64::MAX),
    decreases e - k,
{
    if k + 1 < e {
        let p = x * int_pow(x, k);
        assert(int_pow(x, (k + 1) as nat) == p);
        assert(abs(x * p) >= 2 * abs(p)) by (nonlinear_arith)
            requires
                x != 0 && x != 1 && x != -1,
        ;
        lemma_pow_escapes(x, (k + 1) as nat, e);
    }
}

fn int_div_checked(x: i64, y: i64, rem: bool) -> (r: Option<i64>)
    ensures
        ({
            let v = if rem {
                int_binary(BinaryOp::Mod, x as int, y as int)
            } else {
                int_binary(BinaryOp::Div, x as int, y as int)
            };
            &&& r matches Some(q) ==> v == Some(q as int)
            &&& r is None ==> (v is None || !(i64::MIN <= v->0 <= i64::MAX))
        }),
{
    if y == 0 {
        return None;
    }
    let ax: u64 = if x < 0 {
        (-(x as i128)) as u64
    } else {
        x as u64
    };
    let ay: u64 = if y < 0 {
        (-(y as i128)) as u64
    } else {
        y as u64
    };
    let q: u64 = ax / ay;
    let same = (x >= 0) == (y >= 0);
    let sq: i128 = if same {
        q as i128
    } else {
        -(q as i128)
    };
    assert(sq == trunc_div(x as int, y as int));
    if !rem {
        if sq > i64::MAX as i128 {
            return None;
        }
        return Some(sq as i64);
    }
    proof {
        assert(0 <= q <= ax) by (nonlinear_arith)
            requires
                q == ax / ay,
                ay >= 1,
        ;
        assert(ay * q <= ax) by (nonlinear_arith)
            requires
                q == ax / ay,
                ay >= 1,
        ;
    }
    proof {
        assert(-0x8000_0000_0000_0000 * 0x8000_0000_0000_0000 <= (y as int) * sq
            <= 0x8000_0000_0000_0000 * 0x8000_0000_0000_0000) by (nonlinear_arith)
            requires
                -0x8000_0000_0000_0000 <= y <= 0x7fff_ffff_ffff_ffff,
                -0x8000_0000_0000_0000 <= sq <= 0x8000_0000_0000_0000,
        ;
    }
    let rm: i128 = (x as i128) - (y as i128) * sq;
    proof {
        assert(abs(rm as int) < ay) by (nonlinear_arith)
            requires
                rm == (x as int) - (y as int) * sq,
                sq == if (x >= 0) == (y >= 0) {
                    q as int
                } else {
                    -(q as int)
                },
                ax == abs(x as int),
                ay == abs(y as int),
                q == ax / ay,
                ay >= 1,
        ;
    }
    Some(rm as i64)
}

/// Applies a binary operation to the values `a` (second) and `b` (top).
pub fn apply_binary<F: FloatOps>(op: BinaryOp, a: AliceVal, b: AliceVal) -> (r: Result<
    AliceVal,
    RuntimeError,
>)
    ensures
        binary_type(op, type_bit_of(a), type_bit_of(b)) matches Some(t) ==> match r {
            Ok(v) => type_bit_of(v) == t,
            Err(e) => !(e is Fault),
        },
        (op == BinaryOp::Eq || op == BinaryOp::NotEq) ==> r matches Ok(AliceVal::Bool(_)),
        exact_binary(op, a, b) matches Some(x) ==> match (x, r) {
            (Ok(v), Ok(w)) => v == w,
            (Err(_), Err(e)) => e is Arithmetic,
            _ => false,
        },
        binary_succeeds(op, a, b) ==> r is Ok,
        concat_of(op, a, b) matches Some(t) ==> (r matches Ok(AliceVal::String(w)) && w@ == t),
{
    proof {
        lemma_type_bit_shape(a);
        lemma_type_bit_shape(b);
    }
    match (a, b) {
        (AliceVal::Int(x), AliceVal::Int(y)) => {
            let wx = x as i128;
            let wy = y as i128;
            match op {
                BinaryOp::Add | BinaryOp::Sub | BinaryOp::Mul => {
                    proof {
                        assert(-0x8000_0000_0000_0000 * 0x8000_0000_0000_0000 <= (x as int) * (
                        y as int) <= 0x8000_0000_0000_0000 * 0x8000_0000_0000_0000)
                            by (nonlinear_arith)
                            requires
                                -0x8000_0000_0000_0000 <= x <= 0x7fff_ffff_ffff_ffff,
                                -0x8000_0000_0000_0000 <= y <= 0x7fff_ffff_ffff_ffff,
                        ;
                    }
                    let v: i128 = match op {
                        BinaryOp::Add => wx + wy,
                        BinaryOp::Sub => wx - wy,
                        _ => wx * wy,
                    };
                    if v < i64::MIN as i128 || v > i64::MAX as i128 {
                        Err(RuntimeError::Arithmetic("integer overflow".to_string()))
                    } else {
                        Ok(AliceVal::Int(v as i64))
                    }
                },
                BinaryOp::Div | BinaryOp::Mod => {
                    match int_div_checked(x, y, op == BinaryOp::Mod) {
                        Some(v) => Ok(AliceVal::Int(v)),
                        None => Err(
                            RuntimeError::Arithmetic("division by zero or overflow".to_string()),
                        ),
                    }
                },
                BinaryOp::Pow => {
                    if y < 0 {
                        return Err(
                            RuntimeError::Arithmetic("negative integer exponent".to_string()),
                        );
                    }
                    match int_pow_checked(x, y) {
                        Some(v) => Ok(AliceVal::Int(v)),
                        None => Err(RuntimeError::Arithmetic("integer overflow".to_string())),
                    }
                },
                BinaryOp::Eq => Ok(AliceVal::Bool(x == y)),
                BinaryOp::NotEq => Ok(AliceVal::Bool(x != y)),
                BinaryOp::Gt => Ok(AliceVal::Bool(x > y)),
                BinaryOp::GtEq => Ok(AliceVal::Bool(x >= y)),
                BinaryOp::Lt => Ok(AliceVal::Bool(x < y)),
                BinaryOp::LtEq => Ok(AliceVal::Bool(x <= y)),
            }
        },
        (AliceVal::Float(x), AliceVal::Float(y)) => float_binary::<F>(op, x, y),
        (AliceVal::Int(x), AliceVal::Float(y)) => {
            if op == BinaryOp::Pow {
                return Err(RuntimeError::Fault("cannot raise an int to a float".to_string()));
            }
            float_binary::<F>(op, F::from_int(x), y)
        },
        (AliceVal::Float(x), AliceVal::Int(y)) => {
            if op == BinaryOp::Pow {
                if y < i32::MIN as i64 || y > i32::MAX as i64 {
                    return Err(RuntimeError::Arithmetic("exponent out of range".to_string()));
                }
                return Ok(AliceVal::Float(F::powi(x, y as i32)));
            }
            float_binary::<F>(op, x, F::from_int(y))
        },
        (AliceVal::String(x), AliceVal::String(y)) => match op {
            BinaryOp::Add => Ok(AliceVal::String(x.concat(y.as_str()))),
            BinaryOp::Eq => Ok(AliceVal::Bool(x == y)),
            BinaryOp::NotEq => Ok(AliceVal::Bool(x != y)),
            _ => Err(RuntimeError::Fault("operation not defined on strings".to_string())),
        },
        (AliceVal::Bool(x), AliceVal::Bool(y)) => match op {
            BinaryOp::Eq => Ok(AliceVal::Bool(x == y)),
            BinaryOp::NotEq => Ok(AliceVal::Bool(x != y)),
            _ => Err(RuntimeError::Fault("operation not defined on bools".to_string())),
        },
        (AliceVal::Object(x), AliceVal::Object(y)) => match op {
            BinaryOp::Eq => Ok(AliceVal::Bool(x.type_hash == y.type_hash)),
            BinaryOp::NotEq => Ok(AliceVal::Bool(x.type_hash != y.type_hash)),
            _ => Err(RuntimeError::Fault("operation not defined on objects".to_string())),
        },
        _ => match op {
            BinaryOp::Eq => Ok(AliceVal::Bool(false)),
            BinaryOp::NotEq => Ok(AliceVal::Bool(true)),
            _ => Err(RuntimeError::Fault("operand types do not fit".to_string())),
        },
    }
}

fn float_binary<F: FloatOps>(op: BinaryOp, x: u64, y: u64) -> (r: Result<AliceVal, RuntimeError>)
    ensures
        binary_type(op, FLOAT, FLOAT) matches Some(t) ==> r matches Ok(v) && type_bit_of(v) == t,
        (op == BinaryOp::Eq || op == BinaryOp::NotEq) ==> r matches Ok(AliceVal::Bool(_)),
{
    match op {
        BinaryOp::Add => Ok(AliceVal::Float(F::arith(ArithOp::Add, x, y))),
        BinaryOp::Sub => Ok(AliceVal::Float(F::arith(ArithOp::Sub, x, y))),
        BinaryOp::Mul => Ok(AliceVal::Float(F::arith(ArithOp::Mul, x, y))),
        BinaryOp::Div => Ok(AliceVal::Float(F::arith(ArithOp::Div, x, y))),
        BinaryOp::Mod => Ok(AliceVal::Float(F::arith(ArithOp::Mod, x, y))),
        BinaryOp::Pow => Ok(AliceVal::Float(F::arith(ArithOp::Pow, x, y))),
        BinaryOp::Eq => Ok(AliceVal::Bool(F::compare(CmpOp::Eq, x, y))),
        BinaryOp::NotEq => Ok(AliceVal::Bool(!F::compare(CmpOp::Eq, x, y))),
        BinaryOp::Gt => Ok(AliceVal::Bool(F::compare(CmpOp::Gt, x, y))),
        BinaryOp::GtEq => Ok(AliceVal::Bool(F::compare(CmpOp::GtEq, x, y))),
        BinaryOp::Lt => Ok(AliceVal::Bool(F::compare(CmpOp::Lt, x, y))),
        BinaryOp::LtEq => Ok(AliceVal::Bool(F::compare(CmpOp::LtEq, x, y))),
    }
}

/// What holds before a statement runs, for it to run soundly: the state agrees with
/// the checker's state `ts` in `frame`, and the checker accepts `s` there.
pub open spec fn sound_start(
    stack: Seq<AliceVal>,
    table: AliceTable,
    base: Seq<u32>,
    ts: TypeState,
    s: Statement,
    frame: Frame,
) -> bool {
    &&& typed(stack, table, base, ts, frame)
    &&& check_stmt(ts, s) is Some
}

/// What holds after a statement ran from a sound start: it did not fault, and when the
/// program goes on, the state agrees with the checker's state after it.
pub open spec fn sound_end(
    r: Result<Flow, RuntimeError>,
    stack: Seq<AliceVal>,
    table: AliceTable,
    base: Seq<u32>,
    after: TypeState,
    frame: Frame,
) -> bool {
    match r {
        Ok(Flow::Continue) => typed(stack, table, base, after, frame),
        Ok(Flow::Exit(_)) => true,
        Err(e) => !(e is Fault),
    }
}

pub proof fn lemma_typed_pop(vs: Seq<AliceVal>, ts: Seq<u32>)
    requires
        values_typed(vs, ts),
        vs.len() > 0,
    ensures
        values_typed(vs.drop_last(), ts.drop_last()),
        slot_accepts(type_bit_of(vs.last()), ts.last()),
{
    assert(slot_accepts(type_bit_of(vs[vs.len() - 1]), ts[vs.len() - 1]));
}

pub proof fn lemma_typed_push(vs: Seq<AliceVal>, ts: Seq<u32>, v: AliceVal, t: u32)
    requires
        values_typed(vs, ts),
        slot_accepts(type_bit_of(v), t),
    ensures
        values_typed(vs.push(v), ts.push(t)),
{
    assert forall|i: int| 0 <= i < vs.len() + 1 implies slot_accepts(
        type_bit_of(#[trigger] vs.push(v)[i]),
        ts.push(t)[i],
    ) by {
        if i < vs.len() {
            assert(slot_accepts(type_bit_of(vs[i]), ts[i]));
        }
    }
}

pub proof fn lemma_accepts_self(t: u32)
    ensures
        slot_accepts(t, t),
{
    assert(t & t == t) by (bit_vector);
}

/// What a statement that works on the stack alone leaves there (bottom first), when
/// the stack holds what it needs; `None` for the other statements. `clear` empties the
/// frame's part of the stack.
pub open spec fn stack_effect(s: Statement, vs: Seq<AliceVal>, frame: Frame) -> Option<Seq<AliceVal>> {
    let n = vs.len();
    match s {
        Statement::Push(p) => Some(vs.push(p.0)),
        Statement::Drop(_) => if n >= 1 {
            Some(vs.drop_last())
        } else {
            None
        },
        Statement::Swap(_) => if n >= 2 {
            Some(vs.subrange(0, n - 2).push(vs[n - 1]).push(vs[n - 2]))
        } else {
            None
        },
        Statement::Dup(_) => if n >= 1 {
            Some(vs.push(vs[n - 1]))
        } else {
            None
        },
        Statement::Over(_) => if n >= 2 {
            Some(vs.push(vs[n - 2]))
        } else {
            None
        },
        Statement::Rot(_) => if n >= 3 {
            Some(vs.subrange(0, n - 3).push(vs[n - 2]).push(vs[n - 1]).push(vs[n - 3]))
        } else {
            None
        },
        Statement::Clear(_) => if frame.stack <= n {
            Some(vs.subrange(0, frame.stack as int))
        } else {
            None
        },
        Statement::If(_) => if n >= 1 && vs[n - 1] == AliceVal::Bool(false) {
            Some(vs.drop_last())
        } else {
            None
        },
        Statement::Not(_) => if n >= 1 && vs[n - 1] is Bool {
            Some(vs.drop_last().push(AliceVal::Bool(!vs[n - 1]->Bool_0)))
        } else {
            None
        },
        _ => None,
    }
}

/// What a binary statement does on the two topmost values where the library computes
/// the result itself (integers, strings, bools): the stack with them replaced by the
/// result, or an arithmetic error.
pub open spec fn binary_effect(s: Statement, vs: Seq<AliceVal>) -> Option<Result<Seq<AliceVal>, ()>> {
    let n = vs.len();
    if binary_op_of(s) is Some && n >= 2 {
        match exact_binary(binary_op_of(s)->0, vs[n - 2], vs[n - 1]) {
            Some(Ok(v)) => Some(Ok(vs.subrange(0, n - 2).push(v))),
            Some(Err(())) => Some(Err(())),
            None => None,
        }
    } else {
        None
    }
}

/// What `println` and `print` do: pop the head and print it, with or without a newline.
pub open spec fn print_effect(s: Statement, vs: Seq<AliceVal>, out: Seq<Output>) -> Option<
    (Seq<AliceVal>, Seq<Output>),
> {
    let n = vs.len();
    if n >= 1 && s is Println {
        Some((vs.drop_last(), out.push(Output::Line(vs[n - 1]))))
    } else if n >= 1 && s is Print {
        Some((vs.drop_last(), out.push(Output::Text(vs[n - 1]))))
    } else if s is PrintStack {
        Some((vs, out + lines(vs)))
    } else {
        None
    }
}

/// Each value printed on a line of its own.
pub open spec fn lines(vs: Seq<AliceVal>) -> Seq<Output> {
    vs.map_values(|v: AliceVal| Output::Line(v))
}

/// How `exit` and `okexit` end the program: with the int at the head, or with 0.
pub open spec fn exit_effect(s: Statement, vs: Seq<AliceVal>) -> Option<i64> {
    let n = vs.len();
    if s is OkExit {
        Some(0)
    } else if s is Exit && n >= 1 && vs[n - 1] is Int {
        Some(vs[n - 1]->Int_0)
    } else {
        None
    }
}

/// What a run can observe of the machine: the operand stack, the variable bindings,
/// what was printed and the input not read yet.
pub struct RunState {
    pub stack: Seq<AliceVal>,
    pub vars: Seq<(String, AliceVal)>,
    pub out: Seq<Output>,
    pub input: Seq<String>,
}

pub open spec fn run_state(stack: AliceStack, table: AliceTable, console: Console) -> RunState {
    RunState {
        stack: stack.stack@,
        vars: table.vars@,
        out: console.out@,
        input: console.input@,
    }
}

pub open spec fn with_stack(b: RunState, st: Seq<AliceVal>) -> RunState {
    RunState { stack: st, ..b }
}

pub open spec fn continues(r: Result<Flow, RuntimeError>) -> bool {
    r == Ok::<Flow, RuntimeError>(Flow::Continue)
}

/// What running `s` from state `b` owes, given that it ended with `r` in state `a`:
/// exact for every statement whose result the library computes itself (a value made by
/// float arithmetic is known by its type).
pub open spec fn runs_as_specified(
    s: Statement,
    r: Result<Flow, RuntimeError>,
    b: RunState,
    a: RunState,
    frame: Frame,
) -> bool {
    let n = b.stack.len();
    &&& match stack_effect(s, b.stack, frame) {
        Some(st) => continues(r) && a == with_stack(b, st),
        None => true,
    }
    &&& match binary_effect(s, b.stack) {
        Some(Ok(st)) => continues(r) && a == with_stack(b, st),
        Some(Err(())) => r matches Err(RuntimeError::Arithmetic(_)),
        None => true,
    }
    &&& match print_effect(s, b.stack, b.out) {
        Some((st, o)) => continues(r) && a == RunState { stack: st, out: o, ..b },
        None => true,
    }
    &&& (binary_op_of(s) is Some && n >= 2 && binary_succeeds(
        binary_op_of(s)->0,
        b.stack[n - 2],
        b.stack[n - 1],
    )) ==> {
        let op = binary_op_of(s)->0;
        &&& continues(r)
        &&& a == with_stack(b, a.stack)
        &&& a.stack.len() == n - 1
        &&& a.stack.subrange(0, n - 2) == b.stack.subrange(0, n - 2)
        &&& type_bit_of(a.stack[n - 2]) == binary_type(
            op,
            type_bit_of(b.stack[n - 2]),
            type_bit_of(b.stack[n - 1]),
        )->0
        &&& concat_of(op, b.stack[n - 2], b.stack[n - 1]) is Some ==> (a.stack[n - 2] matches AliceVal::String(w)
            && w@ == concat_of(op, b.stack[n - 2], b.stack[n - 1])->0)
    }
    &&& match exit_effect(s, b.stack) {
        Some(code) => r == Ok::<Flow, RuntimeError>(Flow::Exit(code)),
        None => true,
    }
    &&& match s {
        Statement::ReadInput(_) => if b.input.len() > 0 {
            continues(r) && a == RunState {
                stack: b.stack.push(AliceVal::String(b.input[0])),
                input: b.input.drop_first(),
                ..b
            }
        } else {
            r matches Err(RuntimeError::Input(_))
        },
        Statement::Let(l) => match l.literal {
            None => n >= 1 ==> continues(r) && a == RunState {
                stack: b.stack.drop_last(),
                vars: b.vars.push((l.ident, b.stack[n - 1])),
                ..b
            },
            Some(v) => continues(r) && a == RunState { vars: b.vars.push((l.ident, v)), ..b },
        },
        Statement::PushFromTable(p) => frame.vars <= b.vars.len() ==> match lookup_value(
            frame_vars(b.vars, frame),
            p.0@,
        ) {
            Some(v) => continues(r) && a == with_stack(b, b.stack.push(v)),
            None => true,
        },
        _ => true,
    }
}

/// Running `ss` in order, in `frame`, from state `b` ended with `r` in state `a`, each
/// statement as `runs_as_specified` states.
pub open spec fn runs_through(
    ss: Seq<Statement>,
    r: Result<Flow, RuntimeError>,
    b: RunState,
    a: RunState,
    frame: Frame,
) -> bool {
    exists|tr: Seq<RunState>|
        #[trigger] runs_in_order(ss, r, tr, frame) && tr[0] == b && tr.last() == a
}

/// As `runs_through`, for code whose bindings end with it: afterwards the variables are
/// those of `b` again.
pub open spec fn runs_scoped(
    ss: Seq<Statement>,
    r: Result<Flow, RuntimeError>,
    b: RunState,
    a: RunState,
    frame: Frame,
) -> bool {
    exists|tr: Seq<RunState>|
        #[trigger] runs_in_order(ss, r, tr, frame) && tr[0] == b && a == RunState {
            vars: b.vars,
            ..tr.last()
        }
}

/// The frame a call of a function taking `nargs` arguments runs in: the arguments are
/// the bottom of its stack, and it sees only the bindings it makes.
pub open spec fn callee_frame(b: RunState, nargs: int, funs: Seq<(String, &AliceFun)>) -> Frame {
    Frame {
        stack: (b.stack.len() - nargs) as usize,
        vars: b.vars.len() as usize,
        funs: funs.len() as usize,
    }
}

/// What an `if`, an `if`-`else` or a call owes beyond `runs_as_specified`: the taken arm
/// runs in order, and the names it binds end with it; a call runs the body of the
/// function the name is bound to in the frame (`funs`), in a frame of its own.
pub open spec fn runs_body(
    s: Statement,
    r: Result<Flow, RuntimeError>,
    b: RunState,
    a: RunState,
    funs: Seq<(String, &AliceFun)>,
    frame: Frame,
) -> bool {
    let n = b.stack.len();
    let popped = with_stack(b, b.stack.drop_last());
    &&& (s is If && n >= 1 && b.stack[n - 1] == AliceVal::Bool(true)) ==> runs_scoped(
        s->If_0.0.body@,
        r,
        popped,
        a,
        frame,
    )
    &&& (s is IfElse && n >= 1 && b.stack[n - 1] == AliceVal::Bool(true)) ==> runs_scoped(
        s->IfElse_0.0.if_body@,
        r,
        popped,
        a,
        frame,
    )
    &&& (s is IfElse && n >= 1 && b.stack[n - 1] == AliceVal::Bool(false)) ==> runs_scoped(
        s->IfElse_0.0.else_body@,
        r,
        popped,
        a,
        frame,
    )
    &&& (s is ExecuteFun && frame.funs <= funs.len() && lookup_function(
        frame_funs(funs, frame),
        s->ExecuteFun_0.0@,
    ) is Some) ==> {
        let g = lookup_function(frame_funs(funs, frame), s->ExecuteFun_0.0@)->0;
        n >= g.args@.len() ==> runs_scoped(
            g.body@,
            r,
            b,
            a,
            callee_frame(b, g.args@.len() as int, funs),
        )
    }
}

/// `trace` is the states that running `ss` in order (in `frame`) passes through, each
/// statement as `runs_as_specified` states; every statement but the last one run went
/// on, and the last gave `r` (all of them ran when `r` goes on).
pub open spec fn runs_in_order(
    ss: Seq<Statement>,
    r: Result<Flow, RuntimeError>,
    trace: Seq<RunState>,
    frame: Frame,
) -> bool {
    let k = trace.len() - 1;
    &&& trace.len() >= 1
    &&& k <= ss.len()
    &&& continues(r) ==> k == ss.len()
    &&& !continues(r) ==> k >= 1
    &&& forall|j: int|
        0 <= j < k ==> runs_as_specified(
            #[trigger] ss[j],
            if j == k - 1 {
                r
            } else {
                Ok::<Flow, RuntimeError>(Flow::Continue)
            },
            trace[j],
            trace[j + 1],
            frame,
        )
}

/// The binary operation a statement performs, if it is one.
pub open spec fn binary_op_of(s: Statement) -> Option<BinaryOp> {
    match s {
        Statement::Add(_) => Some(BinaryOp::Add),
        Statement::Sub(_) => Some(BinaryOp::Sub),
        Statement::Mul(_) => Some(BinaryOp::Mul),
        Statement::Div(_) => Some(BinaryOp::Div),
        Statement::Mod(_) => Some(BinaryOp::Mod),
        Statement::Pow(_) => Some(BinaryOp::Pow),
        Statement::Eqs(_) => Some(BinaryOp::Eq),
        Statement::NotEqs(_) => Some(BinaryOp::NotEq),
        Statement::Gt(_) => Some(BinaryOp::Gt),
        Statement::GtEqs(_) => Some(BinaryOp::GtEq),
        Statement::Lt(_) => Some(BinaryOp::Lt),
        Statement::LtEqs(_) => Some(BinaryOp::LtEq),
        _ => None,
    }
}

/// The checker's type for a binary statement carries over to the runtime operands.
pub proof fn lemma_binary_runtime(op: BinaryOp, a: AliceVal, b: AliceVal, ma: u32, mb: u32)
    requires
        binary_type(op, ma, mb) is Some,
        slot_accepts(type_bit_of(a), ma),
        slot_accepts(type_bit_of(b), mb),
    ensures
        op == BinaryOp::Eq || op == BinaryOp::NotEq || binary_type(
            op,
            type_bit_of(a),
            type_bit_of(b),
        ) == binary_type(op, ma, mb),
        (op == BinaryOp::Eq || op == BinaryOp::NotEq) ==> binary_type(op, ma, mb) == Some(BOOL),
{
    if !(op == BinaryOp::Eq || op == BinaryOp::NotEq) {
        assert(ma == INT || ma == FLOAT || ma == STRING);
        assert(mb == INT || mb == FLOAT || mb == STRING);
        lemma_accepted_by_single(a, ma);
        lemma_accepted_by_single(b, mb);
    }
}

fn binary_op(s: &Statement) -> (r: BinaryOp)
    requires
        binary_op_of(*s) is Some,
    ensures
        r == binary_op_of(*s)->0,
{
    match s {
        Statement::Add(_) => BinaryOp::Add,
        Statement::Sub(_) => BinaryOp::Sub,
        Statement::Mul(_) => BinaryOp::Mul,
        Statement::Div(_) => BinaryOp::Div,
        Statement::Mod(_) => BinaryOp::Mod,
        Statement::Pow(_) => BinaryOp::Pow,
        Statement::Eqs(_) => BinaryOp::Eq,
        Statement::NotEqs(_) => BinaryOp::NotEq,
        Statement::Gt(_) => BinaryOp::Gt,
        Statement::GtEqs(_) => BinaryOp::GtEq,
        Statement::Lt(_) => BinaryOp::Lt,
        _ => BinaryOp::LtEq,
    }
}

/// Runs a binary statement: pops `b` then `a`, pushes `a op b`.
fn exec_binary<'a, F: FloatOps>(
    s: &'a Statement,
    stack: &mut AliceStack,
    table: &AliceTable<'a>,
    console: &Console,
    Ghost(ts): Ghost<TypeState>,
    Ghost(base): Ghost<Seq<u32>>,
    frame: Frame,
) -> (r: Result<Flow, RuntimeError>)
    requires
        binary_op_of(*s) is Some,
    ensures
        runs_as_specified(
            *s,
            r,
            run_state(*old(stack), *table, *console),
            run_state(*final(stack), *table, *console),
            frame,
        ),
        r is Ok ==> r == Ok::<Flow, RuntimeError>(Flow::Continue),
        sound_start(old(stack).stack@, *table, base, ts, *s, frame) ==> sound_end(
            r,
            final(stack).stack@,
            *table,
            base,
            check_stmt(ts, *s)->0,
            frame,
        ),
{
    let op = binary_op(s);
    let ghost vs = stack.stack@;
    let ghost tys = base + ts.vals;
    if stack.stack.len() < 2 {
        return Err(RuntimeError::Fault("too few values on the stack".to_string()));
    }
    let b = stack.stack.pop().unwrap();
    let a = stack.stack.pop().unwrap();
    proof {
        assert(a == vs[vs.len() - 2] && b == vs[vs.len() - 1]);
        assert(stack.stack@ =~= vs.subrange(0, vs.len() - 2));
        if sound_start(vs, *table, base, ts, *s, frame) {
            let big = tys.len();
            assert(vs.len() == big);
            assert(slot_accepts(type_bit_of(vs[big - 2]), tys[big - 2]));
            assert(slot_accepts(type_bit_of(vs[big - 1]), tys[big - 1]));
            assert(tys[big - 2] == ts.vals[ts.vals.len() - 2]);
            assert(tys[big - 1] == ts.vals[ts.vals.len() - 1]);
            lemma_binary_runtime(op, a, b, tys[big - 2], tys[big - 1]);
        }
    }
    let v = match apply_binary::<F>(op, a, b) {
        Ok(v) => v,
        Err(e) => {
            return Err(e);
        },
    };
    stack.stack.push(v);
    proof {
        assert(stack.stack@ =~= vs.subrange(0, vs.len() - 2).push(v));
        assert(stack.stack@.subrange(0, vs.len() - 2) =~= vs.subrange(0, vs.len() - 2));
        assert(stack.stack@[vs.len() - 2] == v);
        if sound_start(vs, *table, base, ts, *s, frame) {
            let n = ts.vals.len();
            let big = tys.len();
            let ma = tys[big - 2];
            let mb = tys[big - 1];
            let t = binary_type(op, ma, mb)->0;
            let after = check_stmt(ts, *s)->0;
            assert(ts.vals.subrange(0, n as int) =~= ts.vals);
            assert(after.vals =~= ts.vals.subrange(0, n - 2).push(t));
            assert(base + after.vals =~= tys.subrange(0, big - 2).push(t));
            let rest = vs.subrange(0, big - 2);
            assert(values_typed(rest, tys.subrange(0, big - 2))) by {
                assert forall|i: int| 0 <= i < rest.len() implies slot_accepts(
                    type_bit_of(#[trigger] rest[i]),
                    tys.subrange(0, big - 2)[i],
                ) by {
                    assert(rest[i] == vs[i]);
                    assert(slot_accepts(type_bit_of(vs[i]), tys[i]));
                }
            }
            lemma_accepts_self(type_bit_of(v));
            assert(stack.stack@ =~= rest.push(v));
            lemma_typed_push(rest, tys.subrange(0, big - 2), v, t);
        }
    }
    Ok(Flow::Continue)
}

pub proof fn lemma_typed_prefix(vs: Seq<AliceVal>, ts: Seq<u32>, k: int)
    requires
        values_typed(vs, ts),
        0 <= k <= vs.len(),
    ensures
        values_typed(vs.subrange(0, k), ts.subrange(0, k)),
{
    assert forall|i: int| 0 <= i < k implies slot_accepts(
        type_bit_of(#[trigger] vs.subrange(0, k)[i]),
        ts.subrange(0, k)[i],
    ) by {
        assert(slot_accepts(type_bit_of(vs[i]), ts[i]));
    }
}

pub proof fn lemma_single_pattern(vals: Seq<u32>, t: u32)
    requires
        crate::type_check::pattern_matches(vals, seq![t]),
    ensures
        vals.len() >= 1,
        slot_accepts(vals[vals.len() - 1], t),
{
    assert(slot_accepts(vals[vals.len() - 1 + 0], seq![t][0]));
}

pub open spec fn is_shuffle(s: Statement) -> bool {
    s is Push || s is Swap || s is Rot || s is Dup || s is Over || s is Clear
}

/// Whether the statement only works on the stack and the console.
pub open spec fn is_stack_statement(s: Statement) -> bool {
    s is Push || s is Println || s is Print || s is PrintStack || s is Exit || s is OkExit
        || s is Drop || s is Swap || s is Dup || s is Over || s is Rot || s is Clear || s is Not
        || s is ReadInput
}

/// Runs a statement that pushes or rearranges stack values.
fn exec_shuffle(
    s: &Statement,
    stack: &mut AliceStack,
    table: &AliceTable,
    console: &mut Console,
    Ghost(ts): Ghost<TypeState>,
    Ghost(base): Ghost<Seq<u32>>,
    frame: Frame,
) -> (r: Result<Flow, RuntimeError>)
    requires
        is_shuffle(*s),
    ensures
        runs_as_specified(
            *s,
            r,
            run_state(*old(stack), *table, *old(console)),
            run_state(*final(stack), *table, *final(console)),
            frame,
        ),
        sound_start(old(stack).stack@, *table, base, ts, *s, frame) ==> sound_end(
            r,
            final(stack).stack@,
            *table,
            base,
            check_stmt(ts, *s)->0,
            frame,
        ),
{
    let ghost vs = stack.stack@;
    let ghost tys = base + ts.vals;
    let ghost start = sound_start(vs, *table, base, ts, *s, frame);
    let ghost after = check_stmt(ts, *s)->0;
    let ghost n = ts.vals.len();
    let ghost big = tys.len();
    let len = stack.stack.len();
    proof {
        if start {
            assert(vs.len() == big);
            assert(ts.vals.subrange(0, n as int) =~= ts.vals);
        }
    }
    match s {
        Statement::Push(p) => {
            let v = p.0.duplicate();
            stack.stack.push(v);
            proof {
                if start {
                    assert(base + after.vals =~= tys.push(type_bit_of(v)));
                    lemma_accepts_self(type_bit_of(v));
                    lemma_typed_push(vs, tys, v, type_bit_of(v));
                }
            }
        },
        Statement::Swap(_) => {
            if len < 2 {
                return Err(RuntimeError::Fault("too few values on the stack".to_string()));
            }
            let v = stack.stack.remove(len - 2);
            stack.stack.push(v);
            proof {
                assert(stack.stack@ =~= vs.subrange(0, vs.len() - 2).push(vs[vs.len() - 1]).push(
                    vs[vs.len() - 2],
                ));
                if start {
                    assert(stack.stack@ =~= vs.subrange(0, big - 2).push(vs[big - 1]).push(
                        vs[big - 2],
                    ));
                    assert(base + after.vals =~= tys.subrange(0, big - 2).push(tys[big - 1]).push(
                        tys[big - 2],
                    ));
                    lemma_typed_prefix(vs, tys, big - 2);
                    assert(slot_accepts(type_bit_of(vs[big - 1]), tys[big - 1]));
                    assert(slot_accepts(type_bit_of(vs[big - 2]), tys[big - 2]));
                    lemma_typed_push(
                        vs.subrange(0, big - 2),
                        tys.subrange(0, big - 2),
                        vs[big - 1],
                        tys[big - 1],
                    );
                    lemma_typed_push(
                        vs.subrange(0, big - 2).push(vs[big - 1]),
                        tys.subrange(0, big - 2).push(tys[big - 1]),
                        vs[big - 2],
                        tys[big - 2],
                    );
                }
            }
        },
        Statement::Rot(_) => {
            if len < 3 {
                return Err(RuntimeError::Fault("too few values on the stack".to_string()));
            }
            let v = stack.stack.remove(len - 3);
            stack.stack.push(v);
            proof {
                assert(stack.stack@ =~= vs.subrange(0, vs.len() - 3).push(vs[vs.len() - 2]).push(
                    vs[vs.len() - 1],
                ).push(vs[vs.len() - 3]));
                if start {
                    let p0 = vs.subrange(0, big - 3);
                    let q0 = tys.subrange(0, big - 3);
                    assert(stack.stack@ =~= p0.push(vs[big - 2]).push(vs[big - 1]).push(
                        vs[big - 3],
                    ));
                    assert(base + after.vals =~= q0.push(tys[big - 2]).push(tys[big - 1]).push(
                        tys[big - 3],
                    ));
                    lemma_typed_prefix(vs, tys, big - 3);
                    assert(slot_accepts(type_bit_of(vs[big - 1]), tys[big - 1]));
                    assert(slot_accepts(type_bit_of(vs[big - 2]), tys[big - 2]));
                    assert(slot_accepts(type_bit_of(vs[big - 3]), tys[big - 3]));
                    lemma_typed_push(p0, q0, vs[big - 2], tys[big - 2]);
                    lemma_typed_push(
                        p0.push(vs[big - 2]),
                        q0.push(tys[big - 2]),
                        vs[big - 1],
                        tys[big - 1],
                    );
                    lemma_typed_push(
                        p0.push(vs[big - 2]).push(vs[big - 1]),
                        q0.push(tys[big - 2]).push(tys[big - 1]),
                        vs[big - 3],
                        tys[big - 3],
                    );
                }
            }
        },
        Statement::Dup(_) | Statement::Over(_) => {
            let k: usize = match s {
                Statement::Dup(_) => 1,
                _ => 2,
            };
            if len < k {
                return Err(RuntimeError::Fault("too few values on the stack".to_string()));
            }
            let v = stack.stack[len - k].duplicate();
            stack.stack.push(v);
            proof {
                assert(stack.stack@ =~= vs.push(vs[vs.len() - k]));
                if start {
                    assert(base + after.vals =~= tys.push(tys[big - k]));
                    assert(slot_accepts(type_bit_of(vs[big - k]), tys[big - k]));
                    lemma_typed_push(vs, tys, v, tys[big - k]);
                }
            }
        },
        Statement::Clear(_) => {
            if frame.stack > len {
                return Err(RuntimeError::Fault("the stack is below its frame".to_string()));
            }
            stack.stack.truncate(frame.stack);
            proof {
                assert(stack.stack@ =~= vs.subrange(0, frame.stack as int));
                if start {
                    assert(base + after.vals =~= base);
                    assert(tys.subrange(0, frame.stack as int) =~= base);
                    lemma_typed_prefix(vs, tys, frame.stack as int);
                }
            }
        },
        _ => {},
    }
    Ok(Flow::Continue)
}

/// Runs a statement that reads or writes the console, or pops and tests a value.
fn exec_console(
    s: &Statement,
    stack: &mut AliceStack,
    table: &AliceTable,
    console: &mut Console,
    Ghost(ts): Ghost<TypeState>,
    Ghost(base): Ghost<Seq<u32>>,
    frame: Frame,
) -> (r: Result<Flow, RuntimeError>)
    requires
        is_stack_statement(*s) && !is_shuffle(*s),
    ensures
        runs_as_specified(
            *s,
            r,
            run_state(*old(stack), *table, *old(console)),
            run_state(*final(stack), *table, *final(console)),
            frame,
        ),
        sound_start(old(stack).stack@, *table, base, ts, *s, frame) ==> sound_end(
            r,
            final(stack).stack@,
            *table,
            base,
            check_stmt(ts, *s)->0,
            frame,
        ),
{
    let ghost vs = stack.stack@;
    let ghost b0 = run_state(*stack, *table, *console);
    let ghost tys = base + ts.vals;
    let ghost start = sound_start(vs, *table, base, ts, *s, frame);
    let ghost after = check_stmt(ts, *s)->0;
    let ghost n = ts.vals.len();
    let ghost big = tys.len();
    let len = stack.stack.len();
    proof {
        if start {
            assert(vs.len() == big);
            assert(ts.vals.subrange(0, n as int) =~= ts.vals);
        }
    }
    match s {
        Statement::Println(_) | Statement::Print(_) | Statement::Drop(_) => {
            if len == 0 {
                return Err(RuntimeError::Fault("too few values on the stack".to_string()));
            }
            let v = stack.stack.pop().unwrap();
            match s {
                Statement::Println(_) => console.out.push(Output::Line(v)),
                Statement::Print(_) => console.out.push(Output::Text(v)),
                _ => {},
            }
            proof {
                if start {
                    assert(base + after.vals =~= tys.drop_last());
                    lemma_typed_pop(vs, tys);
                }
            }
        },
        Statement::PrintStack(_) => {
            let ghost out0 = console.out@;
            let mut i: usize = 0;
            while i < stack.stack.len()
                invariant
                    stack.stack@ == vs,
                    i <= vs.len(),
                    console.out@ == out0 + lines(vs.subrange(0, i as int)),
                    out0 == b0.out,
                    console.input@ == b0.input,
                    b0 == run_state(*old(stack), *table, *old(console)),
                decreases stack.stack@.len() - i,
            {
                console.out.push(Output::Line(stack.stack[i].duplicate()));
                i = i + 1;
                assert(console.out@ =~= out0 + lines(vs.subrange(0, i as int)));
            }
            assert(vs.subrange(0, i as int) =~= vs);
            proof {
                if start {
                    assert(after == ts);
                }
            }
        },
        Statement::Exit(_) => {
            if len == 0 {
                return Err(RuntimeError::Fault("too few values on the stack".to_string()));
            }
            proof {
                if start {
                    assert(slot_accepts(type_bit_of(vs[big - 1]), tys[big - 1]));
                    lemma_single_pattern(ts.vals, INT);
                    lemma_accepts_trans(type_bit_of(vs[big - 1]), tys[big - 1], INT);
                    lemma_accepted_by_single(vs[big - 1], INT);
                    lemma_type_bit_shape(vs[big - 1]);
                }
            }
            match stack.stack.pop().unwrap() {
                AliceVal::Int(code) => {
                    return Ok(Flow::Exit(code));
                },
                _ => {
                    return Err(RuntimeError::Fault("exit code is not an int".to_string()));
                },
            }
        },
        Statement::OkExit(_) => {
            return Ok(Flow::Exit(0));
        },
        Statement::Not(_) => {
            if len == 0 {
                return Err(RuntimeError::Fault("too few values on the stack".to_string()));
            }
            proof {
                if start {
                    assert(slot_accepts(type_bit_of(vs[big - 1]), tys[big - 1]));
                    lemma_single_pattern(ts.vals, BOOL);
                    lemma_accepts_trans(type_bit_of(vs[big - 1]), tys[big - 1], BOOL);
                    lemma_accepted_by_single(vs[big - 1], BOOL);
                    lemma_type_bit_shape(vs[big - 1]);
                }
            }
            match stack.stack.pop().unwrap() {
                AliceVal::Bool(b) => stack.stack.push(AliceVal::Bool(!b)),
                _ => {
                    return Err(RuntimeError::Fault("not a bool".to_string()));
                },
            }
            proof {
                assert(stack.stack@ =~= vs.drop_last().push(stack.stack@.last()));
                if start {
                    let v = stack.stack@.last();
                    assert(base + after.vals =~= tys.drop_last().push(BOOL));
                    lemma_typed_pop(vs, tys);
                    assert(stack.stack@ =~= vs.drop_last().push(v));
                    lemma_accepts_self(BOOL);
                    lemma_typed_push(vs.drop_last(), tys.drop_last(), v, BOOL);
                }
            }
        },
        _ => {
            if console.input.len() == 0 {
                return Err(RuntimeError::Input("no input left to read".to_string()));
            }
            let ghost in0 = console.input@;
            let line = console.input.remove(0);
            assert(console.input@ =~= in0.drop_first());
            let v = AliceVal::String(line);
            stack.stack.push(v);
            proof {
                if start {
                    assert(base + after.vals =~= tys.push(STRING));
                    lemma_accepts_self(STRING);
                    lemma_typed_push(vs, tys, v, STRING);
                }
            }
        },
    }
    Ok(Flow::Continue)
}

/// Whether the statement binds or reads a name.
pub open spec fn is_binding(s: Statement) -> bool {
    s is Let || s is PushFromTable || s is Fun
}

/// Whether `frame` lies within the bindings of `table`.
pub open spec fn frame_fits(table: AliceTable, frame: Frame) -> bool {
    frame.vars <= table.vars@.len() && frame.funs <= table.funs@.len()
}

/// A function defined by a statement inside `ctx` has its body inside `ctx`.
pub proof fn lemma_fun_body_within(ctx: Seq<Statement>, s: Statement)
    requires
        s is Fun,
        decreases_to!(ctx => s),
    ensures
        decreases_to!(ctx => s->Fun_0.fun.body@),
{
    let f = s->Fun_0;
    assert(decreases_to!(s => f));
    assert(decreases_to!(f => f.fun));
    assert(decreases_to!(f.fun => f.fun.body));
    assert(decreases_to!(f.fun.body => f.fun.body@));
}

/// The statements of an arm of an `if` or `if`-`else` inside `ctx` are inside `ctx`.
pub proof fn lemma_arms_within(ctx: Seq<Statement>, s: Statement)
    requires
        decreases_to!(ctx => s),
    ensures
        s is If ==> forall|k: int|
            0 <= k < s->If_0.0.body@.len() ==> decreases_to!(ctx => #[trigger] s->If_0.0.body@[k]),
        s is IfElse ==> forall|k: int|
            0 <= k < s->IfElse_0.0.if_body@.len() ==> decreases_to!(
                ctx => #[trigger] s->IfElse_0.0.if_body@[k]
            ),
        s is IfElse ==> forall|k: int|
            0 <= k < s->IfElse_0.0.else_body@.len() ==> decreases_to!(
                ctx => #[trigger] s->IfElse_0.0.else_body@[k]
            ),
{
    if s is If {
        let i = s->If_0;
        assert(decreases_to!(s => i));
        assert(decreases_to!(i => i.0));
        assert(decreases_to!(i.0 => i.0.body));
        assert(decreases_to!(i.0.body => i.0.body@));
        assert forall|k: int| 0 <= k < i.0.body@.len() implies decreases_to!(
            ctx => #[trigger] i.0.body@[k]
        ) by {
            assert(decreases_to!(i.0.body@ => i.0.body@[k]));
        }
    }
    if s is IfElse {
        let i = s->IfElse_0;
        assert(decreases_to!(s => i));
        assert(decreases_to!(i => i.0));
        assert(decreases_to!(i.0 => i.0.if_body));
        assert(decreases_to!(i.0.if_body => i.0.if_body@));
        assert(decreases_to!(i.0 => i.0.else_body));
        assert(decreases_to!(i.0.else_body => i.0.else_body@));
        assert forall|k: int| 0 <= k < i.0.if_body@.len() implies decreases_to!(
            ctx => #[trigger] i.0.if_body@[k]
        ) by {
            assert(decreases_to!(i.0.if_body@ => i.0.if_body@[k]));
        }
        assert forall|k: int| 0 <= k < i.0.else_body@.len() implies decreases_to!(
            ctx => #[trigger] i.0.else_body@[k]
        ) by {
            assert(decreases_to!(i.0.else_body@ => i.0.else_body@[k]));
        }
    }
}

/// Runs `let`, a variable read, or a function definition.
fn exec_binding<'a>(
    s: &'a Statement,
    stack: &mut AliceStack,
    table: &mut AliceTable<'a>,
    console: &Console,
    Ghost(ts): Ghost<TypeState>,
    Ghost(base): Ghost<Seq<u32>>,
    frame: Frame,
    Ghost(ctx): Ghost<Seq<Statement>>,
) -> (r: Result<Flow, RuntimeError>)
    requires
        is_binding(*s),
        frame_fits(*old(table), frame),
        decreases_to!(ctx => *s),
        within(ctx, old(table).funs@, frame),
    ensures
        runs_as_specified(
            *s,
            r,
            run_state(*old(stack), *old(table), *console),
            run_state(*final(stack), *final(table), *console),
            frame,
        ),
        within(ctx, final(table).funs@, frame),
        table_step(*s, *old(table), *final(table)),
        r is Ok ==> r == Ok::<Flow, RuntimeError>(Flow::Continue),
        sound_start(old(stack).stack@, *old(table), base, ts, *s, frame) ==> sound_end(
            r,
            final(stack).stack@,
            *final(table),
            base,
            check_stmt(ts, *s)->0,
            frame,
        ),
{
    let ghost vs = stack.stack@;
    let ghost tys = base + ts.vals;
    let ghost start = sound_start(vs, *table, base, ts, *s, frame);
    let ghost after = check_stmt(ts, *s)->0;
    let ghost n = ts.vals.len();
    let ghost big = tys.len();
    let ghost old_vars = table.vars@;
    let ghost old_funs = table.funs@;
    proof {
        if start {
            assert(vs.len() == big);
            assert(ts.vals.subrange(0, n as int) =~= ts.vals);
        }
    }
    match s {
        Statement::Let(l) => {
            let v = match &l.literal {
                Some(lit) => lit.duplicate(),
                None => {
                    if stack.stack.len() == 0 {
                        return Err(RuntimeError::Fault("too few values on the stack".to_string()));
                    }
                    stack.stack.pop().unwrap()
                },
            };
            let name = l.ident.clone();
            table.vars.push((name, v));
            proof {
                assert(table.vars@.drop_last() =~= old_vars);
                let fv = frame_vars(table.vars@, frame);
                let ofv = frame_vars(old_vars, frame);
                assert(fv =~= ofv.push((l.ident, v)));
                assert(fv.drop_last() =~= ofv);
                if start {
                    if l.literal is None {
                        lemma_single_pattern(ts.vals, l.ty);
                        assert(slot_accepts(type_bit_of(vs[big - 1]), tys[big - 1]));
                        lemma_accepts_trans(type_bit_of(vs[big - 1]), tys[big - 1], l.ty);
                        assert(base + after.vals =~= tys.drop_last());
                        lemma_typed_pop(vs, tys);
                    } else {
                        assert(base + after.vals =~= tys);
                    }
                    assert(after.vars == ts.vars.push((l.ident@, l.ty)));
                    assert forall|k: Seq<char>| #[trigger]
                        lookup_var(after.vars, k) is Some implies lookup_value(fv, k) is Some
                        && slot_accepts(
                        type_bit_of(lookup_value(fv, k)->0),
                        lookup_var(after.vars, k)->0,
                    ) by {
                        assert(after.vars.drop_last() =~= ts.vars);
                        if k != l.ident@ {
                            assert(lookup_var(after.vars, k) == lookup_var(ts.vars, k));
                            assert(lookup_value(fv, k) == lookup_value(ofv, k));
                        }
                    }
                }
            }
        },
        Statement::PushFromTable(p) => {
            match table.get_in(&p.0, frame.vars) {
                Some(v) => {
                    let v = v.duplicate();
                    stack.stack.push(v);
                    proof {
                        if start {
                            assert(lookup_var(ts.vars, p.0@) is Some);
                            let t = lookup_var(ts.vars, p.0@)->0;
                            assert(base + after.vals =~= tys.push(t));
                            lemma_typed_push(vs, tys, v, t);
                        }
                    }
                },
                None => {
                    return Err(RuntimeError::Fault("unknown variable binding".to_string()));
                },
            }
        },
        Statement::Fun(f) => {
            let name = f.ident.clone();
            table.funs.push((name, &f.fun));
            proof {
                lemma_fun_body_within(ctx, *s);
                assert(table.funs@.drop_last() =~= old_funs);
                assert forall|i: int| frame.funs <= i < table.funs@.len() implies decreases_to!(
                    ctx => (#[trigger] table.funs@[i]).1.body@
                ) by {
                    if i < old_funs.len() {
                        assert(table.funs@[i] == old_funs[i]);
                    }
                }
                let ff = frame_funs(table.funs@, frame);
                let off = frame_funs(old_funs, frame);
                assert(ff =~= off.push((f.ident, &f.fun)));
                assert(ff.drop_last() =~= off);
                if start {
                    assert(base + after.vals =~= tys);
                    assert(after.funs == ts.funs.push(
                        (f.ident@, f.fun.args@, f.fun.return_type),
                    ));
                    assert forall|k: Seq<char>| #[trigger] lookup_fun(after.funs, k) is Some implies {
                        let sig = lookup_fun(after.funs, k)->0;
                        &&& lookup_function(ff, k) is Some
                        &&& lookup_function(ff, k)->0.args@ == sig.0
                        &&& lookup_function(ff, k)->0.return_type == sig.1
                        &&& fun_body_ok(sig.0, sig.1, lookup_function(ff, k)->0.body@)
                    } by {
                        assert(after.funs.drop_last() =~= ts.funs);
                        if k != f.ident@ {
                            assert(lookup_fun(after.funs, k) == lookup_fun(ts.funs, k));
                            assert(lookup_function(ff, k) == lookup_function(off, k));
                        }
                    }
                }
            }
        },
        _ => {},
    }
    Ok(Flow::Continue)
}

/// What holds before statements run, for them to run soundly (see `sound_start`).
pub open spec fn seq_start(
    stack: Seq<AliceVal>,
    table: AliceTable,
    base: Seq<u32>,
    ts: TypeState,
    ss: Seq<Statement>,
    frame: Frame,
) -> bool {
    &&& typed(stack, table, base, ts, frame)
    &&& check_seq(ts, ss) is Some
}

pub proof fn lemma_accepts_nothing(v: AliceVal)
    ensures
        !slot_accepts(type_bit_of(v), 0),
{
    lemma_type_bit_shape(v);
    let a = type_bit_of(v);
    assert(a != 0 ==> a & 0 != a) by (bit_vector);
}

/// Runs one statement in `frame`. From a sound start (the state agrees with the
/// checker's state `ts`, which accepts the statement) it does not fault, and when the
/// program goes on the state agrees with the checker's state after the statement.
/// `ctx` is the code the statement stands in, which every function it can call lies
/// within.
#[verifier::rlimit(80)]
pub fn exec_statement<'a, F: FloatOps>(
    s: &'a Statement,
    stack: &mut AliceStack,
    table: &mut AliceTable<'a>,
    console: &mut Console,
    Ghost(ts): Ghost<TypeState>,
    Ghost(base): Ghost<Seq<u32>>,
    frame: Frame,
    Ghost(ctx): Ghost<Seq<Statement>>,
) -> (r: Result<Flow, RuntimeError>)
    requires
        frame_fits(*old(table), frame),
        decreases_to!(ctx => *s),
        within(ctx, old(table).funs@, frame),
    ensures
        within(ctx, final(table).funs@, frame),
        table_step(*s, *old(table), *final(table)),
        runs_body(
            *s,
            r,
            run_state(*old(stack), *old(table), *old(console)),
            run_state(*final(stack), *final(table), *final(console)),
            old(table).funs@,
            frame,
        ),
        runs_as_specified(
            *s,
            r,
            run_state(*old(stack), *old(table), *old(console)),
            run_state(*final(stack), *final(table), *final(console)),
            frame,
        ),
        sound_start(old(stack).stack@, *old(table), base, ts, *s, frame) ==> sound_end(
            r,
            final(stack).stack@,
            *final(table),
            base,
            check_stmt(ts, *s)->0,
            frame,
        ),
        ({
            let t1 = TypeState { vals: ts.vals.drop_last(), ..ts };
            sound_start(old(stack).stack@, *old(table), base, ts, *s, frame) && r == Ok::<
                Flow,
                RuntimeError,
            >(Flow::Continue) ==> match *s {
                Statement::If(_) => values_typed(final(stack).stack@, base + ts.vals.drop_last()),
                Statement::IfElse(i) => values_typed(
                    final(stack).stack@,
                    base + check_seq(t1, i.0.if_body@)->0.vals,
                ) && values_typed(final(stack).stack@, base + check_seq(t1, i.0.else_body@)->0.vals),
                _ => true,
            }
        }),
    decreases ctx, s, 1nat,
{
    let ghost b0 = run_state(*stack, *table, *console);
    let ghost table0 = *table;
    let ghost vs = stack.stack@;
    let ghost tys = base + ts.vals;
    let ghost start = sound_start(vs, *table, base, ts, *s, frame);
    let ghost after = check_stmt(ts, *s)->0;
    let ghost n = ts.vals.len();
    let ghost big = tys.len();
    let ghost t1 = TypeState { vals: ts.vals.subrange(0, n - 1), ..ts };
    match s {
        Statement::If(_) | Statement::IfElse(_) => {
            if stack.stack.len() == 0 {
                return Err(RuntimeError::Fault("too few values on the stack".to_string()));
            }
            proof {
                lemma_arms_within(ctx, *s);
                if start {
                    assert(vs.len() == big);
                    lemma_single_pattern(ts.vals, BOOL);
                    assert(slot_accepts(type_bit_of(vs[big - 1]), tys[big - 1]));
                    lemma_accepts_trans(type_bit_of(vs[big - 1]), tys[big - 1], BOOL);
                    lemma_accepted_by_single(vs[big - 1], BOOL);
                    lemma_type_bit_shape(vs[big - 1]);
                    assert(base + t1.vals =~= tys.drop_last());
                    lemma_typed_pop(vs, tys);
                    assert(t1.vals == ts.vals.drop_last());
                }
            }
            let b = match stack.stack.pop().unwrap() {
                AliceVal::Bool(b) => b,
                _ => {
                    return Err(RuntimeError::Fault("condition is not a bool".to_string()));
                },
            };
            proof {
                assert(stack.stack@ =~= vs.drop_last());
                assert(run_state(*stack, *table, *console) == with_stack(b0, b0.stack.drop_last()));
                assert(vs.last() == AliceVal::Bool(b));
            }
            let vmark = table.vars.len();
            let fmark = table.funs.len();
            let arm: Option<&'a Vec<Statement>> = match s {
                Statement::If(i) => if b {
                    Some(&i.0.body)
                } else {
                    None
                },
                Statement::IfElse(i) => if b {
                    Some(&i.0.if_body)
                } else {
                    Some(&i.0.else_body)
                },
                _ => None,
            };
            let r = match arm {
                Some(body) => {
                    let r = exec_sequence::<F>(
                        body,
                        stack,
                        table,
                        console,
                        Ghost(t1),
                        Ghost(base),
                        frame,
                        Ghost(ctx),
                    );
                    let ghost inner = run_state(*stack, *table, *console);
                    table.vars.truncate(vmark);
                    table.funs.truncate(fmark);
                    proof {
                        assert(table.vars@ =~= table0.vars@);
                        assert(table.funs@ =~= table0.funs@);
                        assert(run_state(*stack, *table, *console) == RunState {
                            vars: b0.vars,
                            ..inner
                        });
                    }
                    r
                },
                None => Ok(Flow::Continue),
            };
            proof {
                if !b && s is If {
                    assert(stack_effect(*s, vs, frame) == Some(vs.drop_last()));
                }
                if start && continues(r) {
                    let body = if s is If {
                        s->If_0.0.body@
                    } else if b {
                        s->IfElse_0.0.if_body@
                    } else {
                        s->IfElse_0.0.else_body@
                    };
                    if s is If {
                        assert(check_seq(t1, body) is Some);
                        let t = check_seq(t1, body)->0;
                        assert(t1.vals + seq![] =~= t1.vals);
                        assert(after == t1);
                    } else {
                        let a = check_seq(t1, s->IfElse_0.0.if_body@)->0;
                        assert(a.vals + seq![] =~= a.vals);
                        assert(after == crate::statement::with_vals(t1, a.vals));
                    }
                }
            }
            r
        },
        Statement::ExecuteFun(c) => {
            let i = match table.find_fun(&c.0, frame.funs) {
                Some(i) => i,
                None => {
                    return Err(RuntimeError::Fault("unknown function".to_string()));
                },
            };
            let f: &'a AliceFun = table.funs[i].1;
            let k = f.args.0.len();
            if stack.stack.len() < k {
                return Err(RuntimeError::Fault("too few arguments on the stack".to_string()));
            }
            let callee = Frame { stack: stack.stack.len() - k, vars: table.vars.len(), funs: table.funs.len() };
            let ghost args = f.args@;
            let ghost below = base + ts.vals.subrange(0, n - k);
            let ghost entry = crate::statement::fun_entry(args);
            proof {
                assert(decreases_to!(ctx => table.funs@[i as int].1.body@));
                assert forall|j: int| 0 <= j < f.body@.len() implies decreases_to!(
                    f.body@ => #[trigger] f.body@[j]
                ) by {}
                assert(frame_vars(table.vars@, callee) =~= seq![]);
                assert(frame_funs(table.funs@, callee) =~= seq![]);
                assert(callee == callee_frame(b0, k as int, table0.funs@));
                if start {
                    assert(vs.len() == big);
                    assert(ts.vals.subrange(0, n as int) =~= ts.vals);
                    assert(lookup_fun(ts.funs, c.0@) is Some);
                    let sig = lookup_fun(ts.funs, c.0@)->0;
                    assert(sig.0 == args);
                    assert(crate::type_check::pattern_matches(ts.vals, args));
                    assert(below + entry.vals =~= below + args);
                    assert(values_typed(vs, below + args)) by {
                        assert forall|j: int| 0 <= j < vs.len() implies slot_accepts(
                            type_bit_of(#[trigger] vs[j]),
                            (below + args)[j],
                        ) by {
                            assert(slot_accepts(type_bit_of(vs[j]), tys[j]));
                            if j >= big - k {
                                let m = j - (big - k);
                                assert(tys[j] == ts.vals[n - k + m]);
                                assert(slot_accepts(ts.vals[n - k + m], args[m]));
                                assert((below + args)[j] == args[m]);
                                lemma_accepts_trans(type_bit_of(vs[j]), tys[j], args[m]);
                            } else {
                                assert((below + args)[j] == tys[j]);
                            }
                        }
                    }
                    crate::statement::lemma_fun_entry_funs(args);
                    assert(entry.vars =~= seq![]);
                    assert(entry.funs =~= seq![]);
                }
            }
            let r = exec_sequence::<F>(
                &f.body,
                stack,
                table,
                console,
                Ghost(entry),
                Ghost(below),
                callee,
                Ghost(f.body@),
            );
            let ghost inner = run_state(*stack, *table, *console);
            table.vars.truncate(callee.vars);
            table.funs.truncate(callee.funs);
            proof {
                assert(table.vars@ =~= table0.vars@);
                assert(table.funs@ =~= table0.funs@);
                assert(run_state(*stack, *table, *console) == RunState { vars: b0.vars, ..inner });
                if start && r == Ok::<Flow, RuntimeError>(Flow::Continue) {
                    let ret = f.return_type;
                    let tb = check_seq(entry, f.body@)->0;
                    let rest = ts.vals.subrange(0, n - k);
                    assert(crate::statement::fun_result_ok(tb, ret));
                    let out = stack.stack@;
                    if ret == 0 && tb.vals.len() == 1 {
                        assert(slot_accepts(
                            type_bit_of(out[out.len() - 1]),
                            (below + tb.vals)[out.len() - 1],
                        ));
                        lemma_accepts_nothing(out[out.len() - 1]);
                    }
                    if ret != 0 {
                        assert(tb.vals =~= seq![ret]);
                        assert(after.vals =~= rest.push(ret));
                        assert(base + after.vals =~= below + tb.vals);
                    } else {
                        assert(tb.vals =~= seq![]);
                        assert(after.vals =~= rest);
                        assert(base + after.vals =~= below + tb.vals);
                    }
                }
            }
            r
        },
        Statement::Add(_) | Statement::Sub(_) | Statement::Mul(_) | Statement::Div(_)
        | Statement::Mod(_) | Statement::Pow(_) | Statement::Eqs(_) | Statement::NotEqs(_)
        | Statement::Gt(_) | Statement::GtEqs(_) | Statement::Lt(_) | Statement::LtEqs(_) => {
            exec_binary::<F>(s, stack, table, console, Ghost(ts), Ghost(base), frame)
        },
        Statement::Let(_) | Statement::PushFromTable(_) | Statement::Fun(_) => {
            exec_binding(s, stack, table, console, Ghost(ts), Ghost(base), frame, Ghost(ctx))
        },
        Statement::Push(_) | Statement::Swap(_) | Statement::Rot(_) | Statement::Dup(_)
        | Statement::Over(_) | Statement::Clear(_) => {
            exec_shuffle(s, stack, table, console, Ghost(ts), Ghost(base), frame)
        },
        _ => exec_console(s, stack, table, console, Ghost(ts), Ghost(base), frame),
    }
}

/// One statement's change to the bindings keeps the older ones in place.
pub proof fn lemma_step_extends(s: Statement, a: AliceTable, b: AliceTable, c: AliceTable)
    requires
        extends(a, b),
        table_step(s, b, c),
    ensures
        extends(a, c),
{
    if c.vars@ != b.vars@ {
        assert(c.vars@.subrange(0, b.vars@.len() as int) =~= b.vars@);
    }
    if c.funs@ != b.funs@ {
        assert(c.funs@.subrange(0, b.funs@.len() as int) =~= b.funs@);
    }
    assert(c.vars@.subrange(0, a.vars@.len() as int) =~= c.vars@.subrange(
        0,
        b.vars@.len() as int,
    ).subrange(0, a.vars@.len() as int));
    assert(c.funs@.subrange(0, a.funs@.len() as int) =~= c.funs@.subrange(
        0,
        b.funs@.len() as int,
    ).subrange(0, a.funs@.len() as int));
}

/// Runs statements in order, in `frame`, until one ends the program or fails. They
/// stand in `ctx`, which every function they can call lies within.
pub fn exec_sequence<'a, F: FloatOps>(
    ss: &'a Vec<Statement>,
    stack: &mut AliceStack,
    table: &mut AliceTable<'a>,
    console: &mut Console,
    Ghost(ts): Ghost<TypeState>,
    Ghost(base): Ghost<Seq<u32>>,
    frame: Frame,
    Ghost(ctx): Ghost<Seq<Statement>>,
) -> (r: Result<Flow, RuntimeError>)
    requires
        frame_fits(*old(table), frame),
        forall|k: int| 0 <= k < ss@.len() ==> decreases_to!(ctx => #[trigger] ss@[k]),
        within(ctx, old(table).funs@, frame),
    ensures
        within(ctx, final(table).funs@, frame),
        extends(*old(table), *final(table)),
        seq_start(old(stack).stack@, *old(table), base, ts, ss@, frame) ==> sound_end(
            r,
            final(stack).stack@,
            *final(table),
            base,
            check_seq(ts, ss@)->0,
            frame,
        ),
        runs_through(
            ss@,
            r,
            run_state(*old(stack), *old(table), *old(console)),
            run_state(*final(stack), *final(table), *final(console)),
            frame,
        ),
    decreases ctx, ss, 0nat,
{
    let ghost start = seq_start(stack.stack@, *table, base, ts, ss@, frame);
    let ghost table0 = *table;
    let ghost s0 = run_state(*stack, *table, *console);
    let ghost mut tr: Seq<RunState> = seq![s0];
    proof {
        assert(ss@.subrange(0, 0) =~= seq![]);
        assert(table0.vars@.subrange(0, table0.vars@.len() as int) =~= table0.vars@);
        assert(table0.funs@.subrange(0, table0.funs@.len() as int) =~= table0.funs@);
    }
    let mut i: usize = 0;
    while i < ss.len()
        invariant
            i <= ss@.len(),
            forall|k: int| 0 <= k < ss@.len() ==> decreases_to!(ctx => #[trigger] ss@[k]),
            within(ctx, table.funs@, frame),
            extends(table0, *table),
            frame_fits(table0, frame),
            start == seq_start(old(stack).stack@, *old(table), base, ts, ss@, frame),
            table0 == *old(table),
            start ==> check_seq(ts, ss@.subrange(0, i as int)) is Some,
            start ==> typed(
                stack.stack@,
                *table,
                base,
                check_seq(ts, ss@.subrange(0, i as int))->0,
                frame,
            ),
            s0 == run_state(*old(stack), *old(table), *old(console)),
            tr.len() == i + 1,
            tr[0] == s0,
            tr.last() == run_state(*stack, *table, *console),
            forall|j: int|
                0 <= j < i ==> runs_as_specified(
                    #[trigger] ss@[j],
                    Ok::<Flow, RuntimeError>(Flow::Continue),
                    tr[j],
                    tr[j + 1],
                    frame,
                ),
        decreases ss@.len() - i,
    {
        let ghost cur = check_seq(ts, ss@.subrange(0, i as int))->0;
        let ghost before = *table;
        proof {
            lemma_check_seq_step(ts, ss@, i as int);
            if start {
                if check_seq(ts, ss@.subrange(0, i + 1)) is None {
                    lemma_check_seq_prefix_rejected(ts, ss@, i + 1);
                }
            }
            assert(decreases_to!(ctx => ss@[i as int]));
        }
        let r = exec_statement::<F>(
            &ss[i],
            stack,
            table,
            console,
            Ghost(cur),
            Ghost(base),
            frame,
            Ghost(ctx),
        );
        proof {
            lemma_step_extends(ss@[i as int], table0, before, *table);
        }
        let ghost tr1 = tr.push(run_state(*stack, *table, *console));
        proof {
            assert forall|j: int| 0 <= j < i implies runs_as_specified(
                #[trigger] ss@[j],
                Ok::<Flow, RuntimeError>(Flow::Continue),
                tr1[j],
                tr1[j + 1],
                frame,
            ) by {
                assert(tr1[j] == tr[j] && tr1[j + 1] == tr[j + 1]);
            }
            assert(tr1[i as int] == tr.last());
        }
        match r {
            Ok(Flow::Continue) => {},
            _ => {
                proof {
                    assert(runs_in_order(ss@, r, tr1, frame));
                    assert(tr1[0] == s0);
                    assert(runs_through(ss@, r, s0, tr1.last(), frame));
                }
                return r;
            },
        }
        proof {
            tr = tr1;
        }
        i = i + 1;
    }
    proof {
        assert(ss@.subrange(0, i as int) =~= ss@);
        assert(runs_in_order(ss@, Ok::<Flow, RuntimeError>(Flow::Continue), tr, frame));
        assert(tr[0] == s0);
        assert(runs_through(ss@, Ok::<Flow, RuntimeError>(Flow::Continue), s0, tr.last(), frame));
    }
    Ok(Flow::Continue)
}

/// The function bindings of a table, as the definitions that made them.
pub open spec fn definitions(funs: Seq<(String, &AliceFun)>) -> Seq<Statement> {
    funs.map_values(|p: (String, &AliceFun)| Statement::Fun(FunStatement { ident: p.0, fun: *p.1 }))
}

/// Code made of `code` followed by the definitions of the bound functions holds them all.
pub proof fn lemma_top_within(code: Seq<Statement>, funs: Seq<(String, &AliceFun)>)
    ensures
        within(code + definitions(funs), funs, Frame { stack: 0, vars: 0, funs: 0 }),
        forall|k: int| 0 <= k < code.len() ==> decreases_to!(code + definitions(funs) => #[trigger] code[k]),
{
    let ctx = code + definitions(funs);
    assert forall|i: int| 0 <= i < funs.len() implies decreases_to!(
        ctx => (#[trigger] funs[i]).1.body@
    ) by {
        let d = ctx[code.len() + i];
        assert(d == Statement::Fun(FunStatement { ident: funs[i].0, fun: *funs[i].1 }));
        assert(decreases_to!(ctx => d));
        lemma_fun_body_within(ctx, d);
    }
    assert forall|k: int| 0 <= k < code.len() implies decreases_to!(ctx => #[trigger] code[k]) by {
        assert(ctx[k] == code[k]);
    }
}

/// Runs one statement at the top of a program. When the state agrees with some state of
/// the checker that accepts the statement there, it does not fault.
pub fn execute<'a, F: FloatOps>(
    s: &'a Statement,
    stack: &mut AliceStack,
    table: &mut AliceTable<'a>,
    console: &mut Console,
) -> (r: Result<Flow, RuntimeError>)
    ensures
        (exists|ts: TypeState|
            sound_start(old(stack).stack@, *old(table), seq![], ts, *s, Frame { stack: 0, vars: 0, funs: 0 }))
            ==> !(r matches Err(RuntimeError::Fault(_))),
        table_step(*s, *old(table), *final(table)),
        runs_as_specified(
            *s,
            r,
            run_state(*old(stack), *old(table), *old(console)),
            run_state(*final(stack), *final(table), *final(console)),
            Frame { stack: 0, vars: 0, funs: 0 },
        ),
        runs_body(
            *s,
            r,
            run_state(*old(stack), *old(table), *old(console)),
            run_state(*final(stack), *final(table), *final(console)),
            old(table).funs@,
            Frame { stack: 0, vars: 0, funs: 0 },
        ),
{
    let frame = Frame::top();
    let ghost ts = choose|ts: TypeState| sound_start(old(stack).stack@, *old(table), seq![], ts, *s, frame);
    let ghost base: Seq<u32> = seq![];
    let ghost ctx = seq![*s] + definitions(table.funs@);
    proof {
        lemma_top_within(seq![*s], table.funs@);
        assert(seq![*s][0] == *s);
    }
    exec_statement::<F>(s, stack, table, console, Ghost(ts), Ghost(base), frame, Ghost(ctx))
}

/// Runs a whole program: the statements in order, each as `runs_as_specified`
/// states, until one ends the program or fails. From an empty stack and table, a
/// program that the checker accepts never underflows the stack nor meets a value of the
/// wrong type: the only errors left are arithmetic ones and missing input, and when it
/// runs to its end the stack is empty.
pub fn run<'a, F: FloatOps>(
    statements: &'a Vec<Statement>,
    stack: &mut AliceStack,
    table: &mut AliceTable<'a>,
    console: &mut Console,
) -> (r: Result<Flow, RuntimeError>)
    ensures
        runs_through(
            statements@,
            r,
            run_state(*old(stack), *old(table), *old(console)),
            run_state(*final(stack), *final(table), *final(console)),
            Frame { stack: 0, vars: 0, funs: 0 },
        ),
        crate::type_check::program_accepted(statements@) && old(stack).stack@.len() == 0
            && old(table).vars@.len() == 0 && old(table).funs@.len() == 0 ==> {
            &&& !(r matches Err(RuntimeError::Fault(_)))
            &&& r == Ok::<Flow, RuntimeError>(Flow::Continue) ==> final(stack).stack@.len() == 0
        },
{
    let frame = Frame::top();
    let ghost empty = TypeState { vals: seq![], vars: seq![], funs: seq![] };
    let ghost base: Seq<u32> = seq![];
    let ghost ctx = statements@ + definitions(table.funs@);
    proof {
        lemma_top_within(statements@, table.funs@);
        if old(stack).stack@.len() == 0 && old(table).vars@.len() == 0
            && old(table).funs@.len() == 0 {
            assert(seq![] + empty.vals =~= seq![]);
            assert(values_typed(stack.stack@, seq![] + empty.vals));
            assert(frame_vars(table.vars@, frame) =~= seq![]);
            assert(frame_funs(table.funs@, frame) =~= seq![]);
        }
    }
    let r = exec_sequence::<F>(
        statements,
        stack,
        table,
        console,
        Ghost(empty),
        Ghost(base),
        frame,
        Ghost(ctx),
    );
    proof {
        if crate::type_check::program_accepted(statements@) && r == Ok::<Flow, RuntimeError>(
            Flow::Continue,
        ) && old(stack).stack@.len() == 0 && old(table).vars@.len() == 0
            && old(table).funs@.len() == 0 {
            assert(seq![] + check_seq(empty, statements@)->0.vals =~= check_seq(
                empty,
                statements@,
            )->0.vals);
        }
    }
    r
}

/// `**` rejects an int base with a float exponent.
pub proof fn pow_rejects_int_float(ts: TypeState)
    requires
        ts.vals.len() >= 2,
        ts.vals[ts.vals.len() - 2] == INT,
        ts.vals[ts.vals.len() - 1] == FLOAT,
    ensures
        check_stmt(ts, Statement::Pow(crate::statement::PowStatement)) is None,
{
    assert(ts.vals.subrange(0, ts.vals.len() as int) =~= ts.vals);
}

/// An accepted `if` leaves the checker's stack as it found it, less the condition.
pub proof fn if_leaves_stack_unchanged(ts: TypeState, s: Statement)
    requires
        s is If,
        check_stmt(ts, s) is Some,
    ensures
        check_stmt(ts, s)->0.vals == ts.vals.drop_last(),
{
    let t1 = crate::statement::with_vals(ts, ts.vals.subrange(0, ts.vals.len() - 1));
    let t = check_seq(t1, s->If_0.0.body@)->0;
    assert(t.vals + seq![] =~= t.vals);
    assert(ts.vals.subrange(0, ts.vals.len() - 1) =~= ts.vals.drop_last());
}

/// Both arms of an accepted `if`-`else` leave the same stack types, and the checker
/// continues with them.
pub proof fn if_else_arms_agree(ts: TypeState, s: Statement)
    requires
        s is IfElse,
        check_stmt(ts, s) is Some,
    ensures
        ({
            let t1 = TypeState { vals: ts.vals.drop_last(), ..ts };
            let i = s->IfElse_0.0;
            &&& check_seq(t1, i.if_body@) is Some
            &&& check_seq(t1, i.else_body@) is Some
            &&& check_seq(t1, i.if_body@)->0.vals == check_seq(t1, i.else_body@)->0.vals
            &&& check_stmt(ts, s)->0.vals == check_seq(t1, i.if_body@)->0.vals
        }),
{
    let t1 = crate::statement::with_vals(ts, ts.vals.subrange(0, ts.vals.len() - 1));
    assert(ts.vals.subrange(0, ts.vals.len() - 1) =~= ts.vals.drop_last());
    let a = check_seq(t1, s->IfElse_0.0.if_body@)->0;
    assert(a.vals + seq![] =~= a.vals);
}

/// Whether a statement reads input, at any depth (function bodies included).
pub open spec fn reads_input_spec(s: Statement) -> bool
    decreases s,
{
    match s {
        Statement::ReadInput(_) => true,
        Statement::If(i) => exists|k: int|
            0 <= k < i.0.body@.len() && reads_input_spec(#[trigger] i.0.body@[k]),
        Statement::IfElse(i) => (exists|k: int|
            0 <= k < i.0.if_body@.len() && reads_input_spec(#[trigger] i.0.if_body@[k])) || (exists|
            k: int,
        |
            0 <= k < i.0.else_body@.len() && reads_input_spec(#[trigger] i.0.else_body@[k])),
        Statement::Fun(f) => exists|k: int|
            0 <= k < f.fun.body@.len() && reads_input_spec(#[trigger] f.fun.body@[k]),
        _ => false,
    }
}

/// Whether any of the statements reads input, so that a driver knows to gather it.
pub fn reads_input(ss: &Vec<Statement>) -> (r: bool)
    ensures
        r == exists|k: int| 0 <= k < ss@.len() && reads_input_spec(#[trigger] ss@[k]),
    decreases ss, 0nat,
{
    let mut i: usize = 0;
    while i < ss.len()
        invariant
            i <= ss@.len(),
            forall|k: int| 0 <= k < i ==> !reads_input_spec(#[trigger] ss@[k]),
        decreases ss@.len() - i,
    {
        if statement_reads_input(&ss[i]) {
            return true;
        }
        i = i + 1;
    }
    false
}

fn statement_reads_input(s: &Statement) -> (r: bool)
    ensures
        r == reads_input_spec(*s),
    decreases s, 1nat,
{
    match s {
        Statement::ReadInput(_) => true,
        Statement::If(i) => reads_input(&i.0.body),
        Statement::IfElse(i) => reads_input(&i.0.if_body) || reads_input(&i.0.else_body),
        Statement::Fun(f) => reads_input(&f.fun.body),
        _ => false,
    }
}

/// Whether every slot type names a single primitive (no `any`, no union).
pub open spec fn single_types(ts: Seq<u32>) -> bool {
    forall|i: int| 0 <= i < ts.len() ==> (#[trigger] ts[i] == INT || ts[i] == FLOAT || ts[i] == STRING
        || ts[i] == BOOL)
}

/// Values accepted slot by slot by single-primitive types have exactly those types. So,
/// after an accepted `if` (see `exec_statement`: the stack is typed by the types it had,
/// less the condition) or either arm of an accepted `if`-`else` (typed by the arms'
/// common result), the runtime types are those very types wherever they are single.
pub proof fn typed_values_have_their_types(vs: Seq<AliceVal>, ts: Seq<u32>)
    requires
        values_typed(vs, ts),
        single_types(ts),
    ensures
        types_of(vs) == ts,
{
    assert forall|i: int| 0 <= i < vs.len() implies types_of(vs)[i] == ts[i] by {
        assert(slot_accepts(type_bit_of(vs[i]), ts[i]));
        lemma_accepted_by_single(vs[i], ts[i]);
    }
    assert(types_of(vs) =~= ts);
}

} // verus!
