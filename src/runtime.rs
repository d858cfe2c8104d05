use vstd::prelude::*;

use crate::object::{AliceFun, AliceObj};
use crate::text::string_of;
use crate::type_check::{BOOL, FLOAT, INT, OBJECT, OBJECT_SIG_MASK, STRING};

verus! {

/// A runtime value. A float is held as the bit pattern of an IEEE 754 double;
/// the arithmetic on it is supplied through `FloatOps`.
#[derive(Debug)]
pub enum AliceVal {
    String(String),
    Bool(bool),
    Int(i64),
    Float(u64),
    Object(AliceObj),
}

/// The type bitmask of a value.
pub open spec fn type_bit_of(v: AliceVal) -> u32 {
    match v {
        AliceVal::String(_) => STRING,
        AliceVal::Bool(_) => BOOL,
        AliceVal::Int(_) => INT,
        AliceVal::Float(_) => FLOAT,
        AliceVal::Object(o) => OBJECT | (o.type_hash & OBJECT_SIG_MASK),
    }
}

pub fn type_bit(val: &AliceVal) -> (r: u32)
    ensures
        r == type_bit_of(*val),
{
    match val {
        AliceVal::String(_) => STRING,
        AliceVal::Bool(_) => BOOL,
        AliceVal::Int(_) => INT,
        AliceVal::Float(_) => FLOAT,
        AliceVal::Object(o) => OBJECT | (o.type_hash & OBJECT_SIG_MASK),
    }
}

impl AliceVal {
    /// A copy of this value.
    pub fn duplicate(&self) -> (r: Self)
        ensures
            r == *self,
    {
        match self {
            AliceVal::String(s) => AliceVal::String(s.clone()),
            AliceVal::Bool(b) => AliceVal::Bool(*b),
            AliceVal::Int(i) => AliceVal::Int(*i),
            AliceVal::Float(f) => AliceVal::Float(*f),
            AliceVal::Object(o) => AliceVal::Object(
                AliceObj { name: o.name.clone(), type_hash: o.type_hash },
            ),
        }
    }
}

/// A binary operation on two floats that yields a float.
#[derive(Debug, PartialEq, Eq, Structural, Clone, Copy)]
pub enum ArithOp {
    Add,
    Sub,
    Mul,
    Div,
    Mod,
    Pow,
}

/// A comparison of two floats.
#[derive(Debug, PartialEq, Eq, Structural, Clone, Copy)]
pub enum CmpOp {
    Eq,
    Gt,
    GtEq,
    Lt,
    LtEq,
}

/// Floating-point arithmetic, on the bit patterns of IEEE 754 doubles. The library
/// decides where a float is made, combined or compared; an implementation computes it.
pub trait FloatOps {
    /// The float that a decimal literal's text (digits and one period) denotes.
    fn parse_decimal(text: &String) -> u64;

    /// The float nearest to an integer.
    fn from_int(v: i64) -> u64;

    /// The integer a float converts to (truncating, saturating).
    fn to_int(f: u64) -> i64;

    /// The printed form of a float.
    fn render(f: u64) -> String;

    fn arith(op: ArithOp, a: u64, b: u64) -> u64;

    /// `a` raised to an integer power.
    fn powi(a: u64, e: i32) -> u64;

    fn compare(op: CmpOp, a: u64, b: u64) -> bool;
}

/// The runtime operand stack, bottom first.
#[derive(Debug)]
pub struct AliceStack {
    pub stack: Vec<AliceVal>,
}

/// The runtime bindings: variables, and functions (borrowed from the program that
/// defines them); each list is searched from its end.
#[derive(Debug)]
pub struct AliceTable<'a> {
    pub vars: Vec<(String, AliceVal)>,
    pub funs: Vec<(String, &'a AliceFun)>,
}

/// What a program prints: a value with a newline, or without one.
#[derive(Debug)]
pub enum Output {
    Line(AliceVal),
    Text(AliceVal),
}

/// The program's standard streams: what it printed, and the input lines it has not read yet.
#[derive(Debug)]
pub struct Console {
    pub out: Vec<Output>,
    pub input: Vec<String>,
}

/// How a statement ended: go on, or stop the program with an exit code.
#[derive(Debug, PartialEq, Eq, Structural, Clone, Copy)]
pub enum Flow {
    Continue,
    Exit(i64),
}

/// A runtime error: an arithmetic fault, input that is not there, or a state that a
/// checked program never reaches.
#[derive(Debug)]
pub enum RuntimeError {
    Arithmetic(String),
    Input(String),
    Fault(String),
}

pub open spec fn types_of(vs: Seq<AliceVal>) -> Seq<u32> {
    vs.map_values(|v: AliceVal| type_bit_of(v))
}

/// The most recent value bound to `name`.
pub open spec fn lookup_value(vars: Seq<(String, AliceVal)>, name: Seq<char>) -> Option<AliceVal>
    decreases vars.len(),
{
    if vars.len() == 0 {
        None
    } else if vars.last().0@ == name {
        Some(vars.last().1)
    } else {
        lookup_value(vars.drop_last(), name)
    }
}

/// The most recent function bound to `name`.
pub open spec fn lookup_function(funs: Seq<(String, &AliceFun)>, name: Seq<char>) -> Option<AliceFun>
    decreases funs.len(),
{
    if funs.len() == 0 {
        None
    } else if funs.last().0@ == name {
        Some(*funs.last().1)
    } else {
        lookup_function(funs.drop_last(), name)
    }
}

impl AliceStack {
    pub fn new(capacity: usize) -> (r: Self)
        ensures
            r.stack@.len() == 0,
    {
        AliceStack { stack: Vec::with_capacity(capacity) }
    }

    pub fn push(&mut self, val: AliceVal)
        ensures
            final(self).stack@ == old(self).stack@.push(val),
    {
        self.stack.push(val);
    }

    /// The value `offset` places below the head.
    pub fn get(&self, offset: usize) -> (r: Option<&AliceVal>)
        ensures
            offset < self.stack@.len() ==> r == Some(&self.stack@[self.stack@.len() - 1 - offset]),
            offset >= self.stack@.len() ==> r is None,
    {
        if offset < self.stack.len() {
            Some(&self.stack[self.stack.len() - 1 - offset])
        } else {
            None
        }
    }

    /// Removes the value `offset` places below the head.
    pub fn remove(&mut self, offset: usize) -> (r: AliceVal)
        requires
            offset < old(self).stack@.len(),
        ensures
            r == old(self).stack@[old(self).stack@.len() - 1 - offset],
            final(self).stack@ == old(self).stack@.remove(old(self).stack@.len() - 1 - offset),
    {
        let i = self.stack.len() - 1 - offset;
        self.stack.remove(i)
    }

    pub fn size(&self) -> (r: usize)
        ensures
            r == self.stack@.len(),
    {
        self.stack.len()
    }

    pub fn pop(&mut self) -> (r: Result<AliceVal, String>)
        ensures
            old(self).stack@.len() == 0 ==> r is Err && final(self).stack@ == old(self).stack@,
            old(self).stack@.len() > 0 ==> r == Ok::<AliceVal, String>(old(self).stack@.last())
                && final(self).stack@ == old(self).stack@.drop_last(),
    {
        match self.stack.pop() {
            Some(v) => Ok(v),
            None => Err("empty stack".to_string()),
        }
    }
}

impl<'a> AliceTable<'a> {
    pub fn new(capacity: usize) -> (r: Self)
        ensures
            r.vars@.len() == 0,
            r.funs@.len() == 0,
    {
        AliceTable { vars: Vec::with_capacity(capacity), funs: Vec::new() }
    }

    /// Binds `key` to `val`; later lookups see this binding.
    pub fn put(&mut self, key: String, val: AliceVal)
        ensures
            final(self).vars@ == old(self).vars@.push((key, val)),
            final(self).funs@ == old(self).funs@,
    {
        self.vars.push((key, val));
    }

    /// The value most recently bound to `key`.
    pub fn get(&self, key: &String) -> (r: Option<&AliceVal>)
        ensures
            r matches Some(v) ==> lookup_value(self.vars@, key@) == Some(*v),
            r is None ==> lookup_value(self.vars@, key@) is None,
    {
        let mut i: usize = self.vars.len();
        assert(self.vars@.subrange(0, i as int) =~= self.vars@);
        while i > 0
            invariant
                i <= self.vars@.len(),
                lookup_value(self.vars@.subrange(0, i as int), key@) == lookup_value(
                    self.vars@,
                    key@,
                ),
            decreases i,
        {
            assert(self.vars@.subrange(0, i as int).drop_last() =~= self.vars@.subrange(
                0,
                i - 1,
            ));
            if self.vars[i - 1].0 == *key {
                return Some(&self.vars[i - 1].1);
            }
            i = i - 1;
        }
        None
    }

    /// The value most recently bound to `key` at or above position `from`.
    pub fn get_in(&self, key: &String, from: usize) -> (r: Option<&AliceVal>)
        requires
            from <= self.vars@.len(),
        ensures
            r matches Some(v) ==> lookup_value(
                self.vars@.subrange(from as int, self.vars@.len() as int),
                key@,
            ) == Some(*v),
            r is None ==> lookup_value(
                self.vars@.subrange(from as int, self.vars@.len() as int),
                key@,
            ) is None,
    {
        let ghost all = self.vars@.subrange(from as int, self.vars@.len() as int);
        let mut i: usize = self.vars.len();
        assert(self.vars@.subrange(from as int, i as int) =~= all);
        while i > from
            invariant
                from <= i <= self.vars@.len(),
                all == self.vars@.subrange(from as int, self.vars@.len() as int),
                lookup_value(self.vars@.subrange(from as int, i as int), key@) == lookup_value(
                    all,
                    key@,
                ),
            decreases i,
        {
            assert(self.vars@.subrange(from as int, i as int).drop_last() =~= self.vars@.subrange(
                from as int,
                i - 1,
            ));
            if self.vars[i - 1].0 == *key {
                return Some(&self.vars[i - 1].1);
            }
            i = i - 1;
        }
        None
    }

    /// The position of the function most recently bound to `key`, at or above `from`.
    pub fn find_fun(&self, key: &String, from: usize) -> (r: Option<usize>)
        requires
            from <= self.funs@.len(),
        ensures
            r matches Some(i) ==> from <= i < self.funs@.len() && lookup_function(
                self.funs@.subrange(from as int, self.funs@.len() as int),
                key@,
            ) == Some(*self.funs@[i as int].1),
            r is None ==> lookup_function(
                self.funs@.subrange(from as int, self.funs@.len() as int),
                key@,
            ) is None,
    {
        let ghost all = self.funs@.subrange(from as int, self.funs@.len() as int);
        let mut i: usize = self.funs.len();
        assert(self.funs@.subrange(from as int, i as int) =~= all);
        while i > from
            invariant
                from <= i <= self.funs@.len(),
                all == self.funs@.subrange(from as int, self.funs@.len() as int),
                lookup_function(self.funs@.subrange(from as int, i as int), key@)
                    == lookup_function(all, key@),
            decreases i,
        {
            assert(self.funs@.subrange(from as int, i as int).drop_last() =~= self.funs@.subrange(
                from as int,
                i - 1,
            ));
            if self.funs[i - 1].0 == *key {
                return Some(i - 1);
            }
            i = i - 1;
        }
        None
    }
}

pub open spec fn digit_char(d: nat) -> char {
    if d == 0 {
        '0'
    } else if d == 1 {
        '1'
    } else if d == 2 {
        '2'
    } else if d == 3 {
        '3'
    } else if d == 4 {
        '4'
    } else if d == 5 {
        '5'
    } else if d == 6 {
        '6'
    } else if d == 7 {
        '7'
    } else if d == 8 {
        '8'
    } else {
        '9'
    }
}

/// The decimal digits of `n`, most significant first.
pub open spec fn decimal_digits(n: nat) -> Seq<char>
    decreases n,
{
    if n < 10 {
        seq![digit_char(n)]
    } else {
        decimal_digits(n / 10).push(digit_char(n % 10))
    }
}

/// The decimal text of an integer, with a leading `-` when it is negative.
pub open spec fn int_text(i: int) -> Seq<char> {
    if i < 0 {
        seq!['-'] + decimal_digits((-i) as nat)
    } else {
        decimal_digits(i as nat)
    }
}

fn digit_to_char(d: u64) -> (r: char)
    requires
        d < 10,
    ensures
        r == digit_char(d as nat),
{
    match d {
        0 => '0',
        1 => '1',
        2 => '2',
        3 => '3',
        4 => '4',
        5 => '5',
        6 => '6',
        7 => '7',
        8 => '8',
        _ => '9',
    }
}

fn push_digits(n: u64, out: &mut Vec<char>)
    ensures
        final(out)@ == old(out)@ + decimal_digits(n as nat),
    decreases n,
{
    if n >= 10 {
        push_digits(n / 10, out);
    }
    out.push(digit_to_char(n % 10));
    proof {
        if n >= 10 {
            assert(final(out)@ =~= old(out)@ + decimal_digits(n as nat));
        } else {
            assert(n % 10 == n);
            assert(final(out)@ =~= old(out)@ + decimal_digits(n as nat));
        }
    }
}

/// The decimal text of an integer.
pub fn int_to_string(i: i64) -> (r: String)
    ensures
        r@ == int_text(i as int),
{
    let mut out: Vec<char> = Vec::new();
    let magnitude: u64 = if i < 0 {
        out.push('-');
        (-(i as i128)) as u64
    } else {
        i as u64
    };
    let ghost before = out@;
    push_digits(magnitude, &mut out);
    proof {
        if i < 0 {
            assert(before =~= seq!['-']);
        } else {
            assert(before =~= seq![]);
            assert(out@ =~= decimal_digits(magnitude as nat));
        }
    }
    string_of(&out)
}

impl AliceVal {
    /// How `println` and `print` show the value: a string as it is, `true`/`false`,
    /// an integer in decimal, a float as `F` renders it, an object by its type name.
    pub fn render<F: FloatOps>(&self) -> (r: String)
        ensures
            *self matches AliceVal::String(x) ==> r@ == x@,
            *self matches AliceVal::Bool(b) ==> r@ == if b {
                seq!['t', 'r', 'u', 'e']
            } else {
                seq!['f', 'a', 'l', 's', 'e']
            },
            *self matches AliceVal::Int(i) ==> r@ == int_text(i as int),
            *self matches AliceVal::Object(o) ==> r@ == o.name@,
    {
        match self {
            AliceVal::String(x) => x.clone(),
            AliceVal::Bool(b) => {
                let mut out: Vec<char> = Vec::new();
                if *b {
                    out.push('t');
                    out.push('r');
                    out.push('u');
                    out.push('e');
                } else {
                    out.push('f');
                    out.push('a');
                    out.push('l');
                    out.push('s');
                    out.push('e');
                }
                proof {
                    if *b {
                        assert(out@ =~= seq!['t', 'r', 'u', 'e']);
                    } else {
                        assert(out@ =~= seq!['f', 'a', 'l', 's', 'e']);
                    }
                }
                string_of(&out)
            },
            AliceVal::Int(i) => int_to_string(*i),
            AliceVal::Float(f) => F::render(*f),
            AliceVal::Object(o) => o.name.clone(),
        }
    }
}

} // verus!
