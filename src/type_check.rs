use vstd::prelude::*;

use crate::statement::{
    check_seq, check_stmt, custom_ok, lemma_check_seq_prefix_rejected, lemma_check_seq_step,
    Statement,
};
use vstd::string::StringExecFns;

verus! {

pub const STRING: u32 = 1;
pub const BOOL: u32 = 2;
pub const INT: u32 = 4;
pub const FLOAT: u32 = 8;
/// The object bit; an object's type tag also carries its type hash in the bits above it.
pub const OBJECT: u32 = 16;
pub const OBJECT_SIG_MASK: u32 = 0b11111111111111111111111111100000;
/// Every primitive at once: a slot of this type accepts any value.
pub const ANY: u32 = 0b11111;

/// Whether a slot holding a value of type `actual` is accepted where `required` is asked:
/// every primitive that `actual` may be must be allowed by `required`.
pub open spec fn slot_accepts(actual: u32, required: u32) -> bool {
    actual & required == actual
}

/// Whether the top of `vals` matches the pattern `pat`, given bottom to top.
pub open spec fn pattern_matches(vals: Seq<u32>, pat: Seq<u32>) -> bool {
    &&& pat.len() <= vals.len()
    &&& forall|i: int|
        0 <= i < pat.len() ==> #[trigger] slot_accepts(vals[vals.len() - pat.len() + i], pat[i])
}

/// The most recent binding of `name` in a list of typed bindings.
pub open spec fn lookup_var(vars: Seq<(Seq<char>, u32)>, name: Seq<char>) -> Option<u32>
    decreases vars.len(),
{
    if vars.len() == 0 {
        None
    } else if vars.last().0 == name {
        Some(vars.last().1)
    } else {
        lookup_var(vars.drop_last(), name)
    }
}

/// The most recent signature (argument pattern, return type) declared for `name`.
pub open spec fn lookup_fun(funs: Seq<(Seq<char>, Seq<u32>, u32)>, name: Seq<char>) -> Option<
    (Seq<u32>, u32),
>
    decreases funs.len(),
{
    if funs.len() == 0 {
        None
    } else if funs.last().0 == name {
        Some((funs.last().1, funs.last().2))
    } else {
        lookup_fun(funs.drop_last(), name)
    }
}

/// What the type checker knows at one program point: the types on the operand stack
/// (bottom to top), the declared variables and the declared function signatures.
pub struct TypeState {
    pub vals: Seq<u32>,
    pub vars: Seq<(Seq<char>, u32)>,
    pub funs: Seq<(Seq<char>, Seq<u32>, u32)>,
}

/// An ordered sequence of type bitmasks, bottom to top.
#[derive(Debug)]
pub struct StackPattern(pub Vec<u32>);

impl View for StackPattern {
    type V = Seq<u32>;

    open spec fn view(&self) -> Seq<u32> {
        self.0@
    }
}

/// The abstract operand stack of the type checker, with its variable and function
/// environments. A new binding is appended; a lookup finds the most recent one.
#[derive(Debug)]
pub struct TypeStack {
    pub vals: Vec<u32>,
    pub vars: Vec<(String, u32)>,
    pub funs: Vec<(String, StackPattern, u32)>,
}

pub open spec fn vars_view(vars: Seq<(String, u32)>) -> Seq<(Seq<char>, u32)> {
    vars.map_values(|p: (String, u32)| (p.0@, p.1))
}

pub open spec fn funs_view(funs: Seq<(String, StackPattern, u32)>) -> Seq<
    (Seq<char>, Seq<u32>, u32),
> {
    funs.map_values(|f: (String, StackPattern, u32)| (f.0@, f.1@, f.2))
}

impl View for TypeStack {
    type V = TypeState;

    open spec fn view(&self) -> TypeState {
        TypeState { vals: self.vals@, vars: vars_view(self.vars@), funs: funs_view(self.funs@) }
    }
}

/// A type error, with its message.
#[derive(Debug)]
pub struct TypeCheckError(pub String);

pub fn is_object(bits: &u32) -> (r: bool)
    ensures
        r == (*bits > 15),
{
    *bits > 15
}

impl StackPattern {
    pub fn single(ty: u32) -> (r: Self)
        ensures
            r@ == seq![ty],
    {
        StackPattern(vec![ty])
    }

    pub fn any(n: usize) -> (r: Self)
        ensures
            r@ == Seq::new(n as nat, |i: int| ANY),
    {
        let mut v: Vec<u32> = Vec::new();
        let mut i: usize = 0;
        while i < n
            invariant
                i <= n,
                v@ == Seq::new(i as nat, |k: int| ANY),
            decreases n - i,
        {
            v.push(ANY);
            i = i + 1;
            assert(v@ =~= Seq::new(i as nat, |k: int| ANY));
        }
        StackPattern(v)
    }

    pub fn clone_pattern(&self) -> (r: Self)
        ensures
            r@ == self@,
    {
        StackPattern(copy_vals(&self.0))
    }

    /// Consumes this pattern from the top of the stack, checking each slot.
    pub fn type_check(&self, stack: &mut TypeStack) -> (r: Result<(), TypeCheckError>)
        ensures
            r is Ok <==> pattern_matches(old(stack)@.vals, self@),
            r is Ok ==> final(stack)@.vals == old(stack)@.vals.subrange(
                0,
                old(stack)@.vals.len() - self@.len(),
            ),
            final(stack)@.vars == old(stack)@.vars,
            final(stack)@.funs == old(stack)@.funs,
    {
        let ghost old_vals = stack.vals@;
        let n = self.0.len();
        let mut k: usize = 0;
        while k < n
            invariant
                n == self@.len(),
                old_vals == old(stack)@.vals,
                k <= n,
                k <= old_vals.len(),
                stack.vals@ == old_vals.subrange(0, old_vals.len() - k),
                stack@.vars == old(stack)@.vars,
                stack@.funs == old(stack)@.funs,
                forall|j: int|
                    n - k <= j < n ==> #[trigger] slot_accepts(
                        old_vals[old_vals.len() - n + j],
                        self@[j],
                    ),
            decreases n - k,
        {
            let t = self.0[n - 1 - k];
            match stack.vals.pop() {
                Some(actual) => {
                    if actual & t != actual {
                        assert(actual == old_vals[old_vals.len() - n + (n - 1 - k)]);
                        assert(!slot_accepts(
                            old_vals[old_vals.len() - n + (n - 1 - k)],
                            self@[n - 1 - k],
                        ));
                        assert(!pattern_matches(old_vals, self@));
                        return Err(TypeCheckError("wrong type on stack when this executes".to_string()));
                    }
                },
                None => {
                    assert(!pattern_matches(old_vals, self@));
                    return Err(
                        TypeCheckError("too few values on stack when this executes".to_string()),
                    );
                },
            }
            k = k + 1;
            assert(stack.vals@ =~= old_vals.subrange(0, old_vals.len() - k));
        }
        Ok(())
    }

    /// Pushes this pattern onto the stack, bottom first.
    pub fn push(&self, stack: &mut TypeStack)
        ensures
            final(stack)@.vals == old(stack)@.vals + self@,
            final(stack)@.vars == old(stack)@.vars,
            final(stack)@.funs == old(stack)@.funs,
    {
        let mut i: usize = 0;
        while i < self.0.len()
            invariant
                i <= self@.len(),
                stack.vals@ == old(stack)@.vals + self@.subrange(0, i as int),
                stack@.vars == old(stack)@.vars,
                stack@.funs == old(stack)@.funs,
            decreases self@.len() - i,
        {
            stack.vals.push(self.0[i]);
            i = i + 1;
            assert(stack.vals@ =~= old(stack)@.vals + self@.subrange(0, i as int));
        }
        assert(self@.subrange(0, self@.len() as int) =~= self@);
    }
}

impl TypeStack {
    pub fn new() -> (r: Self)
        ensures
            r@.vals.len() == 0,
            r@.vars.len() == 0,
            r@.funs.len() == 0,
    {
        TypeStack { vals: Vec::new(), vars: Vec::new(), funs: Vec::new() }
    }

    pub fn pop(&mut self) -> (r: Option<u32>)
        ensures
            old(self)@.vals.len() == 0 ==> r is None && final(self)@ == old(self)@,
            old(self)@.vals.len() > 0 ==> r == Some(old(self)@.vals.last()) && final(self)@
                == (TypeState { vals: old(self)@.vals.drop_last(), ..old(self)@ }),
    {
        self.vals.pop()
    }

    pub fn required_size(&self, size: usize) -> (r: Result<(), TypeCheckError>)
        ensures
            r is Ok <==> self@.vals.len() >= size,
    {
        if self.vals.len() < size {
            Err(TypeCheckError("too few elements on stack when this executes".to_string()))
        } else {
            Ok(())
        }
    }
}

impl TypeCheckError {
    pub fn prefix(&self, prefix: String) -> (r: Self)
        ensures
            r.0@ == prefix@ + self.0@,
    {
        TypeCheckError(prefix.concat(self.0.as_str()))
    }
}

impl TypeStack {
    /// The type of the most recent binding of variable `name`.
    pub fn var_type(&self, name: &String) -> (r: Option<u32>)
        ensures
            r == lookup_var(self@.vars, name@),
    {
        let mut i: usize = self.vars.len();
        assert(self.vars@.subrange(0, i as int) =~= self.vars@);
        while i > 0
            invariant
                i <= self.vars@.len(),
                lookup_var(vars_view(self.vars@.subrange(0, i as int)), name@) == lookup_var(
                    self@.vars,
                    name@,
                ),
            decreases i,
        {
            let ghost pre = vars_view(self.vars@.subrange(0, i as int));
            assert(pre.drop_last() =~= vars_view(self.vars@.subrange(0, i - 1)));
            if self.vars[i - 1].0 == *name {
                return Some(self.vars[i - 1].1);
            }
            i = i - 1;
        }
        assert(vars_view(self.vars@.subrange(0, 0)).len() == 0);
        None
    }

    /// The signature of the most recent function declared as `name`.
    pub fn fun_sig(&self, name: &String) -> (r: Option<(StackPattern, u32)>)
        ensures
            r is None <==> lookup_fun(self@.funs, name@) is None,
            r is Some ==> lookup_fun(self@.funs, name@) == Some(((r->0).0@, (r->0).1)),
    {
        let mut i: usize = self.funs.len();
        assert(self.funs@.subrange(0, i as int) =~= self.funs@);
        while i > 0
            invariant
                i <= self.funs@.len(),
                lookup_fun(funs_view(self.funs@.subrange(0, i as int)), name@) == lookup_fun(
                    self@.funs,
                    name@,
                ),
            decreases i,
        {
            let ghost pre = funs_view(self.funs@.subrange(0, i as int));
            assert(pre.drop_last() =~= funs_view(self.funs@.subrange(0, i - 1)));
            if self.funs[i - 1].0 == *name {
                return Some((self.funs[i - 1].1.clone_pattern(), self.funs[i - 1].2));
            }
            i = i - 1;
        }
        assert(funs_view(self.funs@.subrange(0, 0)).len() == 0);
        None
    }

    /// A copy of this state.
    pub fn duplicate(&self) -> (r: Self)
        ensures
            r@ == self@,
    {
        let vals = copy_vals(&self.vals);
        let mut vars: Vec<(String, u32)> = Vec::new();
        let mut i: usize = 0;
        while i < self.vars.len()
            invariant
                i <= self.vars@.len(),
                vars@.len() == i,
                forall|k: int|
                    0 <= k < i ==> (#[trigger] vars@[k]).0@ == self.vars@[k].0@ && vars@[k].1
                        == self.vars@[k].1,
            decreases self.vars@.len() - i,
        {
            let name = self.vars[i].0.clone();
            vars.push((name, self.vars[i].1));
            i = i + 1;
        }
        let mut funs: Vec<(String, StackPattern, u32)> = Vec::new();
        let mut j: usize = 0;
        while j < self.funs.len()
            invariant
                j <= self.funs@.len(),
                funs@.len() == j,
                forall|k: int|
                    0 <= k < j ==> (#[trigger] funs@[k]).0@ == self.funs@[k].0@ && funs@[k].1@
                        == self.funs@[k].1@ && funs@[k].2 == self.funs@[k].2,
            decreases self.funs@.len() - j,
        {
            let name = self.funs[j].0.clone();
            let args = self.funs[j].1.clone_pattern();
            funs.push((name, args, self.funs[j].2));
            j = j + 1;
        }
        assert(vars_view(vars@) =~= vars_view(self.vars@));
        assert(funs_view(funs@) =~= funs_view(self.funs@));
        TypeStack { vals, vars, funs }
    }

    /// Rebuilds the stack types from the values on a runtime stack, as after a rejected
    /// line in interactive mode.
    pub fn resync(&mut self, stack: &crate::runtime::AliceStack)
        ensures
            final(self)@.vals == crate::runtime::types_of(stack.stack@),
            final(self)@.vars == old(self)@.vars,
            final(self)@.funs == old(self)@.funs,
    {
        self.vals.clear();
        let mut i: usize = 0;
        while i < stack.stack.len()
            invariant
                i <= stack.stack@.len(),
                self.vals@ == crate::runtime::types_of(stack.stack@.subrange(0, i as int)),
                self@.vars == old(self)@.vars,
                self@.funs == old(self)@.funs,
            decreases stack.stack@.len() - i,
        {
            self.vals.push(crate::runtime::type_bit(&stack.stack[i]));
            i = i + 1;
            assert(self.vals@ =~= crate::runtime::types_of(stack.stack@.subrange(0, i as int)));
        }
        assert(stack.stack@.subrange(0, i as int) =~= stack.stack@);
    }

    /// Whether the two stacks hold the same types (the environments are not compared).
    pub fn same_vals(&self, other: &TypeStack) -> (r: bool)
        ensures
            r == (self@.vals == other@.vals),
    {
        if self.vals.len() != other.vals.len() {
            return false;
        }
        let mut i: usize = 0;
        while i < self.vals.len()
            invariant
                i <= self.vals@.len(),
                self.vals@.len() == other.vals@.len(),
                forall|k: int| 0 <= k < i ==> self.vals@[k] == other.vals@[k],
            decreases self.vals@.len() - i,
        {
            if self.vals[i] != other.vals[i] {
                return false;
            }
            i = i + 1;
        }
        assert(self.vals@ =~= other.vals@);
        true
    }
}

fn copy_vals(v: &Vec<u32>) -> (r: Vec<u32>)
    ensures
        r@ == v@,
{
    let mut out: Vec<u32> = Vec::new();
    let mut i: usize = 0;
    while i < v.len()
        invariant
            i <= v@.len(),
            out@ == v@.subrange(0, i as int),
        decreases v@.len() - i,
    {
        out.push(v[i]);
        i = i + 1;
        assert(out@ =~= v@.subrange(0, i as int));
    }
    assert(out@ =~= v@);
    out
}

/// Checks one statement: its input pattern, its own effect, its output pattern.
pub fn check_statement(stack: &mut TypeStack, s: &Statement) -> (r: Result<(), TypeCheckError>)
    ensures
        custom_ok(r, final(stack)@, check_stmt(old(stack)@, *s)),
    decreases s, 3nat,
{
    s.in_pattern().type_check(stack)?;
    s.custom_type_check(stack)?;
    s.out_pattern().push(stack);
    Ok(())
}

/// Checks the statements in order, from the given state.
pub fn check_rc(stack: &mut TypeStack, statements: &Vec<Statement>) -> (r: Result<
    (),
    TypeCheckError,
>)
    ensures
        custom_ok(r, final(stack)@, check_seq(old(stack)@, statements@)),
    decreases statements, 0nat,
{
    let mut i: usize = 0;
    assert(statements@.subrange(0, 0) =~= seq![]);
    while i < statements.len()
        invariant
            i <= statements@.len(),
            check_seq(old(stack)@, statements@.subrange(0, i as int)) == Some(stack@),
        decreases statements@.len() - i,
    {
        proof {
            lemma_check_seq_step(old(stack)@, statements@, i as int);
        }
        match check_statement(stack, &statements[i]) {
            Ok(()) => {},
            Err(e) => {
                proof {
                    lemma_check_seq_prefix_rejected(old(stack)@, statements@, i + 1);
                }
                return Err(e);
            },
        }
        i = i + 1;
    }
    assert(statements@.subrange(0, i as int) =~= statements@);
    Ok(())
}

/// Whether the program is accepted in batch mode: checked from an empty state, it
/// must leave the stack empty.
pub open spec fn program_accepted(statements: Seq<Statement>) -> bool {
    match check_seq(TypeState { vals: seq![], vars: seq![], funs: seq![] }, statements) {
        Some(t) => t.vals.len() == 0,
        None => false,
    }
}

/// Checks a whole program in batch mode.
pub fn check(statements: &Vec<Statement>) -> (r: Result<(), TypeCheckError>)
    ensures
        r is Ok <==> program_accepted(statements@),
        ({
            let after = check_seq(TypeState { vals: seq![], vars: seq![], funs: seq![] }, statements@);
            (after is Some && 0 < after->0.vals.len() <= i64::MAX) ==> (r matches Err(e) && e.0@
                == crate::runtime::int_text(after->0.vals.len() as int)
                + " excess values on the stack!"@)
        }),
{
    let mut stack = TypeStack::new();
    assert(stack@.vals =~= seq![]);
    assert(stack@.vars =~= seq![]);
    assert(stack@.funs =~= seq![]);
    assert(stack@ == TypeState { vals: seq![], vars: seq![], funs: seq![] });
    check_rc(&mut stack, statements)?;
    let n = stack.vals.len();
    if n == 0 {
        Ok(())
    } else {
        let count = if (n as u64) <= 0x7fff_ffff_ffff_ffffu64 {
            crate::runtime::int_to_string(n as i64)
        } else {
            "many".to_string()
        };
        let msg = count.concat(" excess values on the stack!");
        proof {
            let after = check_seq(TypeState { vals: seq![], vars: seq![], funs: seq![] }, statements@);
            assert(after == Some(stack@));
            assert(n == after->0.vals.len());
            if n <= i64::MAX {
                assert(count@ == crate::runtime::int_text(n as int));
            }
            assert(msg@ == count@ + " excess values on the stack!"@);
        }
        Err(TypeCheckError(msg))
    }
}

/// Checks one more piece of a program against the state left by the pieces before it;
/// values may be left on the stack.
pub fn check_interactive(stack: &mut TypeStack, statements: &Vec<Statement>) -> (r: Result<
    (),
    TypeCheckError,
>)
    ensures
        custom_ok(r, final(stack)@, check_seq(old(stack)@, statements@)),
        r is Err ==> final(stack)@ == old(stack)@,
{
    let mut next = stack.duplicate();
    check_rc(&mut next, statements)?;
    *stack = next;
    Ok(())
}

} // verus!
