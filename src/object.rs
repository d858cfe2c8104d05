use vstd::prelude::*;

use crate::statement::{check_seq, fun_body_ok, fun_entry, Statement};
use crate::type_check::{check_rc, StackPattern, TypeCheckError, TypeStack};

verus! {

/// An object value: its type name and the 27-bit hash of its type, kept in the bits
/// that `OBJECT_SIG_MASK` selects.
#[derive(Debug)]
pub struct AliceObj {
    pub name: String,
    pub type_hash: u32,
}

/// A function: its argument pattern, its return type (0 for none) and its body.
#[derive(Debug)]
pub struct AliceFun {
    pub args: StackPattern,
    pub return_type: u32,
    pub body: Vec<Statement>,
}

impl AliceFun {
    pub fn new(args: StackPattern, return_type: u32, body: Vec<Statement>) -> (r: Self)
        ensures
            r.args@ == args@,
            r.return_type == return_type,
            r.body@ == body@,
    {
        AliceFun { args, return_type, body }
    }

    /// Checks the body alone, from a stack holding the arguments: it must leave nothing
    /// when the return type is 0, else exactly one value of the return type.
    pub fn type_check(&self) -> (r: Result<(), TypeCheckError>)
        ensures
            r is Ok <==> fun_body_ok(self.args@, self.return_type, self.body@),
            check_seq(fun_entry(self.args@), self.body@) is None ==> (r matches Err(e) && exists|
                m: Seq<char>,
            | e.0@ == "Function signature promise not correct: "@ + m),
        decreases self, 2nat,
    {
        let mut stack = TypeStack::new();
        self.args.push(&mut stack);
        proof {
            assert(stack@.vals =~= self.args@);
            assert(stack@.vars =~= seq![]);
            assert(stack@.funs =~= seq![]);
        }
        match check_rc(&mut stack, &self.body) {
            Ok(()) => {},
            Err(e) => {
                let r = e.prefix("Function signature promise not correct: ".to_string());
                proof {
                    assert(r.0@ == "Function signature promise not correct: "@ + e.0@);
                }
                return Err(r);
            },
        }
        if self.return_type == 0 && stack.vals.len() == 0 {
            return Ok(());
        }
        if stack.vals.len() != 1 {
            Err(TypeCheckError("functions can only have one return value!".to_string()))
        } else if stack.vals[0] != self.return_type {
            Err(TypeCheckError("function has wrong return type!".to_string()))
        } else {
            Ok(())
        }
    }
}

} // verus!
