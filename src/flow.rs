use vstd::prelude::*;

use crate::statement::Statement;

verus! {

/// The body of an `if`.
#[derive(Debug)]
pub struct IfContainer {
    pub body: Vec<Statement>,
}

/// The two arms of an `if`-`else`.
#[derive(Debug)]
pub struct IfElseContainer {
    pub if_body: Vec<Statement>,
    pub else_body: Vec<Statement>,
}

} // verus!
