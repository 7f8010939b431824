//! Stacks of crates and their mathematical models.

use vstd::prelude::*;
use crate::error::CraneError;

verus! {

/// One stack of crates. The front of `contents` is the top of the stack.
#[derive(Clone, Debug, PartialEq, Eq)]
pub struct Stack {
    pub contents: Vec<char>,
}

impl View for Stack {
    type V = Seq<char>;

    /// The crates from the top of the stack down.
    open spec fn view(&self) -> Seq<char> {
        self.contents@
    }
}

/// The stacks of a drawing, from left to right.
#[derive(Clone, Debug, PartialEq, Eq)]
pub struct CrateStacks {
    pub stacks: Vec<Stack>,
}

impl View for CrateStacks {
    type V = Seq<Seq<char>>;

    /// The stacks from left to right, each from its top down.
    open spec fn view(&self) -> Seq<Seq<char>> {
        Seq::new(self.stacks@.len(), |i: int| self.stacks@[i]@)
    }
}

/// The model of a result that holds stacks on success.
pub open spec fn stacks_outcome(r: Result<CrateStacks, CraneError>) -> Result<
    Seq<Seq<char>>,
    CraneError,
> {
    match r {
        Ok(stacks) => Ok(stacks@),
        Err(e) => Err(e),
    }
}

} // verus!
