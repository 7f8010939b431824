//! Reporting the crate on top of each stack.

use vstd::prelude::*;
use crate::error::CraneError;
use crate::stacks::CrateStacks;

verus! {

/// `String::push` of the standard library: the string afterwards is the
/// string before with `ch` added at its end. Taken on trust.
pub assume_specification[ String::push ](s: &mut String, ch: char)
    ensures
        final(s)@ == old(s)@.push(ch),
;

/// The top crates of the stacks, from left to right. There is no such row
/// where a stack is empty.
pub open spec fn top_row(stacks: Seq<Seq<char>>) -> Result<Seq<char>, CraneError> {
    if exists|i: int| 0 <= i < stacks.len() && (#[trigger] stacks[i]).len() == 0 {
        Err(CraneError::EmptyStack)
    } else {
        Ok(Seq::new(stacks.len(), |i: int| stacks[i][0]))
    }
}

/// The model of a result that holds text on success.
pub open spec fn text_outcome(r: Result<String, CraneError>) -> Result<Seq<char>, CraneError> {
    match r {
        Ok(text) => Ok(text@),
        Err(e) => Err(e),
    }
}

/// Writes the top crate of every stack into one line, from left to right.
pub fn top_crates(crate_stacks: &CrateStacks) -> (r: Result<String, CraneError>)
    ensures
        text_outcome(r) == top_row(crate_stacks@),
{
    let mut line = String::new();
    let count: usize = crate_stacks.stacks.len();
    let mut i: usize = 0;
    while i < count
        invariant
            count == crate_stacks@.len(),
            i <= count,
            forall|k: int| 0 <= k < i ==> (#[trigger] crate_stacks@[k]).len() > 0,
            line@.len() == i,
            forall|k: int| 0 <= k < i ==> line@[k] == crate_stacks@[k][0],
        decreases count - i,
    {
        let stack = &crate_stacks.stacks[i];
        assert(stack@ == crate_stacks@[i as int]);
        if stack.contents.len() == 0 {
            return Err(CraneError::EmptyStack);
        }
        line.push(stack.contents[0]);
        i += 1;
    }
    assert(line@ =~= top_row(crate_stacks@)->Ok_0);
    Ok(line)
}

} // verus!
