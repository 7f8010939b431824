//! Carrying out an instruction, with a crane that moves one crate at a time
//! or with one that moves a whole block at once.

use vstd::prelude::*;
use crate::error::CraneError;
use crate::instruction::MoveInstruction;
use crate::stacks::{stacks_outcome, CrateStacks};

verus! {

/// The stacks after the top `amount` crates have left stack `from` and
/// `placed` has been set on top of stack `to`. Where both are the same
/// stack, `placed` is set on what was left of it.
pub open spec fn relocated(
    stacks: Seq<Seq<char>>,
    from: int,
    to: int,
    amount: int,
    placed: Seq<char>,
) -> Seq<Seq<char>> {
    let lifted = stacks.update(from, stacks[from].skip(amount));
    lifted.update(to, placed + lifted[to])
}

/// The two cranes that can carry out an instruction.
#[derive(Clone, Copy, Debug, PartialEq, Eq, Structural)]
pub enum Crane {
    /// Carries one crate at a time, so a block arrives upside down.
    OneByOne,
    /// Carries a whole block at once, so it arrives as it was.
    Bulk,
}

impl MoveInstruction {
    /// Why the instruction cannot be carried out on `stacks`, if it cannot.
    /// The source stack is looked at first, then the number of crates on it,
    /// then the destination.
    pub open spec fn refusal(&self, stacks: Seq<Seq<char>>) -> Option<CraneError> {
        if self.from_stack >= stacks.len() {
            Some(CraneError::SourceOutOfRange)
        } else if self.moved_amount > stacks[self.from_stack as int].len() {
            Some(CraneError::NotEnoughCrates)
        } else if self.to_stack >= stacks.len() {
            Some(CraneError::DestinationOutOfRange)
        } else {
            None
        }
    }

    /// The crates that the instruction lifts, from the top one down.
    pub open spec fn lifted(&self, stacks: Seq<Seq<char>>) -> Seq<char> {
        stacks[self.from_stack as int].take(self.moved_amount as int)
    }

    /// The stacks after a crane that carries one crate at a time has done
    /// the instruction: the crates arrive in reverse order.
    pub open spec fn one_by_one(&self, stacks: Seq<Seq<char>>) -> Result<
        Seq<Seq<char>>,
        CraneError,
    > {
        match self.refusal(stacks) {
            Some(e) => Err(e),
            None => Ok(
                relocated(
                    stacks,
                    self.from_stack as int,
                    self.to_stack as int,
                    self.moved_amount as int,
                    self.lifted(stacks).reverse(),
                ),
            ),
        }
    }

    /// The stacks after a crane that carries a whole block has done the
    /// instruction: the crates arrive in the order they had.
    pub open spec fn in_bulk(&self, stacks: Seq<Seq<char>>) -> Result<
        Seq<Seq<char>>,
        CraneError,
    > {
        match self.refusal(stacks) {
            Some(e) => Err(e),
            None => Ok(
                relocated(
                    stacks,
                    self.from_stack as int,
                    self.to_stack as int,
                    self.moved_amount as int,
                    self.lifted(stacks),
                ),
            ),
        }
    }

    /// The stacks after the given crane has done the instruction.
    pub open spec fn outcome(&self, stacks: Seq<Seq<char>>, crane: Crane) -> Result<
        Seq<Seq<char>>,
        CraneError,
    > {
        match crane {
            Crane::OneByOne => self.one_by_one(stacks),
            Crane::Bulk => self.in_bulk(stacks),
        }
    }

    /// Takes the block off the source stack, or says why the instruction
    /// cannot be done and leaves the stacks alone.
    fn lift(&self, crate_stacks: &mut CrateStacks) -> (r: Result<Vec<char>, CraneError>)
        ensures
            match r {
                Ok(block) => {
                    &&& self.refusal(old(crate_stacks)@) is None
                    &&& block@ == self.lifted(old(crate_stacks)@)
                    &&& final(crate_stacks)@ == old(crate_stacks)@.update(
                        self.from_stack as int,
                        old(crate_stacks)@[self.from_stack as int].skip(self.moved_amount as int),
                    )
                },
                Err(e) => {
                    &&& self.refusal(old(crate_stacks)@) == Some(e)
                    &&& *final(crate_stacks) == *old(crate_stacks)
                },
            },
    {
        let count: usize = crate_stacks.stacks.len();
        if self.from_stack >= count {
            return Err(CraneError::SourceOutOfRange);
        }
        if self.moved_amount > crate_stacks.stacks[self.from_stack].contents.len() {
            return Err(CraneError::NotEnoughCrates);
        }
        if self.to_stack >= count {
            return Err(CraneError::DestinationOutOfRange);
        }
        let ghost before = crate_stacks@;
        let mut left = crate_stacks.stacks[self.from_stack].contents.split_off(self.moved_amount);
        let mut block: Vec<char> = Vec::new();
        block.append(&mut crate_stacks.stacks[self.from_stack].contents);
        crate_stacks.stacks[self.from_stack].contents.append(&mut left);
        assert(block@ =~= self.lifted(before));
        assert(crate_stacks@ =~= before.update(
            self.from_stack as int,
            before[self.from_stack as int].skip(self.moved_amount as int),
        ));
        Ok(block)
    }

    /// Sets the block on top of the destination stack.
    fn set_down(&self, crate_stacks: &mut CrateStacks, block: Vec<char>)
        requires
            self.to_stack < old(crate_stacks)@.len(),
        ensures
            final(crate_stacks)@ == old(crate_stacks)@.update(
                self.to_stack as int,
                block@ + old(crate_stacks)@[self.to_stack as int],
            ),
    {
        let ghost before = crate_stacks@;
        let mut pushed_values = block;
        pushed_values.append(&mut crate_stacks.stacks[self.to_stack].contents);
        crate_stacks.stacks[self.to_stack].contents = pushed_values;
        assert(crate_stacks@ =~= before.update(
            self.to_stack as int,
            block@ + before[self.to_stack as int],
        ));
    }

    /// Moves the crates one at a time: the block arrives upside down.
    pub fn execute_move(&self, crate_stacks: CrateStacks) -> (r: Result<CrateStacks, CraneError>)
        ensures
            stacks_outcome(r) == self.one_by_one(crate_stacks@),
    {
        let mut crate_stacks = crate_stacks;
        let mut block = match self.lift(&mut crate_stacks) {
            Ok(block) => block,
            Err(e) => {
                return Err(e);
            },
        };
        let ghost lifted = block@;
        let mut turned: Vec<char> = Vec::new();
        while block.len() > 0
            invariant
                block@.len() <= lifted.len(),
                block@ == lifted.take(block@.len() as int),
                turned@ == lifted.skip(block@.len() as int).reverse(),
            decreases block@.len(),
        {
            let ghost rest = block@.len() as int;
            let c = block.pop().unwrap();
            turned.push(c);
            assert(block@ =~= lifted.take(rest - 1));
            assert(turned@ =~= lifted.skip(rest - 1).reverse());
        }
        assert(turned@ =~= lifted.reverse());
        self.set_down(&mut crate_stacks, turned);
        Ok(crate_stacks)
    }

    /// Moves the crates as one block: they keep their order.
    pub fn move_bulk(&self, crate_stacks: CrateStacks) -> (r: Result<CrateStacks, CraneError>)
        ensures
            stacks_outcome(r) == self.in_bulk(crate_stacks@),
    {
        let mut crate_stacks = crate_stacks;
        let block = match self.lift(&mut crate_stacks) {
            Ok(block) => block,
            Err(e) => {
                return Err(e);
            },
        };
        self.set_down(&mut crate_stacks, block);
        Ok(crate_stacks)
    }

    /// Moves the crates with the given crane.
    pub fn carry_out(&self, crate_stacks: CrateStacks, crane: Crane) -> (r: Result<
        CrateStacks,
        CraneError,
    >)
        ensures
            stacks_outcome(r) == self.outcome(crate_stacks@, crane),
    {
        match crane {
            Crane::OneByOne => self.execute_move(crate_stacks),
            Crane::Bulk => self.move_bulk(crate_stacks),
        }
    }
}

/// The stacks after the crane has done the instructions in their order, or
/// the error of the first instruction that it could not do.
pub open spec fn rearranged(stacks: Seq<Seq<char>>, moves: Seq<MoveInstruction>, crane: Crane)
    -> Result<Seq<Seq<char>>, CraneError>
    decreases moves.len(),
{
    if moves.len() == 0 {
        Ok(stacks)
    } else {
        match rearranged(stacks, moves.drop_last(), crane) {
            Err(e) => Err(e),
            Ok(so_far) => moves.last().outcome(so_far, crane),
        }
    }
}

/// Where the crane cannot do the first `n` instructions, it cannot do them
/// all, and the error is the same.
pub proof fn lemma_rearranging_fails_on(
    stacks: Seq<Seq<char>>,
    moves: Seq<MoveInstruction>,
    crane: Crane,
    n: int,
)
    requires
        0 <= n <= moves.len(),
    ensures
        rearranged(stacks, moves.take(n), crane) is Err ==> rearranged(stacks, moves, crane)
            == rearranged(stacks, moves.take(n), crane),
    decreases moves.len() - n,
{
    if n == moves.len() {
        assert(moves.take(n) =~= moves);
    } else {
        assert(moves.take(n + 1).drop_last() =~= moves.take(n));
        lemma_rearranging_fails_on(stacks, moves, crane, n + 1);
    }
}

/// Lets the crane do the instructions in their order. The first one that it
/// cannot do ends the work.
pub fn rearrange(crate_stacks: CrateStacks, move_instructions: &[MoveInstruction], crane: Crane)
    -> (r: Result<CrateStacks, CraneError>)
    ensures
        stacks_outcome(r) == rearranged(crate_stacks@, move_instructions@, crane),
{
    let ghost start = crate_stacks@;
    let ghost moves = move_instructions@;
    let mut current = crate_stacks;
    let count: usize = move_instructions.len();
    let mut i: usize = 0;
    assert(moves.take(0) =~= Seq::<MoveInstruction>::empty());
    while i < count
        invariant
            start == crate_stacks@,
            moves == move_instructions@,
            count == moves.len(),
            i <= count,
            rearranged(start, moves.take(i as int), crane) matches Ok(so_far) && so_far
                == current@,
        decreases count - i,
    {
        proof {
            assert(moves.take(i + 1).drop_last() =~= moves.take(i as int));
            lemma_rearranging_fails_on(start, moves, crane, i + 1);
        }
        current = match move_instructions[i].carry_out(current, crane) {
            Ok(next) => next,
            Err(e) => {
                return Err(e);
            },
        };
        i += 1;
    }
    assert(moves.take(count as int) =~= moves);
    Ok(current)
}

} // verus!
