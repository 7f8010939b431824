//! Crane instructions: reading one from a line of text.

use vstd::prelude::*;
use crate::error::CraneError;
use crate::text::{chars_of, numeral_value, parse_number, split_at_first, split_once};

verus! {

/// One instruction for the crane: move `moved_amount` crates from the top of
/// stack `from_stack` to the top of stack `to_stack`. Stacks are counted
/// from zero here, though a line of text counts them from one.
#[derive(Clone, Copy, Debug, PartialEq, Eq, Structural)]
pub struct MoveInstruction {
    pub moved_amount: usize,
    pub from_stack: usize,
    pub to_stack: usize,
}

/// What a line of the form `move <N> from <S> to <D>` says.
///
/// Whatever stands before the first `move ` is passed over. What follows it
/// is cut at the first ` from `, and what follows that at the first ` to `.
/// The three pieces must be unsigned decimal numbers that fit a `usize`, and
/// the two stack numbers must not be zero. The first fault in this order
/// decides the error: the three phrases, then the amount, the source and the
/// destination.
pub open spec fn parse_instruction(line: Seq<char>) -> Result<MoveInstruction, CraneError> {
    match split_once(line, "move "@) {
        None => Err(CraneError::MissingMove),
        Some((_, after_move)) => match split_once(after_move, " from "@) {
            None => Err(CraneError::MissingFrom),
            Some((amount, after_from)) => match split_once(after_from, " to "@) {
                None => Err(CraneError::MissingTo),
                Some((source, destination)) => read_numbers(amount, source, destination),
            },
        },
    }
}

/// The instruction that the three numerals of a line spell.
pub open spec fn read_numbers(amount: Seq<char>, source: Seq<char>, destination: Seq<char>)
    -> Result<MoveInstruction, CraneError> {
    match numeral_value(amount) {
        None => Err(CraneError::InvalidAmount),
        Some(moved_amount) => match numeral_value(source) {
            None => Err(CraneError::InvalidSource),
            Some(from) => if from == 0 {
                Err(CraneError::ZeroSource)
            } else {
                match numeral_value(destination) {
                    None => Err(CraneError::InvalidDestination),
                    Some(to) => if to == 0 {
                        Err(CraneError::ZeroDestination)
                    } else {
                        Ok(
                            MoveInstruction {
                                moved_amount,
                                from_stack: (from - 1) as usize,
                                to_stack: (to - 1) as usize,
                            },
                        )
                    },
                }
            },
        },
    }
}

impl MoveInstruction {
    /// Reads an instruction from a line of text.
    pub fn new(x: String) -> (r: Result<MoveInstruction, CraneError>)
        ensures
            r == parse_instruction(x@),
    {
        let line = chars_of(x.as_str());
        let move_phrase = chars_of("move ");
        let from_phrase = chars_of(" from ");
        let to_phrase = chars_of(" to ");
        let Some((_, after_move)) = split_at_first(line.as_slice(), move_phrase.as_slice()) else {
            return Err(CraneError::MissingMove);
        };
        let Some((amount, after_from)) = split_at_first(after_move, from_phrase.as_slice()) else {
            return Err(CraneError::MissingFrom);
        };
        let Some((source, destination)) = split_at_first(after_from, to_phrase.as_slice()) else {
            return Err(CraneError::MissingTo);
        };
        let Some(moved_amount) = parse_number(amount) else {
            return Err(CraneError::InvalidAmount);
        };
        let Some(from) = parse_number(source) else {
            return Err(CraneError::InvalidSource);
        };
        if from == 0 {
            return Err(CraneError::ZeroSource);
        }
        let Some(to) = parse_number(destination) else {
            return Err(CraneError::InvalidDestination);
        };
        if to == 0 {
            return Err(CraneError::ZeroDestination);
        }
        Ok(MoveInstruction { moved_amount, from_stack: from - 1, to_stack: to - 1 })
    }
}

} // verus!
