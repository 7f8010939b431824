//! The whole task: reading the input, rearranging the stacks, and reporting
//! the crate on top of each.

use vstd::prelude::*;
use crate::crane::{rearrange, rearranged, Crane};
use crate::diagram::{diagram_stacks, get_crate_stacks};
use crate::error::CraneError;
use crate::instruction::{parse_instruction, MoveInstruction};
use crate::report::{text_outcome, top_crates, top_row};
use crate::stacks::CrateStacks;
use crate::text::lines_text;

verus! {

/// The first `n` lines are not empty, and line `n` is an empty line or the
/// end of the input.
pub open spec fn is_drawing_end(lines: Seq<Seq<char>>, n: int) -> bool {
    &&& 0 <= n <= lines.len()
    &&& forall|k: int| 0 <= k < n ==> (#[trigger] lines[k]).len() > 0
    &&& n < lines.len() ==> lines[n].len() == 0
}

/// The number of lines before the first empty line.
pub open spec fn drawing_end(lines: Seq<Seq<char>>) -> int {
    choose|n: int| is_drawing_end(lines, n)
}

/// The lines that show crates: those before the first empty line, without
/// the last of them, which numbers the stacks and is not read.
pub open spec fn crate_lines(lines: Seq<Seq<char>>) -> Seq<Seq<char>> {
    let end = drawing_end(lines);
    if end > 0 {
        lines.take(end - 1)
    } else {
        Seq::empty()
    }
}

/// The lines that hold instructions: all that follow the first empty line.
pub open spec fn instruction_lines(lines: Seq<Seq<char>>) -> Seq<Seq<char>> {
    let end = drawing_end(lines);
    if end < lines.len() {
        lines.skip(end + 1)
    } else {
        Seq::empty()
    }
}

/// The instructions that the lines spell, in their order, or the error of
/// the first line that spells none.
pub open spec fn parse_instructions(lines: Seq<Seq<char>>) -> Result<
    Seq<MoveInstruction>,
    CraneError,
>
    decreases lines.len(),
{
    if lines.len() == 0 {
        Ok(Seq::empty())
    } else {
        match parse_instructions(lines.drop_last()) {
            Err(e) => Err(e),
            Ok(moves) => match parse_instruction(lines.last()) {
                Err(e) => Err(e),
                Ok(m) => Ok(moves.push(m)),
            },
        }
    }
}

/// The stacks and the instructions that the input holds. A fault in the
/// drawing is reported before a fault in an instruction.
pub open spec fn parsed_input(lines: Seq<Seq<char>>) -> Result<
    (Seq<Seq<char>>, Seq<MoveInstruction>),
    CraneError,
> {
    match diagram_stacks(crate_lines(lines)) {
        Err(e) => Err(e),
        Ok(stacks) => match parse_instructions(instruction_lines(lines)) {
            Err(e) => Err(e),
            Ok(moves) => Ok((stacks, moves)),
        },
    }
}

/// Only one line can be the end of the drawing.
pub proof fn lemma_drawing_end(lines: Seq<Seq<char>>, n: int)
    requires
        is_drawing_end(lines, n),
    ensures
        drawing_end(lines) == n,
{
    let chosen = drawing_end(lines);
    assert(is_drawing_end(lines, chosen));
    if chosen < n {
        assert(lines[chosen].len() > 0);
    } else if n < chosen {
        assert(lines[n].len() > 0);
    }
}

/// Where the instructions cannot be read up to some line, they cannot be
/// read at all, and the error is the same.
pub proof fn lemma_parse_fails_on(lines: Seq<Seq<char>>, n: int)
    requires
        0 <= n <= lines.len(),
    ensures
        parse_instructions(lines.take(n)) is Err ==> parse_instructions(lines)
            == parse_instructions(lines.take(n)),
    decreases lines.len() - n,
{
    if n == lines.len() {
        assert(lines.take(n) =~= lines);
    } else {
        assert(lines.take(n + 1).drop_last() =~= lines.take(n));
        lemma_parse_fails_on(lines, n + 1);
    }
}

/// The model of what reading the input gave.
pub open spec fn input_outcome(r: Result<(CrateStacks, Vec<MoveInstruction>), CraneError>)
    -> Result<(Seq<Seq<char>>, Seq<MoveInstruction>), CraneError> {
    match r {
        Ok((stacks, moves)) => Ok((stacks@, moves@)),
        Err(e) => Err(e),
    }
}

/// Reads the stacks and the instructions from the lines of the input.
pub fn parse_input(lines: Vec<String>) -> (r: Result<
    (CrateStacks, Vec<MoveInstruction>),
    CraneError,
>)
    ensures
        input_outcome(r) == parsed_input(lines_text(lines@)),
{
    let ghost text = lines_text(lines@);
    let ghost mut end: int = 0;
    let mut in_drawing = true;
    let mut provided_crate_lines: Vec<String> = Vec::new();
    let mut instruction_texts: Vec<String> = Vec::new();
    for current_line in it: lines
        invariant
            text == lines_text(it.seq()),
            0 <= end <= it.index() <= text.len(),
            in_drawing ==> end == it.index() && instruction_texts@.len() == 0,
            !in_drawing ==> end < it.index() && text[end].len() == 0,
            forall|k: int| 0 <= k < end ==> (#[trigger] text[k]).len() > 0,
            lines_text(provided_crate_lines@) == text.take(end),
            !in_drawing ==> lines_text(instruction_texts@) == text.subrange(
                end + 1,
                it.index() as int,
            ),
    {
        let ghost at = it.index() as int;
        assert(text[at] == current_line@);
        if in_drawing {
            if current_line.as_str().is_empty() {
                in_drawing = false;
                assert(lines_text(instruction_texts@) =~= text.subrange(end + 1, at + 1));
            } else {
                let ghost kept = provided_crate_lines@;
                provided_crate_lines.push(current_line);
                proof {
                    assert(lines_text(kept).len() == at);
                    assert forall|k: int| 0 <= k < at implies provided_crate_lines@[k]@
                        == text[k] by {
                        assert(lines_text(kept)[k] == text.take(at)[k]);
                    }
                    end = end + 1;
                }
                assert(lines_text(provided_crate_lines@) =~= text.take(end));
            }
        } else {
            let ghost kept = instruction_texts@;
            instruction_texts.push(current_line);
            assert forall|k: int| 0 <= k < at - end - 1 implies instruction_texts@[k]@ == text[end
                + 1 + k] by {
                assert(lines_text(kept)[k] == text.subrange(end + 1, at)[k]);
            }
            assert(lines_text(instruction_texts@) =~= text.subrange(end + 1, at + 1));
        }
    }
    proof {
        lemma_drawing_end(text, end);
        if in_drawing {
            assert(lines_text(instruction_texts@) =~= instruction_lines(text));
        } else {
            assert(text.subrange(end + 1, text.len() as int) =~= text.skip(end + 1));
        }
    }
    provided_crate_lines.pop();
    assert(lines_text(provided_crate_lines@) =~= crate_lines(text));
    let stacks = match get_crate_stacks(provided_crate_lines) {
        Ok(stacks) => stacks,
        Err(e) => {
            return Err(e);
        },
    };
    let ghost sources = lines_text(instruction_texts@);
    let mut moves: Vec<MoveInstruction> = Vec::new();
    assert(sources.take(0) =~= Seq::<Seq<char>>::empty());
    for instruction in it: instruction_texts
        invariant
            sources == lines_text(it.seq()),
            sources == instruction_lines(text),
            text == lines_text(lines@),
            diagram_stacks(crate_lines(text)) matches Ok(drawn) && drawn == stacks@,
            parse_instructions(sources.take(it.index() as int)) matches Ok(read) && read
                == moves@,
    {
        let ghost at = it.index() as int;
        proof {
            assert(sources.take(at + 1).drop_last() =~= sources.take(at));
            lemma_parse_fails_on(sources, at + 1);
        }
        match MoveInstruction::new(instruction) {
            Ok(m) => {
                moves.push(m);
            },
            Err(e) => {
                return Err(e);
            },
        }
    }
    assert(sources.take(sources.len() as int) =~= sources);
    Ok((stacks, moves))
}

/// The line of top crates that the input leads to with the given crane.
pub open spec fn answer(lines: Seq<Seq<char>>, crane: Crane) -> Result<Seq<char>, CraneError> {
    match parsed_input(lines) {
        Err(e) => Err(e),
        Ok((stacks, moves)) => match rearranged(stacks, moves, crane) {
            Err(e) => Err(e),
            Ok(end) => top_row(end),
        },
    }
}

/// Reads the input, lets the crane do every instruction, and reports the
/// top crate of every stack.
fn tops_after(lines: Vec<String>, crane: Crane) -> (r: Result<String, CraneError>)
    ensures
        text_outcome(r) == answer(lines_text(lines@), crane),
{
    let (crate_stacks, move_instructions) = match parse_input(lines) {
        Ok(parsed) => parsed,
        Err(e) => {
            return Err(e);
        },
    };
    match rearrange(crate_stacks, move_instructions.as_slice(), crane) {
        Ok(end) => top_crates(&end),
        Err(e) => Err(e),
    }
}

/// The top crates after a crane that moves one crate at a time has done
/// every instruction of the input.
pub fn puzzle_1(lines: Vec<String>) -> (r: Result<String, CraneError>)
    ensures
        text_outcome(r) == answer(lines_text(lines@), Crane::OneByOne),
{
    tops_after(lines, Crane::OneByOne)
}

/// The top crates after a crane that moves whole blocks has done every
/// instruction of the input.
pub fn puzzle_2(lines: Vec<String>) -> (r: Result<String, CraneError>)
    ensures
        text_outcome(r) == answer(lines_text(lines@), Crane::Bulk),
{
    tops_after(lines, Crane::Bulk)
}

} // verus!
