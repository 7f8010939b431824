//! What holds of the library as a whole, proved from the definitions that
//! its contracts are written in.

use vstd::prelude::*;
use crate::crane::{lemma_rearranging_fails_on, rearranged, Crane};
use crate::diagram::{column, diagram_stacks, drawing_rows, field_count, present, well_cut};
use crate::error::CraneError;
use crate::instruction::{parse_instruction, MoveInstruction};
use crate::puzzle::{answer, crate_lines, instruction_lines, parse_instructions, parsed_input};
use crate::report::top_row;

verus! {

/// A drawing in which every line can be cut into fields and has as many
/// fields as every other.
pub open spec fn is_even_drawing(lines: Seq<Seq<char>>) -> bool {
    &&& lines.len() > 0
    &&& forall|i: int| 0 <= i < lines.len() ==> well_cut(#[trigger] lines[i])
    &&& forall|i: int, k: int|
        0 <= i < lines.len() && 0 <= k < lines.len() ==> field_count(#[trigger] lines[i])
            == field_count(#[trigger] lines[k])
}

/// Line `w` is as long as any line of the drawing.
pub open spec fn is_widest_line(lines: Seq<Seq<char>>, w: int) -> bool {
    &&& 0 <= w < lines.len()
    &&& forall|i: int| 0 <= i < lines.len() ==> (#[trigger] lines[i]).len() <= lines[w].len()
}

/// An even drawing is read, and it has as many stacks as its widest line
/// has fields.
pub proof fn lemma_stack_count(lines: Seq<Seq<char>>, w: int)
    requires
        is_even_drawing(lines),
        is_widest_line(lines, w),
    ensures
        diagram_stacks(lines) matches Ok(stacks) && stacks.len() == field_count(lines[w]),
{
    assert(field_count(lines[w]) == field_count(lines[0]));
    assert forall|i: int| 0 <= i < lines.len() implies !(field_count(#[trigger] lines[i])
        < field_count(lines[0])) by {
        assert(field_count(lines[i]) == field_count(lines[0]));
    }
}

/// The crate drawn highest in a column, if the column shows any.
pub open spec fn highest(cells: Seq<Option<char>>) -> Option<char>
    decreases cells.len(),
{
    if cells.len() == 0 {
        None
    } else if cells[0] is Some {
        cells[0]
    } else {
        highest(cells.drop_first())
    }
}

/// The crates of a column are its first cell, if it shows one, and then the
/// crates of the cells below.
proof fn lemma_present_from_top(cells: Seq<Option<char>>)
    requires
        cells.len() > 0,
    ensures
        present(cells) == match cells[0] {
            Some(c) => seq![c] + present(cells.drop_first()),
            None => present(cells.drop_first()),
        },
    decreases cells.len(),
{
    let above = cells.drop_last();
    let below = cells.drop_first();
    if cells.len() == 1 {
        assert(above =~= Seq::<Option<char>>::empty());
        assert(below =~= Seq::<Option<char>>::empty());
        assert(present(above) =~= Seq::<char>::empty());
        match cells[0] {
            Some(c) => {
                assert(present(cells) =~= seq![c] + present(below));
            },
            None => {},
        }
    } else {
        lemma_present_from_top(above);
        assert(above.drop_first() =~= below.drop_last());
        assert(above[0] == cells[0]);
        assert(below.last() == cells.last());
        match (cells[0], cells.last()) {
            (Some(c), Some(d)) => {
                assert((seq![c] + present(above.drop_first())).push(d) =~= seq![c] + present(
                    below.drop_last(),
                ).push(d));
            },
            _ => {},
        }
    }
}

/// The top of the stack that a column shows is the crate drawn highest in
/// it, and the stack is empty where the column shows no crate.
pub proof fn lemma_top_is_highest(cells: Seq<Option<char>>)
    ensures
        match highest(cells) {
            Some(c) => present(cells).len() > 0 && present(cells)[0] == c,
            None => present(cells).len() == 0,
        },
    decreases cells.len(),
{
    if cells.len() > 0 {
        lemma_present_from_top(cells);
        lemma_top_is_highest(cells.drop_first());
    }
}

/// Reading a drawing and reporting the tops at once gives, column by
/// column, the crate drawn highest. There is no report exactly where some
/// column of the drawing shows no crate.
pub proof fn lemma_tops_of_drawing(lines: Seq<Seq<char>>)
    requires
        diagram_stacks(lines) is Ok,
    ensures
        match top_row(diagram_stacks(lines)->Ok_0) {
            Ok(row) => {
                &&& row.len() == field_count(lines[0])
                &&& forall|j: int|
                    0 <= j < row.len() ==> highest(column(drawing_rows(lines), j)) == Some(
                        #[trigger] row[j],
                    )
            },
            Err(e) => {
                &&& e == CraneError::EmptyStack
                &&& exists|j: int|
                    0 <= j < field_count(lines[0]) && highest(
                        #[trigger] column(drawing_rows(lines), j),
                    ) is None
            },
        },
{
    let stacks = diagram_stacks(lines)->Ok_0;
    let rows = drawing_rows(lines);
    assert forall|j: int| 0 <= j < stacks.len() implies match highest(column(rows, j)) {
        Some(c) => (#[trigger] stacks[j]).len() > 0 && stacks[j][0] == c,
        None => stacks[j].len() == 0,
    } by {
        lemma_top_is_highest(column(rows, j));
    }
    match top_row(stacks) {
        Ok(row) => {
            assert forall|j: int| 0 <= j < row.len() implies highest(column(rows, j)) == Some(
                #[trigger] row[j],
            ) by {
                assert(stacks[j].len() > 0);
            }
        },
        Err(e) => {
            let j = choose|j: int| 0 <= j < stacks.len() && (#[trigger] stacks[j]).len() == 0;
            assert(highest(column(rows, j)) is None);
        },
    }
}

/// A move of crates one by one, where it can be done: the two stacks hold
/// together as many crates as before, the block arrives on the destination
/// in reverse order, on top of what was there, and no other stack changes.
pub proof fn lemma_one_by_one_reverses(m: MoveInstruction, stacks: Seq<Seq<char>>)
    requires
        m.refusal(stacks) is None,
    ensures
        m.one_by_one(stacks) matches Ok(after) && {
            let from = m.from_stack as int;
            let to = m.to_stack as int;
            let k = m.moved_amount as int;
            &&& after.len() == stacks.len()
            &&& from != to ==> after[from].len() + after[to].len() == stacks[from].len()
                + stacks[to].len()
            &&& from == to ==> after[from].len() == stacks[from].len()
            &&& after[to].take(k) == stacks[from].take(k).reverse()
            &&& forall|i: int| 0 <= i < k ==> after[to][i] == stacks[from][k - 1 - i]
            &&& from != to ==> after[from] == stacks[from].skip(k) && after[to].skip(k)
                == stacks[to]
            &&& from == to ==> after[to].skip(k) == stacks[from].skip(k)
            &&& forall|i: int|
                0 <= i < stacks.len() && i != from && i != to ==> after[i] == stacks[i]
        },
{
    let after = m.one_by_one(stacks)->Ok_0;
    let from = m.from_stack as int;
    let to = m.to_stack as int;
    let k = m.moved_amount as int;
    let block = stacks[from].take(k).reverse();
    assert(after[to].take(k) =~= block);
    if from != to {
        assert(after[to].skip(k) =~= stacks[to]);
    } else {
        assert(after[to].skip(k) =~= stacks[from].skip(k));
    }
}

/// A move of a whole block, where it can be done: the two stacks hold
/// together as many crates as before, the block arrives on the destination
/// in the order it had, on top of what was there, and no other stack
/// changes.
pub proof fn lemma_in_bulk_keeps_order(m: MoveInstruction, stacks: Seq<Seq<char>>)
    requires
        m.refusal(stacks) is None,
    ensures
        m.in_bulk(stacks) matches Ok(after) && {
            let from = m.from_stack as int;
            let to = m.to_stack as int;
            let k = m.moved_amount as int;
            &&& after.len() == stacks.len()
            &&& from != to ==> after[from].len() + after[to].len() == stacks[from].len()
                + stacks[to].len()
            &&& from == to ==> after == stacks
            &&& after[to].take(k) == stacks[from].take(k)
            &&& forall|i: int| 0 <= i < k ==> after[to][i] == stacks[from][i]
            &&& from != to ==> after[from] == stacks[from].skip(k) && after[to].skip(k)
                == stacks[to]
            &&& forall|i: int|
                0 <= i < stacks.len() && i != from && i != to ==> after[i] == stacks[i]
        },
{
    let after = m.in_bulk(stacks)->Ok_0;
    let from = m.from_stack as int;
    let to = m.to_stack as int;
    let k = m.moved_amount as int;
    assert(after[to].take(k) =~= stacks[from].take(k));
    if from != to {
        assert(after[to].skip(k) =~= stacks[to]);
    } else {
        assert(after[to] =~= stacks[from]);
        assert(after =~= stacks);
    }
}

/// With no instruction to do, either crane leaves the stacks as they are;
/// and so does an instruction that moves no crate between stacks that
/// exist.
pub proof fn lemma_nothing_moved(stacks: Seq<Seq<char>>, crane: Crane, m: MoveInstruction)
    ensures
        rearranged(stacks, Seq::empty(), crane) == Ok::<Seq<Seq<char>>, CraneError>(stacks),
        m.moved_amount == 0 && m.refusal(stacks) is None ==> m.outcome(stacks, crane) == Ok::<
            Seq<Seq<char>>,
            CraneError,
        >(stacks),
{
    if m.moved_amount == 0 && m.refusal(stacks) is None {
        let from = m.from_stack as int;
        let to = m.to_stack as int;
        assert(stacks[from].skip(0) =~= stacks[from]);
        assert(stacks[from].take(0) =~= Seq::<char>::empty());
        assert(Seq::<char>::empty().reverse() =~= Seq::<char>::empty());
        let lifted = stacks.update(from, stacks[from].skip(0));
        assert(lifted =~= stacks);
        assert(Seq::<char>::empty() + stacks[to] =~= stacks[to]);
        assert(lifted.update(to, Seq::<char>::empty() + lifted[to]) =~= stacks);
    }
}

/// An input without instructions is answered by the top crates of its
/// drawing as it stands, whichever crane is asked.
pub proof fn lemma_answer_without_instructions(lines: Seq<Seq<char>>, crane: Crane)
    requires
        instruction_lines(lines).len() == 0,
    ensures
        answer(lines, crane) == match diagram_stacks(crate_lines(lines)) {
            Ok(stacks) => top_row(stacks),
            Err(e) => Err(e),
        },
{
}

/// Instructions are read all or not at all: where they are read, every line
/// gave its own instruction, in its place, and where one line spells no
/// instruction, nothing is read.
pub proof fn lemma_no_line_skipped(lines: Seq<Seq<char>>)
    ensures
        match parse_instructions(lines) {
            Ok(moves) => {
                &&& moves.len() == lines.len()
                &&& forall|i: int|
                    0 <= i < lines.len() ==> parse_instruction(#[trigger] lines[i]) == Ok::<
                        MoveInstruction,
                        CraneError,
                    >(moves[i])
            },
            Err(e) => exists|i: int|
                0 <= i < lines.len() && parse_instruction(#[trigger] lines[i]) == Err::<
                    MoveInstruction,
                    CraneError,
                >(e),
        },
    decreases lines.len(),
{
    if lines.len() > 0 {
        let before = lines.drop_last();
        lemma_no_line_skipped(before);
        match parse_instructions(before) {
            Ok(moves) => {
                match parse_instruction(lines.last()) {
                    Ok(m) => {
                        assert forall|i: int| 0 <= i < lines.len() implies parse_instruction(
                            #[trigger] lines[i],
                        ) == Ok::<MoveInstruction, CraneError>(moves.push(m)[i]) by {
                            if i < before.len() {
                                assert(before[i] == lines[i]);
                            }
                        }
                    },
                    Err(e) => {
                        assert(lines[lines.len() - 1] == lines.last());
                    },
                }
            },
            Err(e) => {
                let i = choose|i: int|
                    0 <= i < before.len() && parse_instruction(#[trigger] before[i]) == Err::<
                        MoveInstruction,
                        CraneError,
                    >(e);
                assert(lines[i] == before[i]);
            },
        }
    }
}

/// An input with a line after the drawing that spells no instruction is
/// refused as a whole, with either crane.
pub proof fn lemma_malformed_line_refused(lines: Seq<Seq<char>>, i: int, crane: Crane)
    requires
        0 <= i < instruction_lines(lines).len(),
        parse_instruction(instruction_lines(lines)[i]) is Err,
    ensures
        parsed_input(lines) is Err,
        answer(lines, crane) is Err,
{
    lemma_no_line_skipped(instruction_lines(lines));
}

/// A move that asks for more crates than its source stack holds is refused
/// by either crane, and so is every list of instructions in which the crane
/// comes to such a move.
pub proof fn lemma_too_many_crates_refused(
    stacks: Seq<Seq<char>>,
    moves: Seq<MoveInstruction>,
    n: int,
    crane: Crane,
)
    requires
        0 <= n < moves.len(),
        rearranged(stacks, moves.take(n), crane) matches Ok(so_far) && moves[n].from_stack
            < so_far.len() && moves[n].moved_amount > so_far[moves[n].from_stack as int].len(),
    ensures
        moves[n].outcome(rearranged(stacks, moves.take(n), crane)->Ok_0, crane) == Err::<
            Seq<Seq<char>>,
            CraneError,
        >(CraneError::NotEnoughCrates),
        rearranged(stacks, moves, crane) == Err::<Seq<Seq<char>>, CraneError>(
            CraneError::NotEnoughCrates,
        ),
{
    assert(moves.take(n + 1).drop_last() =~= moves.take(n));
    assert(moves.take(n + 1).last() == moves[n]);
    lemma_rearranging_fails_on(stacks, moves, crane, n + 1);
}

} // verus!
