//! The drawing of the stacks: lines of fixed-width fields, one field for each
//! stack, read from the top line down.

use vstd::prelude::*;
use crate::error::CraneError;
use crate::stacks::{stacks_outcome, CrateStacks, Stack};
use crate::text::{chars_of, lines_text};

verus! {

/// A line can be cut into fields of four characters, of which the last may
/// have only three.
pub open spec fn well_cut(line: Seq<char>) -> bool {
    line.len() % 4 == 0 || line.len() % 4 == 3
}

/// The number of fields in a line.
pub open spec fn field_count(line: Seq<char>) -> nat {
    ((line.len() + 1) / 4) as nat
}

/// What field `j` of a line shows: the crate between `[` and `]`, or nothing
/// where the field does not have both brackets in their places.
pub open spec fn field_symbol(line: Seq<char>, j: int) -> Option<char> {
    if line[4 * j] == '[' && line[4 * j + 2] == ']' {
        Some(line[4 * j + 1])
    } else {
        None
    }
}

/// What the fields of a line show, from left to right.
pub open spec fn line_values(line: Seq<char>) -> Seq<Option<char>> {
    Seq::new(field_count(line), |j: int| field_symbol(line, j))
}

/// The crates among `cells`, in the order of the cells.
pub open spec fn present(cells: Seq<Option<char>>) -> Seq<char>
    decreases cells.len(),
{
    if cells.len() == 0 {
        Seq::empty()
    } else {
        match cells.last() {
            Some(c) => present(cells.drop_last()).push(c),
            None => present(cells.drop_last()),
        }
    }
}

/// Column `j` of a drawing, from its top line down.
pub open spec fn column(rows: Seq<Seq<Option<char>>>, j: int) -> Seq<Option<char>> {
    Seq::new(rows.len(), |i: int| rows[i][j])
}

/// What each line of a drawing shows.
pub open spec fn drawing_rows(lines: Seq<Seq<char>>) -> Seq<Seq<Option<char>>> {
    Seq::new(lines.len(), |i: int| line_values(lines[i]))
}

/// The rows that a table of cells holds.
pub open spec fn rows_of(table: Seq<Vec<Option<char>>>) -> Seq<Seq<Option<char>>> {
    Seq::new(table.len(), |i: int| table[i]@)
}

/// The stacks that a drawing shows.
///
/// The first line decides how many stacks there are. Stack `j` holds the
/// crates of column `j` from the top line down, so its top is the crate
/// drawn highest. A line may show more fields than the first line does; what
/// stands beyond is not read.
pub open spec fn diagram_stacks(lines: Seq<Seq<char>>) -> Result<Seq<Seq<char>>, CraneError> {
    if lines.len() == 0 {
        Err(CraneError::EmptyDiagram)
    } else if exists|i: int| 0 <= i < lines.len() && !well_cut(#[trigger] lines[i]) {
        Err(CraneError::TruncatedField)
    } else if exists|i: int|
        0 <= i < lines.len() && field_count(#[trigger] lines[i]) < field_count(lines[0]) {
        Err(CraneError::RaggedDiagram)
    } else {
        Ok(
            Seq::new(
                field_count(lines[0]),
                |j: int| present(column(drawing_rows(lines), j)),
            ),
        )
    }
}

/// Reads the fields of one line of the drawing.
pub fn get_line_values(string: String) -> (r: Result<Vec<Option<char>>, CraneError>)
    ensures
        match r {
            Ok(values) => well_cut(string@) && values@ == line_values(string@),
            Err(e) => !well_cut(string@) && e == CraneError::TruncatedField,
        },
{
    let line = chars_of(string.as_str());
    let width: usize = line.len();
    if width % 4 == 1 || width % 4 == 2 {
        return Err(CraneError::TruncatedField);
    }
    let fields: usize = if width % 4 == 3 {
        width / 4 + 1
    } else {
        width / 4
    };
    let mut result: Vec<Option<char>> = Vec::new();
    let mut j: usize = 0;
    while j < fields
        invariant
            line@ == string@,
            width == line@.len(),
            fields == field_count(line@),
            4 * fields <= width + 1,
            j <= fields,
            result@.len() == j,
            forall|k: int| 0 <= k < j ==> result@[k] == field_symbol(line@, k),
        decreases fields - j,
    {
        let at: usize = 4 * j;
        let value = if line[at] == '[' && line[at + 2] == ']' {
            Some(line[at + 1])
        } else {
            None
        };
        result.push(value);
        j += 1;
    }
    assert(result@ =~= line_values(string@));
    Ok(result)
}

/// The rows of a table after the first cell of each has been taken away.
pub open spec fn without_first_column(rows: Seq<Seq<Option<char>>>) -> Seq<Seq<Option<char>>> {
    Seq::new(rows.len(), |i: int| rows[i].drop_first())
}

/// Takes the first column off a table of cells and returns the stack that it
/// shows. Where a row has no cell left, the table stays as it is.
pub fn pop_front_stack(crate_contents: &mut Vec<Vec<Option<char>>>) -> (r: Result<
    Stack,
    CraneError,
>)
    ensures
        match r {
            Ok(stack) => {
                &&& forall|i: int|
                    0 <= i < old(crate_contents)@.len() ==> old(crate_contents)@[i]@.len() > 0
                &&& stack@ == present(column(rows_of(old(crate_contents)@), 0))
                &&& rows_of(final(crate_contents)@) == without_first_column(
                    rows_of(old(crate_contents)@),
                )
            },
            Err(e) => {
                &&& exists|i: int|
                    0 <= i < old(crate_contents)@.len() && old(crate_contents)@[i]@.len() == 0
                &&& e == CraneError::RaggedDiagram
                &&& *final(crate_contents) == *old(crate_contents)
            },
        },
{
    let ghost before = rows_of(crate_contents@);
    let height: usize = crate_contents.len();
    let mut i: usize = 0;
    while i < height
        invariant
            *crate_contents == *old(crate_contents),
            height == crate_contents@.len(),
            i <= height,
            forall|k: int| 0 <= k < i ==> crate_contents@[k]@.len() > 0,
        decreases height - i,
    {
        if crate_contents[i].is_empty() {
            return Err(CraneError::RaggedDiagram);
        }
        i += 1;
    }
    let mut stack_contents: Vec<char> = Vec::new();
    let mut i: usize = 0;
    assert(column(before, 0).take(0) =~= Seq::<Option<char>>::empty());
    while i < height
        invariant
            before == rows_of(old(crate_contents)@),
            height == crate_contents@.len() == before.len(),
            i <= height,
            forall|k: int| 0 <= k < height ==> before[k].len() > 0,
            forall|k: int| i <= k < height ==> crate_contents@[k]@ == before[k],
            forall|k: int| 0 <= k < i ==> crate_contents@[k]@ == before[k].drop_first(),
            stack_contents@ == present(column(before, 0).take(i as int)),
        decreases height - i,
    {
        let ghost cells = column(before, 0).take(i + 1);
        assert(cells.drop_last() =~= column(before, 0).take(i as int));
        assert(cells.last() == before[i as int][0]);
        let head = crate_contents[i].remove(0);
        assert(crate_contents@[i as int]@ =~= before[i as int].drop_first());
        if let Some(x) = head {
            stack_contents.push(x);
        }
        i += 1;
    }
    assert(column(before, 0).take(height as int) =~= column(before, 0));
    assert(rows_of(crate_contents@) =~= without_first_column(before));
    Ok(Stack { contents: stack_contents })
}

/// The rows of a table after the first `n` cells of each have been taken away.
pub open spec fn without_columns(rows: Seq<Seq<Option<char>>>, n: int) -> Seq<
    Seq<Option<char>>,
> {
    Seq::new(rows.len(), |i: int| rows[i].skip(n))
}

/// Reads the stacks from the lines of a drawing, its top line first.
///
/// Expects lines such as
///
/// ```text
///     [D]
/// [N] [C]
/// [Z] [M] [P]
/// ```
///
/// each at least as wide as the first. The first line decides how many
/// stacks there are.
pub fn get_crate_stacks(crate_contents: Vec<String>) -> (r: Result<CrateStacks, CraneError>)
    ensures
        stacks_outcome(r) == diagram_stacks(lines_text(crate_contents@)),
{
    let ghost lines = lines_text(crate_contents@);
    let ghost rows = drawing_rows(lines);
    let mut table: Vec<Vec<Option<char>>> = Vec::new();
    for line in it: crate_contents
        invariant
            lines == lines_text(it.seq()),
            table@.len() == it.index(),
            forall|k: int| 0 <= k < table@.len() ==> well_cut(#[trigger] lines[k]),
            forall|k: int| 0 <= k < table@.len() ==> table@[k]@ == line_values(lines[k]),
    {
        match get_line_values(line) {
            Ok(values) => {
                table.push(values);
            },
            Err(e) => {
                assert(!well_cut(lines[it.index() as int]));
                return Err(e);
            },
        }
    }
    if table.len() == 0 {
        return Err(CraneError::EmptyDiagram);
    }
    let mut stacks: Vec<Stack> = Vec::new();
    assert(rows_of(table@) =~= without_columns(rows, 0)) by {
        assert forall|k: int| 0 <= k < rows.len() implies rows[k].skip(0) == table@[k]@ by {
            assert(rows[k].skip(0) =~= rows[k]);
        }
    }
    while !table[0].is_empty()
        invariant
            lines == lines_text(crate_contents@),
            rows == drawing_rows(lines),
            lines.len() > 0,
            forall|k: int| 0 <= k < lines.len() ==> well_cut(#[trigger] lines[k]),
            table@.len() == rows.len(),
            rows_of(table@) == without_columns(rows, stacks@.len() as int),
            forall|k: int| 0 <= k < rows.len() ==> stacks@.len() <= (#[trigger] rows[k]).len(),
            forall|j: int|
                0 <= j < stacks@.len() ==> (#[trigger] stacks@[j])@ == present(column(rows, j)),
        decreases rows[0].len() - stacks@.len(),
    {
        let ghost done = stacks@.len() as int;
        let ghost cells = table@;
        let ghost remaining = rows_of(cells);
        assert(remaining[0] == rows[0].skip(done));
        let popped = pop_front_stack(&mut table);
        match popped {
            Ok(stack) => {
                proof {
                    assert(rows_of(table@).len() == remaining.len());
                    assert(column(remaining, 0) =~= column(rows, done)) by {
                        assert forall|k: int| 0 <= k < rows.len() implies remaining[k][0]
                            == rows[k][done] by {
                            assert(remaining[k] == rows[k].skip(done));
                        }
                    }
                    assert forall|k: int| 0 <= k < rows.len() implies done + 1 <= (
                    #[trigger] rows[k]).len() by {
                        assert(remaining[k] == rows[k].skip(done));
                        assert(cells[k]@.len() > 0);
                    }
                    assert(rows_of(table@) =~= without_columns(rows, done + 1)) by {
                        assert forall|k: int| 0 <= k < rows.len() implies rows_of(table@)[k]
                            == rows[k].skip(done + 1) by {
                            assert(remaining[k] == rows[k].skip(done));
                            assert(rows[k].skip(done).drop_first() =~= rows[k].skip(done + 1));
                        }
                    }
                }
                stacks.push(stack);
            },
            Err(e) => {
                proof {
                    let k = choose|k: int| 0 <= k < cells.len() && cells[k]@.len() == 0;
                    assert(remaining[k] == rows[k].skip(done));
                    assert(field_count(lines[k]) < field_count(lines[0]));
                }
                return Err(e);
            },
        }
    }
    proof {
        assert(rows_of(table@)[0] == rows[0].skip(stacks@.len() as int));
        assert forall|k: int| 0 <= k < lines.len() implies field_count(#[trigger] lines[k])
            >= field_count(lines[0]) by {
            assert(stacks@.len() <= rows[k].len());
        }
    }
    let result = CrateStacks { stacks };
    assert(result@ =~= diagram_stacks(lines)->Ok_0);
    Ok(result)
}

} // verus!
