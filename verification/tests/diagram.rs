use supply_stacks::diagram::{get_crate_stacks, get_line_values, pop_front_stack};
use supply_stacks::error::CraneError;
use supply_stacks::stacks::{CrateStacks, Stack};

fn lines(text: &[&str]) -> Vec<String> {
    text.iter().map(|line| line.to_string()).collect()
}

fn stacks(text: &[&str]) -> CrateStacks {
    CrateStacks {
        stacks: text.iter().map(|stack| Stack { contents: stack.chars().collect() }).collect(),
    }
}

#[test]
fn get_line_values_reads_each_field() {
    assert_eq!(
        get_line_values("[Z] [M] [P]".to_string()),
        Ok(vec![Some('Z'), Some('M'), Some('P')])
    );
    assert_eq!(get_line_values("[N] [C]    ".to_string()), Ok(vec![Some('N'), Some('C'), None]));
    assert_eq!(get_line_values("    [D]    ".to_string()), Ok(vec![None, Some('D'), None]));
}

#[test]
fn get_line_values_takes_a_last_field_of_four_characters() {
    assert_eq!(get_line_values("[A] [B] ".to_string()), Ok(vec![Some('A'), Some('B')]));
    assert_eq!(get_line_values("    ".to_string()), Ok(vec![None]));
}

#[test]
fn get_line_values_of_an_empty_line_has_no_field() {
    assert_eq!(get_line_values(String::new()), Ok(vec![]));
}

#[test]
fn get_line_values_reads_a_field_without_its_brackets_as_absent() {
    assert_eq!(get_line_values("[A  B]  (C) [D ".to_string()), Ok(vec![None, None, None, None]));
    assert_eq!(get_line_values(" 1   2   3 ".to_string()), Ok(vec![None, None, None]));
    assert_eq!(get_line_values("]A[ [B]".to_string()), Ok(vec![None, Some('B')]));
}

#[test]
fn get_line_values_does_not_look_at_the_fourth_character() {
    assert_eq!(get_line_values("[A]x[B]".to_string()), Ok(vec![Some('A'), Some('B')]));
}

#[test]
fn get_line_values_takes_any_character_as_a_crate() {
    assert_eq!(
        get_line_values("[é] [ ] [[]".to_string()),
        Ok(vec![Some('é'), Some(' '), Some('[')])
    );
}

#[test]
fn get_line_values_refuses_a_truncated_field() {
    assert_eq!(get_line_values("[".to_string()), Err(CraneError::TruncatedField));
    assert_eq!(get_line_values("[A".to_string()), Err(CraneError::TruncatedField));
    assert_eq!(get_line_values("[A] [".to_string()), Err(CraneError::TruncatedField));
    assert_eq!(get_line_values("[A] [B".to_string()), Err(CraneError::TruncatedField));
}

#[test]
fn pop_front_stack_takes_the_first_column() {
    let mut table = vec![
        vec![None, Some('D'), None],
        vec![Some('N'), Some('C'), None],
        vec![Some('Z'), Some('M'), Some('P')],
    ];
    assert_eq!(pop_front_stack(&mut table), Ok(Stack { contents: vec!['N', 'Z'] }));
    assert_eq!(
        table,
        vec![vec![Some('D'), None], vec![Some('C'), None], vec![Some('M'), Some('P')]]
    );
    assert_eq!(pop_front_stack(&mut table), Ok(Stack { contents: vec!['D', 'C', 'M'] }));
    assert_eq!(pop_front_stack(&mut table), Ok(Stack { contents: vec!['P'] }));
    assert_eq!(table, vec![vec![], vec![], vec![]]);
}

#[test]
fn pop_front_stack_of_a_table_without_rows_is_an_empty_stack() {
    let mut table: Vec<Vec<Option<char>>> = Vec::new();
    assert_eq!(pop_front_stack(&mut table), Ok(Stack { contents: vec![] }));
    assert!(table.is_empty());
}

#[test]
fn pop_front_stack_leaves_the_table_where_a_row_has_run_out() {
    let mut table = vec![vec![Some('A'), None], vec![], vec![Some('B')]];
    assert_eq!(pop_front_stack(&mut table), Err(CraneError::RaggedDiagram));
    assert_eq!(table, vec![vec![Some('A'), None], vec![], vec![Some('B')]]);
}

#[test]
fn get_crate_stacks_reads_columns_from_the_top_down() {
    let drawing = lines(&["    [D]    ", "[N] [C]    ", "[Z] [M] [P]"]);
    assert_eq!(get_crate_stacks(drawing), Ok(stacks(&["NZ", "DCM", "P"])));
}

#[test]
fn get_crate_stacks_keeps_a_column_without_crates_as_an_empty_stack() {
    let drawing = lines(&["[A]        ", "[B]     [C]"]);
    assert_eq!(get_crate_stacks(drawing), Ok(stacks(&["AB", "", "C"])));
}

#[test]
fn get_crate_stacks_skips_gaps_in_a_column() {
    let drawing = lines(&["[A]", "   ", "[B]"]);
    assert_eq!(get_crate_stacks(drawing), Ok(stacks(&["AB"])));
}

#[test]
fn get_crate_stacks_has_as_many_stacks_as_the_widest_line_has_fields() {
    let drawing = lines(&["[A]     [C]     ", "[D] [E] [F] [G] ", "[H] [I] [J] [K]"]);
    let read = get_crate_stacks(drawing).unwrap();
    assert_eq!(read.stacks.len(), 4);
    assert_eq!(read, stacks(&["ADH", "EI", "CFJ", "GK"]));
}

#[test]
fn get_crate_stacks_of_one_empty_line_has_no_stack() {
    assert_eq!(get_crate_stacks(lines(&[""])), Ok(stacks(&[])));
}

#[test]
fn get_crate_stacks_refuses_a_drawing_without_lines() {
    assert_eq!(get_crate_stacks(Vec::new()), Err(CraneError::EmptyDiagram));
}

#[test]
fn get_crate_stacks_refuses_a_truncated_field_in_any_line() {
    assert_eq!(
        get_crate_stacks(lines(&["[A] [B]", "[C] [D"])),
        Err(CraneError::TruncatedField)
    );
    assert_eq!(get_crate_stacks(lines(&["[A", "[C] [D]"])), Err(CraneError::TruncatedField));
}

#[test]
fn get_crate_stacks_refuses_a_line_shorter_than_the_first() {
    assert_eq!(
        get_crate_stacks(lines(&["[A] [B] [C]", "[D] [E]", "[F] [G] [H]"])),
        Err(CraneError::RaggedDiagram)
    );
    assert_eq!(get_crate_stacks(lines(&["[A]", ""])), Err(CraneError::RaggedDiagram));
}

#[test]
fn get_crate_stacks_reports_a_truncated_field_before_a_short_line() {
    assert_eq!(
        get_crate_stacks(lines(&["[A] [B] [C]", "[D]", "[F] [G] [H"])),
        Err(CraneError::TruncatedField)
    );
}

#[test]
fn get_crate_stacks_does_not_read_beyond_the_width_of_the_first_line() {
    let drawing = lines(&["    [D]", "[N] [C]    ", "[Z] [M] [P]"]);
    assert_eq!(get_crate_stacks(drawing), Ok(stacks(&["NZ", "DCM"])));
}
