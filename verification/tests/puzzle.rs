use supply_stacks::error::CraneError;
use supply_stacks::instruction::MoveInstruction;
use supply_stacks::puzzle::{parse_input, puzzle_1, puzzle_2};
use supply_stacks::report::top_crates;
use supply_stacks::stacks::{CrateStacks, Stack};

fn lines(text: &[&str]) -> Vec<String> {
    text.iter().map(|line| line.to_string()).collect()
}

fn stacks(text: &[&str]) -> CrateStacks {
    CrateStacks {
        stacks: text.iter().map(|stack| Stack { contents: stack.chars().collect() }).collect(),
    }
}

fn example() -> Vec<String> {
    lines(&[
        "    [D]    ",
        "[N] [C]    ",
        "[Z] [M] [P]",
        " 1   2   3 ",
        "",
        "move 1 from 2 to 1",
        "move 3 from 1 to 3",
        "move 2 from 2 to 1",
        "move 1 from 1 to 2",
    ])
}

#[test]
fn example_with_single_crate_moves_ends_in_cmz() {
    assert_eq!(puzzle_1(example()), Ok("CMZ".to_string()));
}

#[test]
fn example_with_bulk_moves_ends_in_mcd() {
    assert_eq!(puzzle_2(example()), Ok("MCD".to_string()));
}

#[test]
fn parse_input_reads_the_example() {
    let (read, moves) = parse_input(example()).unwrap();
    assert_eq!(read, stacks(&["NZ", "DCM", "P"]));
    assert_eq!(
        moves,
        vec![
            MoveInstruction { moved_amount: 1, from_stack: 1, to_stack: 0 },
            MoveInstruction { moved_amount: 3, from_stack: 0, to_stack: 2 },
            MoveInstruction { moved_amount: 2, from_stack: 1, to_stack: 0 },
            MoveInstruction { moved_amount: 1, from_stack: 0, to_stack: 1 },
        ]
    );
}

#[test]
fn example_step_by_step_with_single_crate_moves() {
    let (mut current, moves) = parse_input(example()).unwrap();
    let expected = [
        stacks(&["DNZ", "CM", "P"]),
        stacks(&["", "CM", "ZNDP"]),
        stacks(&["MC", "", "ZNDP"]),
        stacks(&["C", "M", "ZNDP"]),
    ];
    for (m, after) in moves.iter().zip(expected) {
        current = m.execute_move(current).unwrap();
        assert_eq!(current, after);
    }
}

#[test]
fn example_step_by_step_with_bulk_moves() {
    let (mut current, moves) = parse_input(example()).unwrap();
    let expected = [
        stacks(&["DNZ", "CM", "P"]),
        stacks(&["", "CM", "DNZP"]),
        stacks(&["CM", "", "DNZP"]),
        stacks(&["M", "C", "DNZP"]),
    ];
    for (m, after) in moves.iter().zip(expected) {
        current = m.move_bulk(current).unwrap();
        assert_eq!(current, after);
    }
}

#[test]
fn tops_of_a_fresh_drawing_are_its_highest_crates() {
    let drawing = lines(&["    [D]    ", "[N] [C]    ", "[Z] [M] [P]", " 1   2   3 "]);
    let (read, moves) = parse_input(drawing.clone()).unwrap();
    assert!(moves.is_empty());
    assert_eq!(top_crates(&read), Ok("NDP".to_string()));
    assert_eq!(puzzle_1(drawing.clone()), Ok("NDP".to_string()));
    assert_eq!(puzzle_2(drawing), Ok("NDP".to_string()));
}

#[test]
fn no_instruction_leaves_the_stacks_unchanged() {
    let mut input = example();
    input.truncate(5);
    let (read, moves) = parse_input(input.clone()).unwrap();
    assert_eq!(read, stacks(&["NZ", "DCM", "P"]));
    assert_eq!(moves, vec![]);
    assert_eq!(puzzle_1(input.clone()), Ok("NDP".to_string()));
    assert_eq!(puzzle_2(input), Ok("NDP".to_string()));
}

#[test]
fn parse_input_does_not_read_the_line_of_stack_numbers() {
    let input = lines(&["[A] [B]", "[C] [D]", "", "move 1 from 1 to 2"]);
    let (read, moves) = parse_input(input).unwrap();
    assert_eq!(read, stacks(&["A", "B"]));
    assert_eq!(moves.len(), 1);
}

#[test]
fn parse_input_ends_the_drawing_at_the_first_empty_line() {
    let input = lines(&["[A]", " 1 ", "", "move 1 from 1 to 1", "", "move 1 from 1 to 1"]);
    assert_eq!(parse_input(input), Err(CraneError::MissingMove));
}

#[test]
fn parse_input_refuses_an_input_without_a_drawing() {
    assert_eq!(parse_input(Vec::new()), Err(CraneError::EmptyDiagram));
    assert_eq!(parse_input(lines(&[" 1   2 "])), Err(CraneError::EmptyDiagram));
    assert_eq!(
        parse_input(lines(&["", "move 1 from 1 to 2"])),
        Err(CraneError::EmptyDiagram)
    );
    assert_eq!(parse_input(lines(&[" 1 ", "", "move 1 from 1 to 1"])), Err(CraneError::EmptyDiagram));
}

#[test]
fn parse_input_reports_the_drawing_before_the_instructions() {
    let input = lines(&["[A] [B", " 1   2 ", "", "move"]);
    assert_eq!(parse_input(input), Err(CraneError::TruncatedField));
    let input = lines(&["[A] [B]", "[C]", " 1   2 ", "", "move"]);
    assert_eq!(parse_input(input), Err(CraneError::RaggedDiagram));
}

#[test]
fn a_malformed_instruction_refuses_the_whole_input() {
    let mut input = example();
    input[6] = "move 3 from 1 3".to_string();
    assert_eq!(parse_input(input.clone()), Err(CraneError::MissingTo));
    assert_eq!(puzzle_1(input.clone()), Err(CraneError::MissingTo));
    assert_eq!(puzzle_2(input), Err(CraneError::MissingTo));
}

#[test]
fn the_first_malformed_instruction_decides_the_error() {
    let mut input = example();
    input[7] = "move two from 2 to 1".to_string();
    input[8] = "nothing".to_string();
    assert_eq!(parse_input(input), Err(CraneError::InvalidAmount));
}

#[test]
fn a_move_of_too_many_crates_refuses_the_whole_input() {
    let mut input = example();
    input[6] = "move 4 from 1 to 3".to_string();
    assert_eq!(puzzle_1(input.clone()), Err(CraneError::NotEnoughCrates));
    assert_eq!(puzzle_2(input), Err(CraneError::NotEnoughCrates));
}

#[test]
fn a_move_between_stacks_that_are_not_drawn_refuses_the_whole_input() {
    let mut input = example();
    input[5] = "move 1 from 4 to 1".to_string();
    assert_eq!(puzzle_1(input.clone()), Err(CraneError::SourceOutOfRange));
    input[5] = "move 1 from 1 to 4".to_string();
    assert_eq!(puzzle_2(input), Err(CraneError::DestinationOutOfRange));
}

#[test]
fn an_empty_stack_at_the_end_has_no_top() {
    let mut input = example();
    input.truncate(7);
    assert_eq!(puzzle_1(input.clone()), Err(CraneError::EmptyStack));
    assert_eq!(puzzle_2(input), Err(CraneError::EmptyStack));
}

#[test]
fn top_crates_reads_the_front_of_every_stack() {
    assert_eq!(top_crates(&stacks(&["C", "M", "ZNDP"])), Ok("CMZ".to_string()));
    assert_eq!(top_crates(&stacks(&["é"])), Ok("é".to_string()));
    assert_eq!(top_crates(&stacks(&[])), Ok(String::new()));
}

#[test]
fn top_crates_refuses_an_empty_stack() {
    assert_eq!(top_crates(&stacks(&["A", "", "B"])), Err(CraneError::EmptyStack));
    assert_eq!(top_crates(&stacks(&[""])), Err(CraneError::EmptyStack));
}

#[test]
fn the_two_cranes_start_from_the_same_stacks() {
    let input = example();
    assert_eq!(puzzle_1(input.clone()), Ok("CMZ".to_string()));
    assert_eq!(puzzle_2(input.clone()), Ok("MCD".to_string()));
    assert_eq!(puzzle_1(input), Ok("CMZ".to_string()));
}
