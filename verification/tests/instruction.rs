use supply_stacks::error::CraneError;
use supply_stacks::instruction::MoveInstruction;

fn read(line: &str) -> Result<MoveInstruction, CraneError> {
    MoveInstruction::new(line.to_string())
}

#[test]
fn new_reads_amount_source_and_destination() {
    assert_eq!(
        read("move 1 from 2 to 1"),
        Ok(MoveInstruction { moved_amount: 1, from_stack: 1, to_stack: 0 })
    );
    assert_eq!(
        read("move 13 from 9 to 4"),
        Ok(MoveInstruction { moved_amount: 13, from_stack: 8, to_stack: 3 })
    );
}

#[test]
fn new_counts_stacks_from_zero() {
    let m = read("move 3 from 1 to 3").unwrap();
    assert_eq!(m.moved_amount, 3);
    assert_eq!(m.from_stack, 0);
    assert_eq!(m.to_stack, 2);
}

#[test]
fn new_takes_an_amount_of_zero() {
    assert_eq!(
        read("move 0 from 1 to 2"),
        Ok(MoveInstruction { moved_amount: 0, from_stack: 0, to_stack: 1 })
    );
}

#[test]
fn new_passes_over_what_stands_before_move() {
    assert_eq!(
        read("please move 2 from 3 to 4"),
        Ok(MoveInstruction { moved_amount: 2, from_stack: 2, to_stack: 3 })
    );
}

#[test]
fn new_takes_a_plus_sign_and_leading_zeros() {
    assert_eq!(
        read("move +2 from 03 to +04"),
        Ok(MoveInstruction { moved_amount: 2, from_stack: 2, to_stack: 3 })
    );
}

#[test]
fn new_refuses_a_line_without_move() {
    assert_eq!(read(""), Err(CraneError::MissingMove));
    assert_eq!(read("shift 1 from 2 to 3"), Err(CraneError::MissingMove));
    assert_eq!(read("move1 from 2 to 3"), Err(CraneError::MissingMove));
}

#[test]
fn new_refuses_a_line_without_from() {
    assert_eq!(read("move 1 to 3"), Err(CraneError::MissingFrom));
    assert_eq!(read("move 1 from2 to 3"), Err(CraneError::MissingFrom));
    assert_eq!(read(" from move 1 to 3"), Err(CraneError::MissingFrom));
}

#[test]
fn new_refuses_a_line_without_to() {
    assert_eq!(read("move 1 from 2"), Err(CraneError::MissingTo));
    assert_eq!(read("move 1 from 2 3"), Err(CraneError::MissingTo));
    assert_eq!(read("move 1 to 3 from 2"), Err(CraneError::MissingTo));
}

#[test]
fn new_refuses_an_amount_that_is_no_number() {
    assert_eq!(read("move x from 2 to 3"), Err(CraneError::InvalidAmount));
    assert_eq!(read("move  from 2 to 3"), Err(CraneError::InvalidAmount));
    assert_eq!(read("move -1 from 2 to 3"), Err(CraneError::InvalidAmount));
    assert_eq!(read("move 1  from 2 to 3"), Err(CraneError::InvalidAmount));
    assert_eq!(
        read("move 99999999999999999999999 from 2 to 3"),
        Err(CraneError::InvalidAmount)
    );
}

#[test]
fn new_refuses_a_source_that_is_no_number() {
    assert_eq!(read("move 1 from two to 3"), Err(CraneError::InvalidSource));
    assert_eq!(read("move 1 from  to 3"), Err(CraneError::InvalidSource));
}

#[test]
fn new_refuses_a_destination_that_is_no_number() {
    assert_eq!(read("move 1 from 2 to three"), Err(CraneError::InvalidDestination));
    assert_eq!(read("move 1 from 2 to 3 "), Err(CraneError::InvalidDestination));
    assert_eq!(read("move 1 from 2 to "), Err(CraneError::InvalidDestination));
    assert_eq!(read("move 1 from 2 to 3 to 4"), Err(CraneError::InvalidDestination));
}

#[test]
fn new_refuses_stack_number_zero() {
    assert_eq!(read("move 1 from 0 to 3"), Err(CraneError::ZeroSource));
    assert_eq!(read("move 1 from 2 to 0"), Err(CraneError::ZeroDestination));
}

#[test]
fn new_reports_the_first_fault_in_reading_order() {
    assert_eq!(read("move x from y to z"), Err(CraneError::InvalidAmount));
    assert_eq!(read("move 1 from y to z"), Err(CraneError::InvalidSource));
    assert_eq!(read("move 1 from 0 to z"), Err(CraneError::ZeroSource));
    assert_eq!(read("move 1 from 0 to 0"), Err(CraneError::ZeroSource));
    assert_eq!(read("move x to 3"), Err(CraneError::MissingFrom));
    assert_eq!(read("x from 1"), Err(CraneError::MissingMove));
}
