//! The ways in which a drawing, an instruction or a move can be refused.

use vstd::prelude::*;

verus! {

/// Why the library refused its input. Nothing is repaired or skipped: the
/// first fault found ends the work.
#[derive(Clone, Copy, Debug, PartialEq, Eq, Structural)]
pub enum CraneError {
    /// The drawing has no line that shows crates.
    EmptyDiagram,
    /// A line of the drawing ends in a field of one or two characters.
    TruncatedField,
    /// A line of the drawing has fewer fields than its first line.
    RaggedDiagram,
    /// An instruction does not contain `move `.
    MissingMove,
    /// An instruction does not contain ` from ` after `move `.
    MissingFrom,
    /// An instruction does not contain ` to ` after ` from `.
    MissingTo,
    /// The number of crates to move is not an unsigned decimal number.
    InvalidAmount,
    /// The source stack is not an unsigned decimal number.
    InvalidSource,
    /// The source stack is numbered zero; stacks are counted from one.
    ZeroSource,
    /// The destination stack is not an unsigned decimal number.
    InvalidDestination,
    /// The destination stack is numbered zero; stacks are counted from one.
    ZeroDestination,
    /// A move names a source stack that the collection does not have.
    SourceOutOfRange,
    /// A move asks for more crates than its source stack holds.
    NotEnoughCrates,
    /// A move names a destination stack that the collection does not have.
    DestinationOutOfRange,
    /// A stack is empty where its top crate is read.
    EmptyStack,
}

} // verus!
