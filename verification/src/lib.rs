//! Rearranging stacks of crates.
//!
//! The input is a drawing of stacks of crates, a line that numbers the
//! stacks, an empty line, and a list of instructions for a crane:
//!
//! ```text
//!     [D]
//! [N] [C]
//! [Z] [M] [P]
//!  1   2   3
//!
//! move 1 from 2 to 1
//! move 3 from 1 to 3
//! ```
//!
//! The library reads both, carries out the instructions with a crane that
//! moves one crate at a time or with one that moves a whole block, and
//! reports the crate on top of every stack.
//!
//! Every public function is total. Where the input cannot be worked on, it
//! returns a [`error::CraneError`], and its contract says for which inputs
//! which error comes.
//!
//! - [`text`]: finding a phrase and reading a number in a line of characters
//! - [`diagram`]: reading the stacks from the drawing
//! - [`instruction`]: reading an instruction from a line
//! - [`crane`]: carrying out instructions
//! - [`report`]: the top crate of every stack
//! - [`puzzle`]: the whole task, from the lines of the input to the answer
//! - [`laws`]: what holds of all of these together

pub mod crane;
pub mod diagram;
pub mod error;
pub mod instruction;
pub mod laws;
pub mod puzzle;
pub mod report;
pub mod stacks;
pub mod text;
