//! A tape machine for the eight-symbol language `> < + - . , [ ]`.
//!
//! The machine pulls its instructions lazily from a character source, keeps a
//! growable tape of 32-bit cells, and is advanced one instruction at a time.
//! Output is not written here: a step hands the character to write, or the
//! anomaly to report, back to its driver.
pub mod interpreter;
pub mod laws;
pub mod machine;
pub mod stream;

pub use crate::interpreter::InterpreterState;
pub use crate::machine::{Outcome, INITIAL_CELLS};
pub use crate::stream::{is_usable, Pulled, StreamError};
