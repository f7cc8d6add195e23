//! Emulator core for a 6-bit load/store machine whose operands may carry a
//! time offset: an instruction can read a register or memory cell as it will
//! exist some cycles in the future, or write it as it existed in the past.
//! The crate provides the word model, the machine state, the binary
//! instruction codec, the execution engine, and the bounded timeline with its
//! consistency-resolution protocol.

pub mod instruction;
pub mod interpreter;
pub mod machine;

pub mod universe;
pub mod word;

use vstd::prelude::*;

verus! {

} // verus!
