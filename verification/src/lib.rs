//! Deadbolt: an assembler and software processor for a small custom
//! instruction set, with the decoding, encoding and execution rules proved
//! against their specifications.
use vstd::prelude::*;

pub mod compile;
pub mod processor;
pub mod text;
pub mod translation;

verus! {

} // verus!
