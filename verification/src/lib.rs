use vstd::prelude::*;

pub mod cli;
pub mod radix;
pub mod text;
pub mod tools;

verus! {
} // verus!
