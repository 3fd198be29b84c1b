use vstd::prelude::*;

use super::value::{Register, Value};

verus! {

/// An instruction of a basic block.
pub enum Instruction {
    /// Returns the value.
    Ret(Value),
    /// Names the register the sum of the two values.
    Add(Register, Value, Value),
}

} // verus!
