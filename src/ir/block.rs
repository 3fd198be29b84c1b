use vstd::prelude::*;

use super::instruction::Instruction;
use super::value::{Register, Value};

verus! {

/// A basic block: the register that names its label, and its instructions.
pub struct BasicBlock(pub Register, pub Vec<Instruction>);

impl BasicBlock {
    pub fn new() -> (r: BasicBlock)
        ensures
            r.1@.len() == 0,
    {
        let reg = Register::new();
        let vec = Vec::new();
        BasicBlock(reg, vec)
    }

    pub fn push(&mut self, inst: Instruction)
        ensures
            final(self).1@ == old(self).1@.push(inst),
            final(self).0 == old(self).0,
    {
        self.1.push(inst)
    }

    /// The label of this block, as a value.
    pub fn label(&self) -> (r: Value)
        ensures
            r matches Value::Label(w) && w.refers_to(&self.0),
    {
        let weak = self.0.make_ref();
        Value::Label(weak)
    }

    /// Appends `ret` of `val`.
    pub fn ret(&mut self, val: Value)
        ensures
            final(self).1@ == old(self).1@.push(Instruction::Ret(val)),
            final(self).0 == old(self).0,
    {
        let ret = Instruction::Ret(val);
        self.push(ret)
    }

    /// Appends the sum of `lhs` and `rhs` into a new register, and returns
    /// that register as a value.
    pub fn add(&mut self, lhs: Value, rhs: Value) -> (r: Value)
        ensures
            final(self).0 == old(self).0,
            final(self).1@.len() == old(self).1@.len() + 1,
            final(self).1@.subrange(0, old(self).1@.len() as int) == old(self).1@,
            final(self).1@.last() matches Instruction::Add(reg, l, rr) && l == lhs && rr == rhs
                && (r matches Value::Register(w) && w.refers_to(&reg)),
    {
        let reg = Register::new();
        let weak = reg.make_ref();
        let add = Instruction::Add(reg, lhs, rhs);
        self.push(add);
        proof {
            assert(self.1@.subrange(0, old(self).1@.len() as int) =~= old(self).1@);
        }
        Value::Register(weak)
    }
}

} // verus!
