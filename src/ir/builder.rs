use vstd::prelude::*;

use super::block::BasicBlock;
use super::instruction::Instruction;
use super::value::{Register, Value};

verus! {

/// Builds a function block by block; instructions go to the last block.
pub struct Builder(pub Vec<BasicBlock>);

impl Builder {
    pub fn new() -> (r: Builder)
        ensures
            r.0@.len() == 0,
    {
        let vec = Vec::new();
        Builder(vec)
    }

    fn push(&mut self, inst: Instruction)
        requires
            old(self).0@.len() > 0,
        ensures
            final(self).0@.len() == old(self).0@.len(),
            final(self).0@.last().1@ == old(self).0@.last().1@.push(inst),
    {
        let last = self.0.len() - 1;
        let mut block = self.0.remove(last);
        block.push(inst);
        self.0.push(block);
    }

    /// Starts a new block and returns its label.
    pub fn block(&mut self) -> (r: Value)
        ensures
            final(self).0@.len() == old(self).0@.len() + 1,
            final(self).0@.last().1@.len() == 0,
            r matches Value::Label(w) && w.refers_to(&final(self).0@.last().0),
    {
        let bb = BasicBlock::new();
        let label = bb.label();
        self.0.push(bb);
        label
    }

    /// Appends `ret` of `val` to the last block.
    pub fn ret(&mut self, val: Value)
        requires
            old(self).0@.len() > 0,
        ensures
            final(self).0@.len() == old(self).0@.len(),
            final(self).0@.last().1@ == old(self).0@.last().1@.push(Instruction::Ret(val)),
    {
        let ret = Instruction::Ret(val);
        self.push(ret)
    }

    /// Appends the sum of `lhs` and `rhs` into a new register to the last
    /// block, and returns that register as a value.
    pub fn add(&mut self, lhs: Value, rhs: Value) -> (r: Value)
        requires
            old(self).0@.len() > 0,
        ensures
            final(self).0@.len() == old(self).0@.len(),
            final(self).0@.last().1@.len() == old(self).0@.last().1@.len() + 1,
            final(self).0@.last().1@.last() matches Instruction::Add(reg, l, rr) && l == lhs && rr == rhs
                && (r matches Value::Register(w) && w.refers_to(&reg)),
    {
        let reg = Register::new();
        let weak = reg.make_ref();
        let add = Instruction::Add(reg, lhs, rhs);
        self.push(add);
        Value::Register(weak)
    }
}

} // verus!
