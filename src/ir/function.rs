use vstd::prelude::*;

use super::block::BasicBlock;

verus! {

/// A function: its name and its blocks.
pub struct Function(pub String, pub Vec<BasicBlock>);

impl Function {
    /// The function `main`, with no blocks yet.
    pub fn new() -> (r: Function)
        ensures
            r.0@ == "main"@,
            r.1@.len() == 0,
    {
        let name = String::from_str("main");
        let vec = Vec::new();
        Function(name, vec)
    }

    /// Appends a block.
    pub fn push(&mut self, block: BasicBlock)
        ensures
            final(self).0 == old(self).0,
            final(self).1@ == old(self).1@.push(block),
    {
        self.1.push(block)
    }
}

} // verus!
