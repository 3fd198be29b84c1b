use std::rc::Rc;

use vstd::cell::invcell::InvCell;
use vstd::prelude::*;

pub use super::value::RegisterName;
use super::value::AnyName;

verus! {

/// A number handed out once by a generator.
#[derive(Debug, PartialEq, Eq, Structural)]
pub struct Identity(pub i32);

impl Identity {
    pub fn new() -> (r: Identity)
        ensures
            r.0 == 0,
    {
        Identity(0)
    }

    /// Hands out the current number and moves on to the next.
    pub fn next(&mut self) -> (r: Identity)
        requires
            old(self).0 < i32::MAX,
        ensures
            r.0 == old(self).0,
            final(self).0 == old(self).0 + 1,
    {
        let prev = self.0;
        self.0 = prev + 1;
        Identity(prev)
    }
}

/// Hands out identities, each one once.
pub struct IdentityGenerator(pub Identity);

impl IdentityGenerator {
    pub fn new() -> (r: IdentityGenerator)
        ensures
            r.0.0 == 0,
    {
        let id = Identity::new();
        IdentityGenerator(id)
    }

    /// The next identity; the generator never hands it out again.
    pub fn generate(&mut self) -> (r: Identity)
        requires
            old(self).0.0 < i32::MAX,
        ensures
            r.0 == old(self).0.0,
            final(self).0.0 == old(self).0.0 + 1,
    {
        self.0.next()
    }
}

/// A register known by its identity.
#[derive(Debug, PartialEq, Eq, Structural)]
pub struct Reg(pub Identity);

impl Reg {
    /// A register with a fresh identity from `gen`.
    pub fn new(gen: &mut IdentityGenerator) -> (r: Reg)
        requires
            old(gen).0.0 < i32::MAX,
        ensures
            r.0.0 == old(gen).0.0,
            final(gen).0.0 == old(gen).0.0 + 1,
    {
        Reg(gen.generate())
    }
}

/// A register whose name is given later and shared by its clones.
#[derive(Clone)]
pub struct Register(Rc<InvCell<RegisterName, AnyName>>);

impl Register {
    pub fn new() -> (r: Register) {
        let cell = InvCell::new(RegisterName::Unnamed(), Ghost(AnyName));
        Register(Rc::new(cell))
    }

    /// Names the register `n`.
    pub fn set(&self, n: i32) {
        self.0.set(RegisterName::Numbering(n));
    }
}

} // verus!
