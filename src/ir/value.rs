use std::rc::Rc;

use vstd::cell::invcell::InvCell;
use vstd::predicate::Predicate;
use vstd::prelude::*;

use crate::output::{int_text, push_int};

verus! {

/// The name of a register: none yet, or its number.
#[derive(Debug, Clone, Copy)]
pub enum RegisterName {
    Unnamed(),
    Numbering(i32),
}

/// The text of a register name: its number, or nothing while it has none.
pub open spec fn name_text(n: RegisterName) -> Seq<char> {
    match n {
        RegisterName::Unnamed() => Seq::empty(),
        RegisterName::Numbering(v) => int_text(v as int),
    }
}

impl RegisterName {
    /// The text of this name.
    pub fn to_string(&self) -> (r: String)
        ensures
            r@ == name_text(*self),
    {
        let mut s = String::new();
        match self {
            RegisterName::Unnamed() => {},
            RegisterName::Numbering(n) => push_int(&mut s, *n),
        }
        s
    }
}

/// Any name may be stored in a register's cell.
pub struct AnyName;

impl Predicate<RegisterName> for AnyName {
    open spec fn predicate(&self, v: RegisterName) -> bool {
        true
    }
}

/// A register whose name is given later and seen by every reference to it.
pub struct Register(Rc<InvCell<RegisterName, AnyName>>);

impl Register {
    pub fn new() -> (r: Register) {
        let cell = InvCell::new(RegisterName::Unnamed(), Ghost(AnyName));
        Register(Rc::new(cell))
    }

    /// Names the register `n` and returns the number after it.
    pub fn set(&self, n: i32) -> (r: i32)
        requires
            n < i32::MAX,
        ensures
            r == n + 1,
    {
        self.0.set(RegisterName::Numbering(n));
        n + 1
    }

    /// A reference to this register, which sees the name it is given later.
    pub fn make_ref(&self) -> (r: WeakRegister)
        ensures
            r.refers_to(self),
    {
        WeakRegister(self.0.clone())
    }

    /// The text of the register's current name: its number, or nothing while
    /// it has none.
    pub fn to_string(&self) -> (r: String)
        ensures
            exists|n: RegisterName| r@ == name_text(n),
    {
        self.0.get().to_string()
    }
}

/// A reference to a register.
pub struct WeakRegister(Rc<InvCell<RegisterName, AnyName>>);

impl WeakRegister {
    /// Whether this is a reference to `reg`, sharing its name.
    pub closed spec fn refers_to(&self, reg: &Register) -> bool {
        self.0 == reg.0
    }

    /// The text of the current name of the register referred to: its number,
    /// or nothing while it has none.
    pub fn to_string(&self) -> (r: String)
        ensures
            exists|n: RegisterName| r@ == name_text(n),
    {
        self.0.get().to_string()
    }
}

/// An operand of an instruction: a constant, or a reference to a register
/// or a block label.
pub enum Value {
    Constant(i32),
    Register(WeakRegister),
    Label(WeakRegister),
}

impl Value {
    /// The operand's text: a constant in decimal, a register or a label as
    /// `%` and its name.
    pub fn to_string(&self) -> (r: String)
        ensures
            self is Constant ==> r@ == int_text(self->Constant_0 as int),
            !(self is Constant) ==> exists|n: RegisterName| r@ == "%"@ + name_text(n),
    {
        match self {
            Value::Constant(n) => {
                let mut s = String::new();
                push_int(&mut s, *n);
                s
            },
            Value::Register(weak) | Value::Label(weak) => {
                let s = String::from_str("%");
                let name = weak.to_string();
                s.concat(name.as_str())
            },
        }
    }
}

} // verus!
