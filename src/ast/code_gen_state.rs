use vstd::prelude::*;

verus! {

/// A stack slot of a declared variable.
#[derive(Debug, Clone, Copy, PartialEq, Eq)]
pub struct Variable {
    /// The IR type mnemonic of the variable.
    pub tyir: &'static str,
    /// Its alignment in bytes.
    pub align: usize,
    /// The number of the `alloca` that made its slot.
    pub reg: usize,
}

impl Variable {
    pub fn new(tyir: &'static str, align: usize, reg: usize) -> (r: Variable)
        ensures
            r == (Variable { tyir, align, reg }),
    {
        Variable { tyir, align, reg }
    }
}

/// An operand of an arithmetic instruction.
#[derive(Debug, Clone, Copy, PartialEq, Eq)]
pub enum Operand {
    /// A numbered value, `%n`.
    Reg(usize),
    /// An integer constant.
    Imm(i32),
}

/// The arithmetic instructions.
#[derive(Debug, Clone, Copy, PartialEq, Eq)]
pub enum BinOp {
    Add,
    Sub,
    Mul,
    SDiv,
    SRem,
}

/// One emitted IR instruction on 32-bit integers.
#[derive(Debug, Clone, Copy, PartialEq, Eq)]
pub enum Inst {
    /// `%dst = alloca i32, align A`
    Alloca { dst: usize, align: usize },
    /// `%dst = load i32, i32* %slot, align A`
    Load { dst: usize, slot: usize, align: usize },
    /// `store i32 %src, i32* %slot, align A`
    Store { src: usize, slot: usize, align: usize },
    /// `%dst = op i32 lhs, rhs`
    Binary { op: BinOp, dst: usize, lhs: Operand, rhs: Operand },
    /// `ret i32 %src`
    Ret { src: usize },
}

/// How many numbers an instruction takes from the pool shared by values and
/// blocks: one for each value it defines, and one for the block that follows a
/// terminator.
pub open spec fn inst_slots(i: Inst) -> nat {
    match i {
        Inst::Store { .. } => 0,
        _ => 1,
    }
}

/// How many numbers a sequence of instructions takes.
pub open spec fn slots_consumed(insts: Seq<Inst>) -> nat
    decreases insts.len(),
{
    if insts.len() == 0 {
        0
    } else {
        inst_slots(insts[0]) + slots_consumed(insts.drop_first())
    }
}

/// Whether the instructions, emitted after the number `n` was last taken,
/// number their values in textual order: each defining instruction takes the
/// next number, and a `ret` skips one for the block after it.
pub open spec fn numbered_from(insts: Seq<Inst>, n: int) -> bool
    decreases insts.len(),
{
    if insts.len() == 0 {
        true
    } else {
        let ok = match insts[0] {
            Inst::Alloca { dst, .. } => dst == n + 1,
            Inst::Load { dst, .. } => dst == n + 1,
            Inst::Binary { dst, .. } => dst == n + 1,
            _ => true,
        };
        ok && numbered_from(insts.drop_first(), n + inst_slots(insts[0]))
    }
}

pub proof fn lemma_single_inst(i: Inst, n: int)
    ensures
        slots_consumed(seq![i]) == inst_slots(i),
        numbered_from(seq![i], n) == match i {
            Inst::Alloca { dst, .. } => dst == n + 1,
            Inst::Load { dst, .. } => dst == n + 1,
            Inst::Binary { dst, .. } => dst == n + 1,
            _ => true,
        },
{
    assert(seq![i].drop_first() =~= Seq::<Inst>::empty());
    reveal_with_fuel(slots_consumed, 2);
    reveal_with_fuel(numbered_from, 2);
}

pub proof fn lemma_slots_concat(a: Seq<Inst>, b: Seq<Inst>)
    ensures
        slots_consumed(a + b) == slots_consumed(a) + slots_consumed(b),
    decreases a.len(),
{
    if a.len() > 0 {
        assert((a + b).drop_first() =~= a.drop_first() + b);
        lemma_slots_concat(a.drop_first(), b);
    } else {
        assert(a + b =~= b);
    }
}

pub proof fn lemma_numbered_concat(a: Seq<Inst>, b: Seq<Inst>, n: int)
    requires
        numbered_from(a, n),
        numbered_from(b, n + slots_consumed(a)),
    ensures
        numbered_from(a + b, n),
    decreases a.len(),
{
    if a.len() > 0 {
        assert((a + b).drop_first() =~= a.drop_first() + b);
        assert((a + b)[0] == a[0]);
        lemma_numbered_concat(a.drop_first(), b, n + inst_slots(a[0]));
    } else {
        assert(a + b =~= b);
    }
}

/// The variable that `name` denotes among `vars`, the latest declaration first.
pub open spec fn lookup<'a>(vars: Seq<(&'a str, Variable)>, name: Seq<char>) -> Option<Variable>
    decreases vars.len(),
{
    if vars.len() == 0 {
        None
    } else if vars.last().0@ == name {
        Some(vars.last().1)
    } else {
        lookup(vars.drop_last(), name)
    }
}

/// The state threaded through code generation: the last number taken, the
/// variables in scope, and the instructions emitted so far.
#[derive(Debug)]
pub struct CodeGenState<'a> {
    pub reg: usize,
    pub vars: Vec<(&'a str, Variable)>,
    pub code: Vec<Inst>,
}

impl<'a> CodeGenState<'a> {
    pub fn new() -> (r: CodeGenState<'a>)
        ensures
            r.reg == 0,
            r.vars@ == Seq::<(&'a str, Variable)>::empty(),
            r.code@ == Seq::<Inst>::empty(),
    {
        CodeGenState { reg: 0, vars: Vec::new(), code: Vec::new() }
    }

    /// Takes the next number from the pool.
    pub fn next_reg(&mut self) -> (r: usize)
        requires
            old(self).reg < usize::MAX,
        ensures
            r == old(self).reg + 1,
            final(self).reg == r,
            final(self).vars == old(self).vars,
            final(self).code == old(self).code,
    {
        self.reg = self.reg + 1;
        self.reg
    }

    /// The variable that `name` denotes, if one is in scope.
    pub fn find(&self, name: &str) -> (r: Option<Variable>)
        ensures
            r == lookup(self.vars@, name@),
    {
        let mut i: usize = self.vars.len();
        assert(self.vars@.subrange(0, i as int) =~= self.vars@);
        while i > 0
            invariant
                i <= self.vars@.len(),
                lookup(self.vars@, name@) == lookup(self.vars@.subrange(0, i as int), name@),
            decreases i,
        {
            let (n, v) = self.vars[i - 1];
            proof {
                assert(self.vars@.subrange(0, i as int).drop_last() =~= self.vars@.subrange(0, i - 1));
            }
            if crate::token::same_text(n, name) {
                return Some(v);
            }
            i = i - 1;
        }
        None
    }

    /// Emits one instruction.
    pub fn emit(&mut self, inst: Inst)
        ensures
            final(self).reg == old(self).reg,
            final(self).vars == old(self).vars,
            final(self).code@ == old(self).code@.push(inst),
    {
        self.code.push(inst);
    }
}

} // verus!
