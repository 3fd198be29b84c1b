use vstd::prelude::*;

use super::code_gen_state::{lookup, numbered_from, slots_consumed, BinOp, Inst, Operand, Variable};
use super::eval::{
    additive_value, arith, expr_value, fits_i32, multiplicative_value, primary_value, trunc_div, trunc_rem,
    unary_value,
};
use super::expr::{
    additive_code, additive_slots, expr_code, expr_slots, join, lemma_additive_next, lemma_expr_next,
    lemma_multiplicative_next, lemma_unary_next, multiplicative_code, multiplicative_slots,
    primary_code, primary_slots, unary_code, unary_slots, Additive, Assignment, Emitted, Expr, Gen, Multiplicative,
    Primary, Unary,
};
use super::stmt::{
    declared_name, decls_code, decls_slots, init_code, init_slots, inits_code, inits_slots, jump_code,
    lemma_decls_next, lemma_init_next, lemma_inits_next, lemma_lookup_push, lemma_stmt_next, lemma_stmts_next,
    stmt_code, stmt_slots, stmts_code, stmts_slots, DeclModel, InitDeclarator, Initializer, Jump, StmtCode,
    StmtModel, ALIGN_I32, TY_I32,
};

verus! {

/// The state of a run of straight-line IR: the values of numbered registers,
/// the contents of stack slots (keyed by the number of their `alloca`), and
/// the value returned, once a `ret` has run.
pub struct Machine {
    pub regs: Map<int, int>,
    pub mem: Map<int, int>,
    pub ret: Option<int>,
}

/// `v` wrapped to a 32-bit signed integer, as `add`, `sub` and `mul` do.
pub open spec fn wrap_i32(v: int) -> int {
    if fits_i32(v) {
        v
    } else {
        (v - i32::MIN) % 0x1_0000_0000 + i32::MIN
    }
}

/// What an arithmetic instruction yields: wrapped sums, differences and
/// products, and truncating quotients and remainders; `None` where the
/// instruction is undefined (a division by zero or one that overflows).
pub open spec fn ir_arith(op: BinOp, a: int, b: int) -> Option<int> {
    match op {
        BinOp::Add => Some(wrap_i32(a + b)),
        BinOp::Sub => Some(wrap_i32(a - b)),
        BinOp::Mul => Some(wrap_i32(a * b)),
        BinOp::SDiv => if b == 0 || !fits_i32(trunc_div(a, b)) {
            None
        } else {
            Some(trunc_div(a, b))
        },
        BinOp::SRem => if b == 0 || !fits_i32(trunc_div(a, b)) {
            None
        } else {
            Some(trunc_rem(a, b))
        },
    }
}

pub open spec fn operand_value(o: Operand, regs: Map<int, int>) -> Option<int> {
    match o {
        Operand::Reg(r) => if regs.contains_key(r as int) {
            Some(regs[r as int])
        } else {
            None
        },
        Operand::Imm(v) => Some(v as int),
    }
}

/// One instruction run on `m`; `None` where it reads what was never
/// written or is undefined. Nothing runs after a `ret`.
pub open spec fn step(i: Inst, m: Machine) -> Option<Machine> {
    if m.ret is Some {
        Some(m)
    } else {
        match i {
            Inst::Alloca { .. } => Some(m),
            Inst::Load { dst, slot, .. } => if m.mem.contains_key(slot as int) {
                Some(Machine { regs: m.regs.insert(dst as int, m.mem[slot as int]), ..m })
            } else {
                None
            },
            Inst::Store { src, slot, .. } => if m.regs.contains_key(src as int) {
                Some(Machine { mem: m.mem.insert(slot as int, m.regs[src as int]), ..m })
            } else {
                None
            },
            Inst::Binary { op, dst, lhs, rhs } => match (operand_value(lhs, m.regs), operand_value(rhs, m.regs)) {
                (Some(a), Some(b)) => match ir_arith(op, a, b) {
                    Some(v) => Some(Machine { regs: m.regs.insert(dst as int, v), ..m }),
                    None => None,
                },
                _ => None,
            },
            Inst::Ret { src } => if m.regs.contains_key(src as int) {
                Some(Machine { ret: Some(m.regs[src as int]), ..m })
            } else {
                None
            },
        }
    }
}

/// The instructions run in order on `m`.
pub open spec fn run(insts: Seq<Inst>, m: Machine) -> Option<Machine>
    decreases insts.len(),
{
    if insts.len() == 0 {
        Some(m)
    } else {
        match step(insts[0], m) {
            Some(m1) => run(insts.drop_first(), m1),
            None => None,
        }
    }
}

/// The machine before the first instruction of a function.
pub open spec fn start() -> Machine {
    Machine { regs: Map::empty(), mem: Map::empty(), ret: None }
}

/// Code of an expression: loads and arithmetic only.
pub open spec fn pure_code(insts: Seq<Inst>) -> bool {
    forall|k: int| 0 <= k < insts.len() ==> (#[trigger] insts[k] is Load || insts[k] is Binary)
}

/// Each variable that `env` gives a value is in scope, and its slot holds
/// that value.
pub open spec fn consistent<'a>(vars: Seq<(&'a str, Variable)>, env: Map<Seq<char>, int>, mem: Map<int, int>) -> bool {
    forall|name: Seq<char>|
        #[trigger] env.contains_key(name) ==> lookup(vars, name) is Some && mem.contains_key(
            lookup(vars, name)->Some_0.reg as int,
        ) && mem[lookup(vars, name)->Some_0.reg as int] == env[name]
}

pub proof fn lemma_run_single(i: Inst, m: Machine)
    ensures
        run(seq![i], m) == step(i, m),
{
    assert(seq![i].drop_first() =~= Seq::<Inst>::empty());
    reveal_with_fuel(run, 2);
}

pub proof fn lemma_run_concat(a: Seq<Inst>, b: Seq<Inst>, m: Machine)
    ensures
        run(a + b, m) == match run(a, m) {
            Some(m1) => run(b, m1),
            None => None,
        },
    decreases a.len(),
{
    if a.len() == 0 {
        assert(a + b =~= b);
    } else {
        assert((a + b).drop_first() =~= a.drop_first() + b);
        assert((a + b)[0] == a[0]);
        if let Some(m1) = step(a[0], m) {
            lemma_run_concat(a.drop_first(), b, m1);
        }
    }
}

/// Running the code of an expression changes no slot, returns nothing, and
/// keeps the registers numbered up to `n`.
pub proof fn lemma_run_frame(insts: Seq<Inst>, n: int, m: Machine)
    requires
        pure_code(insts),
        numbered_from(insts, n),
        m.ret is None,
    ensures
        run(insts, m) matches Some(m1) ==> m1.mem == m.mem && m1.ret is None && forall|k: int|
            k <= n && #[trigger] m.regs.contains_key(k) ==> m1.regs.contains_key(k) && m1.regs[k] == m.regs[k],
    decreases insts.len(),
{
    if insts.len() > 0 {
        assert(insts[0] is Load || insts[0] is Binary);
        if let Some(m1) = step(insts[0], m) {
            assert(pure_code(insts.drop_first())) by {
                assert forall|k: int| 0 <= k < insts.drop_first().len() implies (#[trigger] insts.drop_first()[k] is Load
                    || insts.drop_first()[k] is Binary) by {
                    assert(insts.drop_first()[k] == insts[k + 1]);
                }
            }
            lemma_run_frame(insts.drop_first(), n + 1, m1);
            let dst = match insts[0] {
                Inst::Load { dst, .. } => dst,
                Inst::Binary { dst, .. } => dst,
                _ => 0,
            };
            assert(dst == n + 1);
            assert(m1.regs == m.regs.insert(dst as int, m1.regs[dst as int]));
            assert forall|k: int| k <= n && #[trigger] m.regs.contains_key(k) implies m1.regs.contains_key(k)
                && m1.regs[k] == m.regs[k] by {}
            if let Some(m2) = run(insts.drop_first(), m1) {
                assert forall|k: int| k <= n && #[trigger] m.regs.contains_key(k) implies m2.regs.contains_key(k)
                    && m2.regs[k] == m.regs[k] by {
                    assert(m1.regs.contains_key(k));
                }
            }
        }
    }
}

/// Where `arith` gives a value, the instruction gives the same one.
pub proof fn lemma_arith_agrees(op: BinOp, a: int, b: int)
    requires
        arith(op, a, b) is Some,
    ensures
        ir_arith(op, a, b) == arith(op, a, b),
{
}

pub proof fn lemma_pure_concat(a: Seq<Inst>, b: Seq<Inst>)
    requires
        pure_code(a),
        pure_code(b),
    ensures
        pure_code(a + b),
{
    assert forall|k: int| 0 <= k < (a + b).len() implies (#[trigger] (a + b)[k] is Load || (a + b)[k] is Binary) by {
        if k >= a.len() {
            assert((a + b)[k] == b[k - a.len()]);
        }
    }
}


/// Code `g` exists, holds only loads and arithmetic, and run on `m` leaves
/// `v` in the register that holds its result.
pub open spec fn runs_to<'a>(g: Gen<'a>, v: int, m: Machine) -> bool {
    match g {
        Ok(c) => pure_code(c.insts) && match run(c.insts, m) {
            Some(m1) => m1.regs.contains_key(c.value) && m1.regs[c.value] == v,
            None => false,
        },
        Err(_) => false,
    }
}

/// The code of a binary operation computes `op` of what its operands' code
/// computes.
pub proof fn lemma_join_runs(op: BinOp, l: Emitted, r: Emitted, n: int, m: Machine, vl: int, vr: int)
    requires
        0 <= n,
        l.value == l.next,
        l.next == n + slots_consumed(l.insts),
        r.value == r.next,
        r.next == l.next + slots_consumed(r.insts),
        r.next + 1 <= usize::MAX,
        numbered_from(l.insts, n),
        numbered_from(r.insts, l.next),
        m.ret is None,
        runs_to(Ok::<Emitted, crate::token::CompileError<'static>>(l), vl, m),
        arith(op, vl, vr) is Some,
        run(l.insts, m) matches Some(m1) && runs_to(Ok::<Emitted, crate::token::CompileError<'static>>(r), vr, m1),
    ensures
        runs_to(Ok::<Emitted, crate::token::CompileError<'static>>(join(op, l, r)), arith(op, vl, vr)->Some_0, m),
{
    let m1 = run(l.insts, m)->Some_0;
    lemma_run_frame(l.insts, n, m);
    let m2 = run(r.insts, m1)->Some_0;
    lemma_run_frame(r.insts, l.next, m1);
    assert(m2.regs.contains_key(l.value) && m2.regs[l.value] == vl);
    let b = Inst::Binary {
        op,
        dst: (r.next + 1) as usize,
        lhs: Operand::Reg(l.value as usize),
        rhs: Operand::Reg(r.value as usize),
    };
    lemma_arith_agrees(op, vl, vr);
    assert(operand_value(Operand::Reg(l.value as usize), m2.regs) == Some(vl));
    assert(operand_value(Operand::Reg(r.value as usize), m2.regs) == Some(vr));
    let m3 = step(b, m2)->Some_0;
    lemma_run_single(b, m2);
    lemma_run_concat(l.insts, r.insts, m);
    lemma_run_concat(l.insts + r.insts, seq![b], m);
    lemma_pure_concat(l.insts, r.insts);
    assert(pure_code(seq![b]));
    lemma_pure_concat(l.insts + r.insts, seq![b]);
}

pub proof fn lemma_additive_runs<'a>(a: Additive<'a>, vars: Seq<(&'a str, Variable)>, env: Map<Seq<char>, int>, n: int, m: Machine)
    requires
        0 <= n,
        n + additive_slots(a) <= usize::MAX,
        additive_value(a, env) is Some,
        consistent(vars, env, m.mem),
        m.ret is None,
    ensures
        runs_to(additive_code(a, vars, n), additive_value(a, env)->Some_0, m),
    decreases a,
{
    match a {
        Additive::Multiplicative(x) => lemma_multiplicative_runs(*x, vars, env, n, m),
        Additive::Add(l, r) | Additive::Sub(l, r) => {
            let op = if a is Add { BinOp::Add } else { BinOp::Sub };
            lemma_additive_runs(*l, vars, env, n, m);
            lemma_additive_next(*l, vars, n);
            let lc = additive_code(*l, vars, n)->Ok_0;
            let m1 = run(lc.insts, m)->Some_0;
            lemma_run_frame(lc.insts, n, m);
            lemma_multiplicative_runs(*r, vars, env, lc.next, m1);
            lemma_multiplicative_next(*r, vars, lc.next);
            let rc = multiplicative_code(*r, vars, lc.next)->Ok_0;
            lemma_join_runs(op, lc, rc, n, m, additive_value(*l, env)->Some_0, multiplicative_value(*r, env)->Some_0);
        },
    }
}

pub proof fn lemma_multiplicative_runs<'a>(x: Multiplicative<'a>, vars: Seq<(&'a str, Variable)>, env: Map<Seq<char>, int>, n: int, m: Machine)
    requires
        0 <= n,
        n + multiplicative_slots(x) <= usize::MAX,
        multiplicative_value(x, env) is Some,
        consistent(vars, env, m.mem),
        m.ret is None,
    ensures
        runs_to(multiplicative_code(x, vars, n), multiplicative_value(x, env)->Some_0, m),
    decreases x,
{
    match x {
        Multiplicative::Unary(u) => lemma_unary_runs(*u, vars, env, n, m),
        Multiplicative::Mul(l, r) | Multiplicative::Div(l, r) | Multiplicative::Rem(l, r) => {
            let op = if x is Mul {
                BinOp::Mul
            } else if x is Div {
                BinOp::SDiv
            } else {
                BinOp::SRem
            };
            lemma_multiplicative_runs(*l, vars, env, n, m);
            lemma_multiplicative_next(*l, vars, n);
            let lc = multiplicative_code(*l, vars, n)->Ok_0;
            let m1 = run(lc.insts, m)->Some_0;
            lemma_run_frame(lc.insts, n, m);
            lemma_unary_runs(*r, vars, env, lc.next, m1);
            lemma_unary_next(*r, vars, lc.next);
            let rc = unary_code(*r, vars, lc.next)->Ok_0;
            lemma_join_runs(op, lc, rc, n, m, multiplicative_value(*l, env)->Some_0, unary_value(*r, env)->Some_0);
        },
    }
}

pub proof fn lemma_unary_runs<'a>(u: Unary<'a>, vars: Seq<(&'a str, Variable)>, env: Map<Seq<char>, int>, n: int, m: Machine)
    requires
        0 <= n,
        n + unary_slots(u) <= usize::MAX,
        unary_value(u, env) is Some,
        consistent(vars, env, m.mem),
        m.ret is None,
    ensures
        runs_to(unary_code(u, vars, n), unary_value(u, env)->Some_0, m),
    decreases u,
{
    match u {
        Unary::Primary(p) => lemma_primary_runs(*p, vars, env, n, m),
        Unary::UnaryPlus(x) => lemma_unary_runs(*x, vars, env, n, m),
        Unary::UnaryMinus(x) => {
            lemma_unary_runs(*x, vars, env, n, m);
            lemma_unary_next(*x, vars, n);
            let c = unary_code(*x, vars, n)->Ok_0;
            let m1 = run(c.insts, m)->Some_0;
            lemma_run_frame(c.insts, n, m);
            let vx = unary_value(*x, env)->Some_0;
            let b = Inst::Binary {
                op: BinOp::Sub,
                dst: (c.next + 1) as usize,
                lhs: Operand::Imm(0),
                rhs: Operand::Reg(c.value as usize),
            };
            lemma_arith_agrees(BinOp::Sub, 0, vx);
            assert(operand_value(Operand::Reg(c.value as usize), m1.regs) == Some(vx));
            lemma_run_single(b, m1);
            lemma_run_concat(c.insts, seq![b], m);
            assert(pure_code(seq![b]));
            lemma_pure_concat(c.insts, seq![b]);
        },
    }
}

pub proof fn lemma_primary_runs<'a>(p: Primary<'a>, vars: Seq<(&'a str, Variable)>, env: Map<Seq<char>, int>, n: int, m: Machine)
    requires
        0 <= n,
        n + primary_slots(p) <= usize::MAX,
        primary_value(p, env) is Some,
        consistent(vars, env, m.mem),
        m.ret is None,
    ensures
        runs_to(primary_code(p, vars, n), primary_value(p, env)->Some_0, m),
    decreases p,
{
    match p {
        Primary::Paren(e) => lemma_expr_runs(*e, vars, env, n, m),
        _ => {
            let c = primary_code(p, vars, n)->Ok_0;
            assert(c.insts =~= seq![c.insts[0]]);
            lemma_run_single(c.insts[0], m);
            assert(pure_code(c.insts));
        },
    }
}

pub proof fn lemma_expr_runs<'a>(e: Expr<'a>, vars: Seq<(&'a str, Variable)>, env: Map<Seq<char>, int>, n: int, m: Machine)
    requires
        0 <= n,
        n + expr_slots(e) <= usize::MAX,
        expr_value(e, env) is Some,
        consistent(vars, env, m.mem),
        m.ret is None,
    ensures
        runs_to(expr_code(e, vars, n), expr_value(e, env)->Some_0, m),
    decreases e,
{
    match e {
        Expr::Assignment(a) => match *a {
            Assignment::Additive(x) => lemma_additive_runs(*x, vars, env, n, m),
        },
    }
}


/// The body `{ return E; }` of `main`.
pub open spec fn return_body<'a>(e: Expr<'a>) -> StmtModel<'a> {
    StmtModel::Compound(Seq::empty(), seq![StmtModel::Jump(Jump::Return(Box::new(e)))])
}

/// For an expression of integer literals and the supported operators whose
/// evaluation neither overflows nor divides by zero, the code generated for
/// `int main(void) { return E; }`, run from the start of the function,
/// returns the value of E. (A process that ends so exits with that value
/// taken modulo 256.)
pub proof fn lemma_return_yields_value<'a>(e: Expr<'a>)
    requires
        expr_value(e, Map::empty()) is Some,
        expr_slots(e) + 1 <= usize::MAX,
    ensures
        match stmt_code(return_body(e), Seq::empty(), 0) {
            Ok(c) => match run(c.insts, start()) {
                Some(m) => m.ret == Some(expr_value(e, Map::empty())->Some_0),
                None => false,
            },
            Err(_) => false,
        },
{
    let vars = Seq::<(&'a str, Variable)>::empty();
    let env = Map::<Seq<char>, int>::empty();
    assert(consistent(vars, env, start().mem));
    lemma_expr_runs(e, vars, env, 0, start());
    lemma_expr_next(e, vars, 0);
    let c = expr_code(e, vars, 0)->Ok_0;
    let m1 = run(c.insts, start())->Some_0;
    lemma_run_frame(c.insts, 0, start());
    let ret = Inst::Ret { src: c.value as usize };
    lemma_run_single(ret, m1);
    lemma_run_concat(c.insts, seq![ret], start());
    let j = StmtModel::Jump(Jump::Return(Box::new(e)));
    let ss = seq![j];
    assert(ss[0] == j);
    assert(ss.subrange(1, 1) =~= Seq::<StmtModel<'a>>::empty());
    let body = c.insts + seq![ret];
    let jc = StmtCode { insts: body, next: c.next + 1, vars };
    assert(jump_code(Jump::Return(Box::new(e)), vars, 0) == Ok::<StmtCode<'a>, crate::token::CompileError<'a>>(jc));
    assert(stmt_code(j, vars, 0) == Ok::<StmtCode<'a>, crate::token::CompileError<'a>>(jc));
    let empty_code = StmtCode { insts: Seq::<Inst>::empty(), next: c.next + 1, vars };
    assert(stmts_code(ss.subrange(1, 1), vars, c.next + 1) == Ok::<StmtCode<'a>, crate::token::CompileError<'a>>(empty_code));
    let sc = StmtCode { insts: body + Seq::<Inst>::empty(), next: c.next + 1, vars };
    assert(stmts_code(ss, vars, 0) == Ok::<StmtCode<'a>, crate::token::CompileError<'a>>(sc));
    let dc = StmtCode { insts: Seq::<Inst>::empty(), next: 0, vars };
    assert(decls_code(Seq::empty(), vars, 0) == Ok::<StmtCode<'a>, crate::token::CompileError<'a>>(dc));
    assert(Seq::<Inst>::empty() + (body + Seq::<Inst>::empty()) =~= body);
    assert(stmt_code(return_body(e), vars, 0) == Ok::<StmtCode<'a>, crate::token::CompileError<'a>>(
        StmtCode { insts: Seq::<Inst>::empty() + (body + Seq::<Inst>::empty()), next: c.next + 1, vars },
    ));
}


/// The values of the variables after an init-declarator: an initialised
/// variable takes the value of its initialiser; an uninitialised one has
/// none yet. `None` where the initialiser has no value.
pub open spec fn init_env<'a>(i: InitDeclarator<'a>, env: Map<Seq<char>, int>) -> Option<Map<Seq<char>, int>> {
    match i {
        InitDeclarator::Declarator(_) => Some(env),
        InitDeclarator::DeclaratorWithValue(_, init) => match *init {
            Initializer::Additive(a) => match additive_value(*a, env) {
                Some(v) => Some(env.insert(declared_name(i)@, v)),
                None => None,
            },
        },
    }
}

pub open spec fn inits_env<'a>(inits: Seq<InitDeclarator<'a>>, env: Map<Seq<char>, int>) -> Option<Map<Seq<char>, int>>
    decreases inits.len(),
{
    if inits.len() == 0 {
        Some(env)
    } else {
        match init_env(inits[0], env) {
            Some(env1) => inits_env(inits.drop_first(), env1),
            None => None,
        }
    }
}

/// The values of the variables after a compound's declarations.
pub open spec fn decls_env<'a>(ds: Seq<DeclModel<'a>>, env: Map<Seq<char>, int>) -> Option<Map<Seq<char>, int>>
    decreases ds.len(),
{
    if ds.len() == 0 {
        Some(env)
    } else {
        match inits_env(ds[0].inits, env) {
            Some(env1) => decls_env(ds.drop_first(), env1),
            None => None,
        }
    }
}

/// The value that a body returns: that of the first `return` it reaches,
/// which is in its first statement; `None` where an evaluation on the way
/// has no value.
pub open spec fn body_value<'a>(s: StmtModel<'a>, env: Map<Seq<char>, int>) -> Option<int>
    decreases s,
{
    match s {
        StmtModel::Jump(j) => match j {
            Jump::Return(e) => expr_value(*e, env),
        },
        StmtModel::Compound(ds, ss) => {
            if ss.len() > 0 {
                match decls_env(ds, env) {
                    Some(env1) => body_value(ss[0], env1),
                    None => None,
                }
            } else {
                None
            }
        },
    }
}

/// Every variable in scope has a slot numbered at most `n`.
pub open spec fn slots_below<'a>(vars: Seq<(&'a str, Variable)>, n: int) -> bool {
    forall|x: Seq<char>| #[trigger] lookup(vars, x) is Some ==> lookup(vars, x)->Some_0.reg <= n
}

pub proof fn lemma_lookup_push_value<'a>(vars: Seq<(&'a str, Variable)>, p: (&'a str, Variable), x: Seq<char>)
    ensures
        lookup(vars.push(p), x) == if p.0@ == x {
            Some(p.1)
        } else {
            lookup(vars, x)
        },
{
    assert(vars.push(p).drop_last() =~= vars);
}

/// Once a `ret` has run, nothing changes.
pub proof fn lemma_run_after_ret(insts: Seq<Inst>, m: Machine)
    requires
        m.ret is Some,
    ensures
        run(insts, m) == Some(m),
    decreases insts.len(),
{
    if insts.len() > 0 {
        lemma_run_after_ret(insts.drop_first(), m);
    }
}

pub proof fn lemma_init_runs<'a>(i: InitDeclarator<'a>, vars: Seq<(&'a str, Variable)>, env: Map<Seq<char>, int>, n: int, m: Machine)
    requires
        0 <= n,
        n + init_slots(i) <= usize::MAX,
        consistent(vars, env, m.mem),
        slots_below(vars, n),
        m.ret is None,
        init_env(i, env) is Some,
        init_code(i, vars, n) is Ok,
    ensures
        ({
            let c = init_code(i, vars, n)->Ok_0;
            match run(c.insts, m) {
                Some(m1) => m1.ret is None && consistent(c.vars, init_env(i, env)->Some_0, m1.mem) && slots_below(c.vars, c.next),
                None => false,
            }
        }),
{
    let name = declared_name(i);
    let slot = (n + 1) as usize;
    let var = Variable { tyir: TY_I32, align: ALIGN_I32, reg: slot };
    let p = (name, var);
    let vars2 = vars.push(p);
    let alloca = Inst::Alloca { dst: slot, align: ALIGN_I32 };
    let c = init_code(i, vars, n)->Ok_0;
    lemma_init_next(i, vars, n);
    assert(lookup(vars, name@) is None);
    assert forall|x: Seq<char>| #[trigger] lookup(vars2, x) is Some implies lookup(vars2, x)->Some_0.reg <= c.next by {
        lemma_lookup_push_value(vars, p, x);
    }
    assert(consistent(vars2, env, m.mem)) by {
        assert forall|x: Seq<char>| #[trigger] env.contains_key(x) implies lookup(vars2, x) is Some && m.mem.contains_key(
            lookup(vars2, x)->Some_0.reg as int,
        ) && m.mem[lookup(vars2, x)->Some_0.reg as int] == env[x] by {
            lemma_lookup_push_value(vars, p, x);
        }
    }
    lemma_run_single(alloca, m);
    assert(step(alloca, m) == Some(m));
    match i {
        InitDeclarator::Declarator(_) => {},
        InitDeclarator::DeclaratorWithValue(_, init) => match *init {
            Initializer::Additive(a) => {
                let v = additive_value(*a, env)->Some_0;
                lemma_additive_runs(*a, vars2, env, n + 1, m);
                lemma_additive_next(*a, vars2, n + 1);
                let ac = additive_code(*a, vars2, n + 1)->Ok_0;
                let m2 = run(ac.insts, m)->Some_0;
                lemma_run_frame(ac.insts, n + 1, m);
                let store = Inst::Store { src: ac.value as usize, slot, align: ALIGN_I32 };
                lemma_run_single(store, m2);
                let m3 = step(store, m2)->Some_0;
                assert(m3.mem == m.mem.insert(n + 1, v));
                lemma_run_concat(seq![alloca], ac.insts, m);
                lemma_run_concat(seq![alloca] + ac.insts, seq![store], m);
                let env2 = env.insert(name@, v);
                assert forall|x: Seq<char>| #[trigger] env2.contains_key(x) implies lookup(vars2, x) is Some
                    && m3.mem.contains_key(lookup(vars2, x)->Some_0.reg as int) && m3.mem[lookup(vars2, x)->Some_0.reg as int]
                    == env2[x] by {
                    lemma_lookup_push_value(vars, p, x);
                    if x != name@ {
                        assert(env.contains_key(x));
                        assert(lookup(vars, x) is Some);
                    }
                }
            },
        },
    }
}

pub proof fn lemma_inits_runs<'a>(inits: Seq<InitDeclarator<'a>>, vars: Seq<(&'a str, Variable)>, env: Map<Seq<char>, int>, n: int, m: Machine)
    requires
        0 <= n,
        n + inits_slots(inits) <= usize::MAX,
        consistent(vars, env, m.mem),
        slots_below(vars, n),
        m.ret is None,
        inits_env(inits, env) is Some,
        inits_code(inits, vars, n) is Ok,
    ensures
        ({
            let c = inits_code(inits, vars, n)->Ok_0;
            match run(c.insts, m) {
                Some(m1) => m1.ret is None && consistent(c.vars, inits_env(inits, env)->Some_0, m1.mem) && slots_below(
                    c.vars,
                    c.next,
                ),
                None => false,
            }
        }),
    decreases inits.len(),
{
    if inits.len() > 0 {
        lemma_init_runs(inits[0], vars, env, n, m);
        lemma_init_next(inits[0], vars, n);
        let c = init_code(inits[0], vars, n)->Ok_0;
        let m1 = run(c.insts, m)->Some_0;
        let env1 = init_env(inits[0], env)->Some_0;
        lemma_inits_runs(inits.drop_first(), c.vars, env1, c.next, m1);
        let c2 = inits_code(inits.drop_first(), c.vars, c.next)->Ok_0;
        lemma_run_concat(c.insts, c2.insts, m);
    }
}

pub proof fn lemma_decls_runs<'a>(ds: Seq<DeclModel<'a>>, vars: Seq<(&'a str, Variable)>, env: Map<Seq<char>, int>, n: int, m: Machine)
    requires
        0 <= n,
        n + decls_slots(ds) <= usize::MAX,
        consistent(vars, env, m.mem),
        slots_below(vars, n),
        m.ret is None,
        decls_env(ds, env) is Some,
        decls_code(ds, vars, n) is Ok,
    ensures
        ({
            let c = decls_code(ds, vars, n)->Ok_0;
            match run(c.insts, m) {
                Some(m1) => m1.ret is None && consistent(c.vars, decls_env(ds, env)->Some_0, m1.mem) && slots_below(
                    c.vars,
                    c.next,
                ),
                None => false,
            }
        }),
    decreases ds.len(),
{
    if ds.len() > 0 {
        lemma_inits_runs(ds[0].inits, vars, env, n, m);
        lemma_inits_next(ds[0].inits, vars, n);
        let c = inits_code(ds[0].inits, vars, n)->Ok_0;
        let m1 = run(c.insts, m)->Some_0;
        let env1 = inits_env(ds[0].inits, env)->Some_0;
        lemma_decls_runs(ds.drop_first(), c.vars, env1, c.next, m1);
        let c2 = decls_code(ds.drop_first(), c.vars, c.next)->Ok_0;
        lemma_run_concat(c.insts, c2.insts, m);
    }
}

pub proof fn lemma_body_runs<'a>(s: StmtModel<'a>, vars: Seq<(&'a str, Variable)>, env: Map<Seq<char>, int>, n: int, m: Machine)
    requires
        0 <= n,
        n + stmt_slots(s) <= usize::MAX,
        consistent(vars, env, m.mem),
        slots_below(vars, n),
        m.ret is None,
        body_value(s, env) is Some,
        stmt_code(s, vars, n) is Ok,
    ensures
        match run(stmt_code(s, vars, n)->Ok_0.insts, m) {
            Some(m1) => m1.ret == body_value(s, env),
            None => false,
        },
    decreases s,
{
    match s {
        StmtModel::Jump(j) => match j {
            Jump::Return(e) => {
                lemma_expr_runs(*e, vars, env, n, m);
                lemma_expr_next(*e, vars, n);
                let c = expr_code(*e, vars, n)->Ok_0;
                let m1 = run(c.insts, m)->Some_0;
                lemma_run_frame(c.insts, n, m);
                let ret = Inst::Ret { src: c.value as usize };
                lemma_run_single(ret, m1);
                lemma_run_concat(c.insts, seq![ret], m);
            },
        },
        StmtModel::Compound(ds, ss) => {
            lemma_decls_runs(ds, vars, env, n, m);
            lemma_decls_next(ds, vars, n);
            let dc = decls_code(ds, vars, n)->Ok_0;
            let m1 = run(dc.insts, m)->Some_0;
            let env1 = decls_env(ds, env)->Some_0;
            let sc = stmts_code(ss, dc.vars, dc.next)->Ok_0;
            let c0 = stmt_code(ss[0], dc.vars, dc.next)->Ok_0;
            lemma_stmt_next(ss[0], dc.vars, dc.next);
            let rest = stmts_code(ss.subrange(1, ss.len() as int), dc.vars, c0.next)->Ok_0;
            assert(stmts_slots(ss) == stmt_slots(ss[0]) + stmts_slots(ss.subrange(1, ss.len() as int)));
            lemma_body_runs(ss[0], dc.vars, env1, dc.next, m1);
            let m2 = run(c0.insts, m1)->Some_0;
            lemma_run_after_ret(rest.insts, m2);
            lemma_run_concat(c0.insts, rest.insts, m1);
            lemma_run_concat(dc.insts, sc.insts, m);
        },
    }
}

/// A body that compiles, and whose evaluation neither overflows nor divides
/// by zero nor reads a variable before it is set, returns its value when its
/// code runs from the start of `main`.
pub proof fn lemma_body_returns_its_value<'a>(s: StmtModel<'a>)
    requires
        stmt_slots(s) <= usize::MAX,
        body_value(s, Map::empty()) is Some,
        stmt_code(s, Seq::empty(), 0) is Ok,
    ensures
        match run(stmt_code(s, Seq::empty(), 0)->Ok_0.insts, start()) {
            Some(m) => m.ret == body_value(s, Map::empty()),
            None => false,
        },
{
    let vars = Seq::<(&'a str, Variable)>::empty();
    assert(consistent(vars, Map::empty(), start().mem));
    assert(slots_below(vars, 0));
    lemma_body_runs(s, vars, Map::empty(), 0, start());
}

} // verus!
