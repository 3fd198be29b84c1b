use vstd::prelude::*;

use super::code_gen_state::BinOp;
use super::expr::{
    additive_rest_spec, literal_value, multiplicative_rest_spec, parse_additive_spec, parse_multiplicative_spec,
    parse_primary_spec, parse_unary_spec, Additive, Assignment, Expr, Multiplicative, Primary, Unary,
};
use crate::token::{CompileError, Token};

verus! {

/// Whether `v` is a value of a 32-bit signed integer.
pub open spec fn fits_i32(v: int) -> bool {
    i32::MIN <= v <= i32::MAX
}

/// Division that truncates toward zero, as `sdiv` does.
pub open spec fn trunc_div(a: int, b: int) -> int {
    let q = (if a < 0 { -a } else { a }) / (if b < 0 { -b } else { b });
    if (a < 0) == (b < 0) {
        q
    } else {
        -q
    }
}

/// The remainder that goes with `trunc_div`, as `srem` computes it.
pub open spec fn trunc_rem(a: int, b: int) -> int {
    a - b * trunc_div(a, b)
}

/// The value of an arithmetic instruction on two 32-bit values, or `None`
/// where the result overflows or a division is by zero.
pub open spec fn arith(op: BinOp, a: int, b: int) -> Option<int> {
    let v = match op {
        BinOp::Add => a + b,
        BinOp::Sub => a - b,
        BinOp::Mul => a * b,
        BinOp::SDiv => if b == 0 { 0 } else { trunc_div(a, b) },
        BinOp::SRem => if b == 0 { 0 } else { trunc_rem(a, b) },
    };
    if ((op is SDiv || op is SRem) && (b == 0 || !fits_i32(trunc_div(a, b)))) || !fits_i32(v) {
        None
    } else {
        Some(v)
    }
}

/// `arith` on two values that may be missing.
pub open spec fn arith_opt(op: BinOp, a: Option<int>, b: Option<int>) -> Option<int> {
    match (a, b) {
        (Some(x), Some(y)) => arith(op, x, y),
        _ => None,
    }
}

/// The value of an expression where each variable has the value `env` gives
/// it; `None` where a variable has none, or where the evaluation overflows or
/// divides by zero.
pub open spec fn expr_value<'a>(e: Expr<'a>, env: Map<Seq<char>, int>) -> Option<int>
    decreases e,
{
    match e {
        Expr::Assignment(a) => match *a {
            Assignment::Additive(x) => additive_value(*x, env),
        },
    }
}

pub open spec fn additive_value<'a>(a: Additive<'a>, env: Map<Seq<char>, int>) -> Option<int>
    decreases a,
{
    match a {
        Additive::Multiplicative(m) => multiplicative_value(*m, env),
        Additive::Add(l, r) => arith_opt(BinOp::Add, additive_value(*l, env), multiplicative_value(*r, env)),
        Additive::Sub(l, r) => arith_opt(BinOp::Sub, additive_value(*l, env), multiplicative_value(*r, env)),
    }
}

pub open spec fn multiplicative_value<'a>(m: Multiplicative<'a>, env: Map<Seq<char>, int>) -> Option<int>
    decreases m,
{
    match m {
        Multiplicative::Unary(u) => unary_value(*u, env),
        Multiplicative::Mul(l, r) => arith_opt(BinOp::Mul, multiplicative_value(*l, env), unary_value(*r, env)),
        Multiplicative::Div(l, r) => arith_opt(BinOp::SDiv, multiplicative_value(*l, env), unary_value(*r, env)),
        Multiplicative::Rem(l, r) => arith_opt(BinOp::SRem, multiplicative_value(*l, env), unary_value(*r, env)),
    }
}

pub open spec fn unary_value<'a>(u: Unary<'a>, env: Map<Seq<char>, int>) -> Option<int>
    decreases u,
{
    match u {
        Unary::Primary(p) => primary_value(*p, env),
        Unary::UnaryPlus(x) => unary_value(*x, env),
        Unary::UnaryMinus(x) => arith_opt(BinOp::Sub, Some(0), unary_value(*x, env)),
    }
}

pub open spec fn primary_value<'a>(p: Primary<'a>, env: Map<Seq<char>, int>) -> Option<int>
    decreases p,
{
    match p {
        Primary::Constant(c) => Some(c as int),
        Primary::Identifier(name) => if env.contains_key(name@) {
            Some(env[name@])
        } else {
            None
        },
        Primary::Paren(e) => expr_value(*e, env),
    }
}

/// An integer literal token whose value fits in an `i32`.
pub open spec fn is_int_literal<'a>(t: Token<'a>) -> bool {
    t is Literal && literal_value(t->Literal_0@) is Some
}

/// The value of an integer literal token.
pub open spec fn literal_of<'a>(t: Token<'a>) -> i32 {
    literal_value(t->Literal_0@)->Some_0
}

/// The unary expression of one literal.
pub open spec fn leaf<'a>(t: Token<'a>) -> Unary<'a> {
    Unary::Primary(Box::new(Primary::Constant(literal_of(t))))
}

/// The multiplicative expression of one literal.
pub open spec fn leaf_m<'a>(t: Token<'a>) -> Multiplicative<'a> {
    Multiplicative::Unary(Box::new(leaf(t)))
}

/// The operator that an additive or multiplicative token stands for.
pub open spec fn op_of<'a>(t: Token<'a>) -> BinOp {
    match t {
        Token::OpAdd => BinOp::Add,
        Token::OpSub => BinOp::Sub,
        Token::OpMul => BinOp::Mul,
        Token::OpDiv => BinOp::SDiv,
        _ => BinOp::SRem,
    }
}

pub open spec fn is_additive_op<'a>(t: Token<'a>) -> bool {
    t is OpAdd || t is OpSub
}

pub open spec fn is_multiplicative_op<'a>(t: Token<'a>) -> bool {
    t is OpMul || t is OpDiv || t is OpRem
}

/// The additive node of operator token `o`.
pub open spec fn additive_node<'a>(o: Token<'a>, l: Additive<'a>, r: Multiplicative<'a>) -> Additive<'a> {
    if o is OpAdd {
        Additive::Add(Box::new(l), Box::new(r))
    } else {
        Additive::Sub(Box::new(l), Box::new(r))
    }
}

/// The multiplicative node of operator token `o`.
pub open spec fn multiplicative_node<'a>(o: Token<'a>, l: Multiplicative<'a>, r: Unary<'a>) -> Multiplicative<'a> {
    if o is OpMul {
        Multiplicative::Mul(Box::new(l), Box::new(r))
    } else if o is OpDiv {
        Multiplicative::Div(Box::new(l), Box::new(r))
    } else {
        Multiplicative::Rem(Box::new(l), Box::new(r))
    }
}


/// A literal is a unary expression of its own.
pub proof fn lemma_literal_unary<'a>(ts: Seq<Token<'a>>)
    requires
        ts.len() > 0,
        is_int_literal(ts[0]),
    ensures
        parse_unary_spec(ts) == Ok::<(Unary<'a>, Seq<Token<'a>>), crate::token::CompileError<'a>>((leaf(ts[0]), ts.drop_first())),
{
    assert(parse_primary_spec(ts) == Ok::<(Primary<'a>, Seq<Token<'a>>), crate::token::CompileError<'a>>(
        (Primary::Constant(literal_of(ts[0])), ts.drop_first()),
    ));
}

/// A literal that no multiplicative operator follows is a multiplicative
/// expression of its own.
pub proof fn lemma_literal_multiplicative<'a>(ts: Seq<Token<'a>>)
    requires
        ts.len() > 0,
        is_int_literal(ts[0]),
        !(ts.len() > 1 && is_multiplicative_op(ts[1])),
    ensures
        parse_unary_spec(ts) == Ok::<(Unary<'a>, Seq<Token<'a>>), crate::token::CompileError<'a>>((leaf(ts[0]), ts.drop_first())),
        parse_multiplicative_spec(ts) == Ok::<(Multiplicative<'a>, Seq<Token<'a>>), crate::token::CompileError<'a>>(
            (leaf_m(ts[0]), ts.drop_first()),
        ),
{
    lemma_literal_unary(ts);
    let rest = ts.drop_first();
    assert(rest.len() > 0 ==> rest[0] == ts[1]);
    assert(multiplicative_rest_spec(leaf_m(ts[0]), rest) == Ok::<(Multiplicative<'a>, Seq<Token<'a>>), crate::token::CompileError<'a>>(
        (leaf_m(ts[0]), rest),
    ));
}

/// Additive operators associate to the left: `a - b - c` parses as
/// `(a - b) - c` and evaluates so, and likewise with `+`.
pub proof fn lemma_additive_left_associative<'a>(x: Token<'a>, o1: Token<'a>, y: Token<'a>, o2: Token<'a>, z: Token<'a>, env: Map<Seq<char>, int>)
    requires
        is_int_literal(x),
        is_int_literal(y),
        is_int_literal(z),
        is_additive_op(o1),
        is_additive_op(o2),
    ensures
        parse_additive_spec(seq![x, o1, y, o2, z]) == Ok::<(Additive<'a>, Seq<Token<'a>>), crate::token::CompileError<'a>>(
            (
                additive_node(o2, additive_node(o1, Additive::Multiplicative(Box::new(leaf_m(x))), leaf_m(y)), leaf_m(z)),
                Seq::empty(),
            ),
        ),
        additive_value(
            additive_node(o2, additive_node(o1, Additive::Multiplicative(Box::new(leaf_m(x))), leaf_m(y)), leaf_m(z)),
            env,
        ) == arith_opt(
            op_of(o2),
            arith(op_of(o1), literal_of(x) as int, literal_of(y) as int),
            Some(literal_of(z) as int),
        ),
{
    let ts = seq![x, o1, y, o2, z];
    let t1 = seq![o1, y, o2, z];
    let t2 = seq![y, o2, z];
    let t3 = seq![o2, z];
    let t4 = seq![z];
    assert(ts.drop_first() =~= t1);
    assert(t1.drop_first() =~= t2);
    assert(t2.drop_first() =~= t3);
    assert(t3.drop_first() =~= t4);
    assert(t4.drop_first() =~= Seq::<Token<'a>>::empty());
    lemma_literal_multiplicative(ts);
    lemma_literal_multiplicative(t2);
    lemma_literal_multiplicative(t4);
    let a1 = Additive::Multiplicative(Box::new(leaf_m(x)));
    let a2 = additive_node(o1, a1, leaf_m(y));
    let a3 = additive_node(o2, a2, leaf_m(z));
    assert(additive_rest_spec(a3, Seq::<Token<'a>>::empty()) == Ok::<(Additive<'a>, Seq<Token<'a>>), crate::token::CompileError<'a>>((a3, Seq::empty())));
    assert(additive_rest_spec(a2, t3) == additive_rest_spec(a3, Seq::<Token<'a>>::empty()));
    assert(additive_rest_spec(a1, t1) == additive_rest_spec(a2, t3));
    reveal_with_fuel(additive_value, 8);
    assert(additive_value(a1, env) == Some(literal_of(x) as int));
    assert(additive_value(a2, env) == arith(op_of(o1), literal_of(x) as int, literal_of(y) as int));
}

/// Multiplicative operators associate to the left: `a / b / c` parses as
/// `(a / b) / c` and evaluates so, and likewise with `*` and `%`.
pub proof fn lemma_multiplicative_left_associative<'a>(x: Token<'a>, o1: Token<'a>, y: Token<'a>, o2: Token<'a>, z: Token<'a>, env: Map<Seq<char>, int>)
    requires
        is_int_literal(x),
        is_int_literal(y),
        is_int_literal(z),
        is_multiplicative_op(o1),
        is_multiplicative_op(o2),
    ensures
        parse_multiplicative_spec(seq![x, o1, y, o2, z]) == Ok::<(Multiplicative<'a>, Seq<Token<'a>>), crate::token::CompileError<'a>>(
            (multiplicative_node(o2, multiplicative_node(o1, leaf_m(x), leaf(y)), leaf(z)), Seq::empty()),
        ),
        multiplicative_value(multiplicative_node(o2, multiplicative_node(o1, leaf_m(x), leaf(y)), leaf(z)), env)
            == arith_opt(
            op_of(o2),
            arith(op_of(o1), literal_of(x) as int, literal_of(y) as int),
            Some(literal_of(z) as int),
        ),
{
    let ts = seq![x, o1, y, o2, z];
    let t1 = seq![o1, y, o2, z];
    let t2 = seq![y, o2, z];
    let t3 = seq![o2, z];
    let t4 = seq![z];
    assert(ts.drop_first() =~= t1);
    assert(t1.drop_first() =~= t2);
    assert(t2.drop_first() =~= t3);
    assert(t3.drop_first() =~= t4);
    assert(t4.drop_first() =~= Seq::<Token<'a>>::empty());
    lemma_literal_unary(ts);
    lemma_literal_unary(t2);
    lemma_literal_unary(t4);
    let m1 = leaf_m(x);
    let m2 = multiplicative_node(o1, m1, leaf(y));
    let m3 = multiplicative_node(o2, m2, leaf(z));
    assert(multiplicative_rest_spec(m3, Seq::<Token<'a>>::empty()) == Ok::<(Multiplicative<'a>, Seq<Token<'a>>), crate::token::CompileError<'a>>((m3, Seq::empty())));
    assert(multiplicative_rest_spec(m2, t3) == multiplicative_rest_spec(m3, Seq::<Token<'a>>::empty()));
    assert(multiplicative_rest_spec(m1, t1) == multiplicative_rest_spec(m2, t3));
    reveal_with_fuel(multiplicative_value, 8);
    assert(multiplicative_value(m1, env) == Some(literal_of(x) as int));
    assert(multiplicative_value(m2, env) == arith(op_of(o1), literal_of(x) as int, literal_of(y) as int));
}


/// `x o y` followed by `rest`, with `o` multiplicative and no multiplicative
/// operator at the head of `rest`, is one multiplicative expression.
pub proof fn lemma_multiplicative_pair<'a>(x: Token<'a>, o: Token<'a>, y: Token<'a>, rest: Seq<Token<'a>>)
    requires
        is_int_literal(x),
        is_int_literal(y),
        is_multiplicative_op(o),
        !(rest.len() > 0 && is_multiplicative_op(rest[0])),
    ensures
        parse_multiplicative_spec(seq![x, o, y] + rest) == Ok::<(Multiplicative<'a>, Seq<Token<'a>>), CompileError<'a>>(
            (multiplicative_node(o, leaf_m(x), leaf(y)), rest),
        ),
{
    let ts = seq![x, o, y] + rest;
    let t1 = seq![o, y] + rest;
    let t2 = seq![y] + rest;
    assert(ts.drop_first() =~= t1);
    assert(t1.drop_first() =~= t2);
    assert(t2.drop_first() =~= rest);
    lemma_literal_unary(ts);
    lemma_literal_unary(t2);
    let m2 = multiplicative_node(o, leaf_m(x), leaf(y));
    assert(multiplicative_rest_spec(m2, rest) == Ok::<(Multiplicative<'a>, Seq<Token<'a>>), CompileError<'a>>((m2, rest)));
    assert(multiplicative_rest_spec(leaf_m(x), t1) == multiplicative_rest_spec(m2, rest));
}

/// The value of a literal, at each level of the grammar.
pub proof fn lemma_leaf_value<'a>(x: Token<'a>, env: Map<Seq<char>, int>)
    ensures
        unary_value(leaf(x), env) == Some(literal_of(x) as int),
        multiplicative_value(leaf_m(x), env) == Some(literal_of(x) as int),
        additive_value(Additive::Multiplicative(Box::new(leaf_m(x))), env) == Some(literal_of(x) as int),
{
    reveal_with_fuel(additive_value, 4);
}

/// `*`, `/` and `%` bind tighter than `+` and `-` on their right:
/// `a + b * c` parses as `a + (b * c)` and evaluates so.
pub proof fn lemma_multiplicative_binds_tighter_right<'a>(x: Token<'a>, o1: Token<'a>, y: Token<'a>, o2: Token<'a>, z: Token<'a>, env: Map<Seq<char>, int>)
    requires
        is_int_literal(x),
        is_int_literal(y),
        is_int_literal(z),
        is_additive_op(o1),
        is_multiplicative_op(o2),
    ensures
        parse_additive_spec(seq![x, o1, y, o2, z]) == Ok::<(Additive<'a>, Seq<Token<'a>>), CompileError<'a>>(
            (
                additive_node(o1, Additive::Multiplicative(Box::new(leaf_m(x))), multiplicative_node(o2, leaf_m(y), leaf(z))),
                Seq::empty(),
            ),
        ),
        additive_value(
            additive_node(o1, Additive::Multiplicative(Box::new(leaf_m(x))), multiplicative_node(o2, leaf_m(y), leaf(z))),
            env,
        ) == arith_opt(op_of(o1), Some(literal_of(x) as int), arith(op_of(o2), literal_of(y) as int, literal_of(z) as int)),
{
    let ts = seq![x, o1, y, o2, z];
    let t1 = seq![o1, y, o2, z];
    assert(ts.drop_first() =~= t1);
    lemma_literal_multiplicative(ts);
    assert(t1.drop_first() =~= seq![y, o2, z] + Seq::<Token<'a>>::empty());
    lemma_multiplicative_pair(y, o2, z, Seq::empty());
    let a1 = Additive::Multiplicative(Box::new(leaf_m(x)));
    let m = multiplicative_node(o2, leaf_m(y), leaf(z));
    let a2 = additive_node(o1, a1, m);
    assert(additive_rest_spec(a2, Seq::<Token<'a>>::empty()) == Ok::<(Additive<'a>, Seq<Token<'a>>), CompileError<'a>>((a2, Seq::empty())));
    assert(additive_rest_spec(a1, t1) == additive_rest_spec(a2, Seq::<Token<'a>>::empty()));
    lemma_leaf_value(x, env);
    lemma_leaf_value(y, env);
    lemma_leaf_value(z, env);
    assert(multiplicative_value(m, env) == arith(op_of(o2), literal_of(y) as int, literal_of(z) as int));
}

/// `*`, `/` and `%` bind tighter than `+` and `-` on their left:
/// `a * b + c` parses as `(a * b) + c` and evaluates so.
pub proof fn lemma_multiplicative_binds_tighter_left<'a>(x: Token<'a>, o2: Token<'a>, y: Token<'a>, o1: Token<'a>, z: Token<'a>, env: Map<Seq<char>, int>)
    requires
        is_int_literal(x),
        is_int_literal(y),
        is_int_literal(z),
        is_additive_op(o1),
        is_multiplicative_op(o2),
    ensures
        parse_additive_spec(seq![x, o2, y, o1, z]) == Ok::<(Additive<'a>, Seq<Token<'a>>), CompileError<'a>>(
            (
                additive_node(o1, Additive::Multiplicative(Box::new(multiplicative_node(o2, leaf_m(x), leaf(y)))), leaf_m(z)),
                Seq::empty(),
            ),
        ),
        additive_value(
            additive_node(o1, Additive::Multiplicative(Box::new(multiplicative_node(o2, leaf_m(x), leaf(y)))), leaf_m(z)),
            env,
        ) == arith_opt(op_of(o1), arith(op_of(o2), literal_of(x) as int, literal_of(y) as int), Some(literal_of(z) as int)),
{
    let us = seq![x, o2, y, o1, z];
    let u3 = seq![o1, z];
    assert(us =~= seq![x, o2, y] + u3);
    lemma_multiplicative_pair(x, o2, y, u3);
    assert(u3.drop_first() =~= seq![z]);
    lemma_literal_multiplicative(seq![z]);
    assert(seq![z].drop_first() =~= Seq::<Token<'a>>::empty());
    let m = multiplicative_node(o2, leaf_m(x), leaf(y));
    let b1 = Additive::Multiplicative(Box::new(m));
    let b2 = additive_node(o1, b1, leaf_m(z));
    assert(additive_rest_spec(b2, Seq::<Token<'a>>::empty()) == Ok::<(Additive<'a>, Seq<Token<'a>>), CompileError<'a>>((b2, Seq::empty())));
    assert(additive_rest_spec(b1, u3) == additive_rest_spec(b2, Seq::<Token<'a>>::empty()));
    lemma_leaf_value(x, env);
    lemma_leaf_value(y, env);
    lemma_leaf_value(z, env);
    assert(multiplicative_value(m, env) == arith(op_of(o2), literal_of(x) as int, literal_of(y) as int));
    assert(additive_value(b1, env) == multiplicative_value(m, env));
}

/// The unary node of operator token `un` (`+` or `-`).
pub open spec fn unary_node<'a>(un: Token<'a>, u: Unary<'a>) -> Unary<'a> {
    if un is OpAdd {
        Unary::UnaryPlus(Box::new(u))
    } else {
        Unary::UnaryMinus(Box::new(u))
    }
}

/// The value of unary operator token `un` applied to `v`.
pub open spec fn unary_op_value<'a>(un: Token<'a>, v: int) -> Option<int> {
    if un is OpAdd {
        Some(v)
    } else {
        arith(BinOp::Sub, 0, v)
    }
}

/// A unary operator and the literal it applies to, at the head of `ts`.
pub proof fn lemma_unary_literal<'a>(un: Token<'a>, x: Token<'a>, rest: Seq<Token<'a>>, env: Map<Seq<char>, int>)
    requires
        is_additive_op(un),
        is_int_literal(x),
    ensures
        parse_unary_spec(seq![un, x] + rest) == Ok::<(Unary<'a>, Seq<Token<'a>>), CompileError<'a>>((unary_node(un, leaf(x)), rest)),
        unary_value(unary_node(un, leaf(x)), env) == unary_op_value(un, literal_of(x) as int),
{
    let ts = seq![un, x] + rest;
    let t1 = seq![x] + rest;
    assert(ts.drop_first() =~= t1);
    assert(t1.drop_first() =~= rest);
    lemma_literal_unary(t1);
    lemma_leaf_value(x, env);
}

/// Unary `+` and `-` bind tighter than `*`, `/` and `%`: `-a * b` parses as
/// `(-a) * b` and evaluates so.
pub proof fn lemma_unary_binds_tighter_than_multiplicative<'a>(un: Token<'a>, x: Token<'a>, o: Token<'a>, y: Token<'a>, env: Map<Seq<char>, int>)
    requires
        is_additive_op(un),
        is_int_literal(x),
        is_int_literal(y),
        is_multiplicative_op(o),
    ensures
        parse_multiplicative_spec(seq![un, x, o, y]) == Ok::<(Multiplicative<'a>, Seq<Token<'a>>), CompileError<'a>>(
            (multiplicative_node(o, Multiplicative::Unary(Box::new(unary_node(un, leaf(x)))), leaf(y)), Seq::empty()),
        ),
        multiplicative_value(multiplicative_node(o, Multiplicative::Unary(Box::new(unary_node(un, leaf(x)))), leaf(y)), env)
            == arith_opt(op_of(o), unary_op_value(un, literal_of(x) as int), Some(literal_of(y) as int)),
{
    let t2 = seq![o, y];
    let t3 = seq![y];
    assert(seq![un, x, o, y] =~= seq![un, x] + t2);
    assert(t2.drop_first() =~= t3);
    assert(t3.drop_first() =~= Seq::<Token<'a>>::empty());
    lemma_unary_literal(un, x, t2, env);
    lemma_literal_unary(t3);
    let m1 = Multiplicative::Unary(Box::new(unary_node(un, leaf(x))));
    let m2 = multiplicative_node(o, m1, leaf(y));
    assert(multiplicative_rest_spec(m2, Seq::<Token<'a>>::empty()) == Ok::<(Multiplicative<'a>, Seq<Token<'a>>), CompileError<'a>>((m2, Seq::empty())));
    assert(multiplicative_rest_spec(m1, t2) == multiplicative_rest_spec(m2, Seq::<Token<'a>>::empty()));
    lemma_leaf_value(y, env);
    assert(multiplicative_value(m1, env) == unary_value(unary_node(un, leaf(x)), env));
}

/// Unary `+` and `-` bind tighter than binary `+` and `-`: `-a + b` parses
/// as `(-a) + b` and evaluates so.
pub proof fn lemma_unary_binds_tighter_than_additive<'a>(un: Token<'a>, x: Token<'a>, o: Token<'a>, y: Token<'a>, env: Map<Seq<char>, int>)
    requires
        is_additive_op(un),
        is_int_literal(x),
        is_int_literal(y),
        is_additive_op(o),
    ensures
        parse_additive_spec(seq![un, x, o, y]) == Ok::<(Additive<'a>, Seq<Token<'a>>), CompileError<'a>>(
            (
                additive_node(o, Additive::Multiplicative(Box::new(Multiplicative::Unary(Box::new(unary_node(un, leaf(x)))))), leaf_m(y)),
                Seq::empty(),
            ),
        ),
        additive_value(
            additive_node(o, Additive::Multiplicative(Box::new(Multiplicative::Unary(Box::new(unary_node(un, leaf(x)))))), leaf_m(y)),
            env,
        ) == arith_opt(op_of(o), unary_op_value(un, literal_of(x) as int), Some(literal_of(y) as int)),
{
    let t2 = seq![o, y];
    let t3 = seq![y];
    assert(seq![un, x, o, y] =~= seq![un, x] + t2);
    assert(t2.drop_first() =~= t3);
    assert(t3.drop_first() =~= Seq::<Token<'a>>::empty());
    lemma_unary_literal(un, x, t2, env);
    let m1 = Multiplicative::Unary(Box::new(unary_node(un, leaf(x))));
    assert(multiplicative_rest_spec(m1, t2) == Ok::<(Multiplicative<'a>, Seq<Token<'a>>), CompileError<'a>>((m1, t2)));
    assert(parse_multiplicative_spec(seq![un, x, o, y]) == Ok::<(Multiplicative<'a>, Seq<Token<'a>>), CompileError<'a>>((m1, t2)));
    lemma_literal_multiplicative(t3);
    let a1 = Additive::Multiplicative(Box::new(m1));
    let a2 = additive_node(o, a1, leaf_m(y));
    assert(additive_rest_spec(a2, Seq::<Token<'a>>::empty()) == Ok::<(Additive<'a>, Seq<Token<'a>>), CompileError<'a>>((a2, Seq::empty())));
    assert(additive_rest_spec(a1, t2) == additive_rest_spec(a2, Seq::<Token<'a>>::empty()));
    lemma_leaf_value(y, env);
    assert(multiplicative_value(m1, env) == unary_value(unary_node(un, leaf(x)), env));
    assert(additive_value(a1, env) == multiplicative_value(m1, env));
}

/// Parentheses override precedence: `(a + b) * c` parses as the product of
/// the parenthesised sum and `c`, and evaluates so.
pub proof fn lemma_parentheses_override<'a>(x: Token<'a>, o1: Token<'a>, y: Token<'a>, o2: Token<'a>, z: Token<'a>, env: Map<Seq<char>, int>)
    requires
        is_int_literal(x),
        is_int_literal(y),
        is_int_literal(z),
        is_additive_op(o1),
        is_multiplicative_op(o2),
    ensures
        parse_multiplicative_spec(seq![Token::SyLPar, x, o1, y, Token::SyRPar, o2, z]) == Ok::<(Multiplicative<'a>, Seq<Token<'a>>), CompileError<'a>>(
            (
                multiplicative_node(
                    o2,
                    Multiplicative::Unary(Box::new(Unary::Primary(Box::new(Primary::Paren(Box::new(
                        Expr::Assignment(Box::new(Assignment::Additive(Box::new(
                            additive_node(o1, Additive::Multiplicative(Box::new(leaf_m(x))), leaf_m(y)),
                        )))),
                    )))))),
                    leaf(z),
                ),
                Seq::empty(),
            ),
        ),
        multiplicative_value(
            multiplicative_node(
                o2,
                Multiplicative::Unary(Box::new(Unary::Primary(Box::new(Primary::Paren(Box::new(
                    Expr::Assignment(Box::new(Assignment::Additive(Box::new(
                        additive_node(o1, Additive::Multiplicative(Box::new(leaf_m(x))), leaf_m(y)),
                    )))),
                )))))),
                leaf(z),
            ),
            env,
        ) == arith_opt(op_of(o2), arith(op_of(o1), literal_of(x) as int, literal_of(y) as int), Some(literal_of(z) as int)),
{
    let ts = seq![Token::SyLPar, x, o1, y, Token::SyRPar, o2, z];
    let inner = seq![x, o1, y, Token::SyRPar, o2, z];
    let i1 = seq![o1, y, Token::SyRPar, o2, z];
    let i2 = seq![y, Token::SyRPar, o2, z];
    let close = seq![Token::SyRPar, o2, z];
    let after = seq![o2, z];
    let last = seq![z];
    assert(ts.drop_first() =~= inner);
    assert(inner.drop_first() =~= i1);
    assert(i1.drop_first() =~= i2);
    assert(i2.drop_first() =~= close);
    assert(close.drop_first() =~= after);
    assert(after.drop_first() =~= last);
    assert(last.drop_first() =~= Seq::<Token<'a>>::empty());
    lemma_literal_multiplicative(inner);
    lemma_literal_multiplicative(i2);
    lemma_literal_unary(last);
    let a1 = Additive::Multiplicative(Box::new(leaf_m(x)));
    let a2 = additive_node(o1, a1, leaf_m(y));
    assert(additive_rest_spec(a2, close) == Ok::<(Additive<'a>, Seq<Token<'a>>), CompileError<'a>>((a2, close)));
    assert(additive_rest_spec(a1, i1) == additive_rest_spec(a2, close));
    assert(parse_additive_spec(inner) == Ok::<(Additive<'a>, Seq<Token<'a>>), CompileError<'a>>((a2, close)));
    let e = Expr::Assignment(Box::new(Assignment::Additive(Box::new(a2))));
    assert(super::expr::parse_expr_spec(inner) == Ok::<(Expr<'a>, Seq<Token<'a>>), CompileError<'a>>((e, close)));
    let p = Primary::Paren(Box::new(e));
    assert(parse_primary_spec(ts) == Ok::<(Primary<'a>, Seq<Token<'a>>), CompileError<'a>>((p, after)));
    let m1 = Multiplicative::Unary(Box::new(Unary::Primary(Box::new(p))));
    let m2 = multiplicative_node(o2, m1, leaf(z));
    assert(multiplicative_rest_spec(m2, Seq::<Token<'a>>::empty()) == Ok::<(Multiplicative<'a>, Seq<Token<'a>>), CompileError<'a>>((m2, Seq::empty())));
    assert(multiplicative_rest_spec(m1, after) == multiplicative_rest_spec(m2, Seq::<Token<'a>>::empty()));
    lemma_leaf_value(x, env);
    lemma_leaf_value(y, env);
    lemma_leaf_value(z, env);
    assert(additive_value(a2, env) == arith(op_of(o1), literal_of(x) as int, literal_of(y) as int));
    assert(expr_value(e, env) == additive_value(a2, env));
    assert(primary_value(p, env) == expr_value(e, env));
    assert(unary_value(Unary::Primary(Box::new(p)), env) == primary_value(p, env));
    assert(multiplicative_value(m1, env) == unary_value(Unary::Primary(Box::new(p)), env));
}

} // verus!
