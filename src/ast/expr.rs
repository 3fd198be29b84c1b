use vstd::prelude::*;

use super::code_gen_state::{
    lemma_numbered_concat, lemma_single_inst, lemma_slots_concat, lookup, numbered_from, slots_consumed, BinOp, CodeGenState, Inst,
    Operand, Variable,
};
use crate::token::{is_literal_text, CompileError, Expected, Token, Tokens};

verus! {

/// `<expr> ::= <assignment>`
#[derive(Debug)]
pub enum Expr<'a> {
    Assignment(Box<Assignment<'a>>),
}

/// `<assignment> ::= <additive>`; the assignment operator is reserved and
/// rejected.
#[derive(Debug)]
pub enum Assignment<'a> {
    Additive(Box<Additive<'a>>),
}

/// `<additive> ::= <multiplicative> (("+" | "-") <multiplicative>)*`, built
/// left-associative.
#[derive(Debug)]
pub enum Additive<'a> {
    Multiplicative(Box<Multiplicative<'a>>),
    Add(Box<Additive<'a>>, Box<Multiplicative<'a>>),
    Sub(Box<Additive<'a>>, Box<Multiplicative<'a>>),
}

/// `<multiplicative> ::= <unary> (("*" | "/" | "%") <unary>)*`, built
/// left-associative.
#[derive(Debug)]
pub enum Multiplicative<'a> {
    Unary(Box<Unary<'a>>),
    Mul(Box<Multiplicative<'a>>, Box<Unary<'a>>),
    Div(Box<Multiplicative<'a>>, Box<Unary<'a>>),
    Rem(Box<Multiplicative<'a>>, Box<Unary<'a>>),
}

/// `<unary> ::= ("+" | "-") <unary> | <primary>`
#[derive(Debug)]
pub enum Unary<'a> {
    Primary(Box<Primary<'a>>),
    UnaryPlus(Box<Unary<'a>>),
    UnaryMinus(Box<Unary<'a>>),
}

/// `<primary> ::= INT_LITERAL | IDENT | "(" <expr> ")"`
#[derive(Debug)]
pub enum Primary<'a> {
    Constant(i32),
    Identifier(&'a str),
    Paren(Box<Expr<'a>>),
}

/// What a missing closing parenthesis is reported with.
pub const UNMATCHED_PAREN: &'static str = "no matching parens for primary expression.";

/// What a parse returns: the tree and the tokens after it, or an error.
pub type Parsed<'a, T> = Result<(T, Seq<Token<'a>>), CompileError<'a>>;

/// A parse result as the specification functions state it, from what an
/// executable parser returned and the tokens it left.
pub open spec fn outcome<'a, T>(r: Result<T, CompileError<'a>>, rest: Seq<Token<'a>>) -> Parsed<'a, T> {
    match r {
        Ok(v) => Ok((v, rest)),
        Err(e) => Err(e),
    }
}

/// The value of a sequence of decimal digits.
pub open spec fn digits_value(s: Seq<char>) -> nat
    decreases s.len(),
{
    if s.len() == 0 {
        0
    } else {
        digits_value(s.drop_last()) * 10 + (s.last() as nat - '0' as nat) as nat
    }
}

/// The value of an integer literal, where it is one and fits in an `i32`.
pub open spec fn literal_value(s: Seq<char>) -> Option<i32> {
    if is_literal_text(s) && digits_value(s) <= i32::MAX {
        Some(digits_value(s) as i32)
    } else {
        None
    }
}

/// `<expr> ::= <assignment>` at the head of `ts`.
pub open spec fn parse_expr_spec<'a>(ts: Seq<Token<'a>>) -> Parsed<'a, Expr<'a>>
    decreases ts.len(), 8nat,
{
    match parse_assignment_spec(ts) {
        Ok((a, rest)) => Ok((Expr::Assignment(Box::new(a)), rest)),
        Err(e) => Err(e),
    }
}

/// `<assignment> ::= <additive>` at the head of `ts`; an `=` after it is
/// rejected.
pub open spec fn parse_assignment_spec<'a>(ts: Seq<Token<'a>>) -> Parsed<'a, Assignment<'a>>
    decreases ts.len(), 7nat,
{
    match parse_additive_spec(ts) {
        Ok((a, rest)) => {
            if rest.len() > 0 && rest[0] is OpAssign {
                Err(CompileError::AssignmentUnsupported)
            } else {
                Ok((Assignment::Additive(Box::new(a)), rest))
            }
        },
        Err(e) => Err(e),
    }
}

/// `<additive>` at the head of `ts`: a multiplicative operand, extended to
/// the left by each further operator and operand.
pub open spec fn parse_additive_spec<'a>(ts: Seq<Token<'a>>) -> Parsed<'a, Additive<'a>>
    decreases ts.len(), 6nat,
{
    match parse_multiplicative_spec(ts) {
        Ok((m, rest)) => {
            if rest.len() <= ts.len() {
                additive_rest_spec(Additive::Multiplicative(Box::new(m)), rest)
            } else {
                Err(CompileError::Unexpected { expected: Expected::Primary, found: None })
            }
        },
        Err(e) => Err(e),
    }
}

/// Extends `lhs` by each following `+` or `-` and multiplicative operand.
pub open spec fn additive_rest_spec<'a>(lhs: Additive<'a>, ts: Seq<Token<'a>>) -> Parsed<'a, Additive<'a>>
    decreases ts.len(), 5nat,
{
    if ts.len() > 0 && (ts[0] is OpAdd || ts[0] is OpSub) {
        match parse_multiplicative_spec(ts.drop_first()) {
            Ok((m, rest)) => {
                let next = if ts[0] is OpAdd {
                    Additive::Add(Box::new(lhs), Box::new(m))
                } else {
                    Additive::Sub(Box::new(lhs), Box::new(m))
                };
                if rest.len() < ts.len() {
                    additive_rest_spec(next, rest)
                } else {
                    Err(CompileError::Unexpected { expected: Expected::Primary, found: None })
                }
            },
            Err(e) => Err(e),
        }
    } else {
        Ok((lhs, ts))
    }
}

/// `<multiplicative>` at the head of `ts`: a unary operand, extended to the
/// left by each further operator and operand.
pub open spec fn parse_multiplicative_spec<'a>(ts: Seq<Token<'a>>) -> Parsed<'a, Multiplicative<'a>>
    decreases ts.len(), 4nat,
{
    match parse_unary_spec(ts) {
        Ok((u, rest)) => {
            if rest.len() <= ts.len() {
                multiplicative_rest_spec(Multiplicative::Unary(Box::new(u)), rest)
            } else {
                Err(CompileError::Unexpected { expected: Expected::Primary, found: None })
            }
        },
        Err(e) => Err(e),
    }
}

/// Extends `lhs` by each following `*`, `/` or `%` and unary operand.
pub open spec fn multiplicative_rest_spec<'a>(lhs: Multiplicative<'a>, ts: Seq<Token<'a>>) -> Parsed<'a, Multiplicative<'a>>
    decreases ts.len(), 3nat,
{
    if ts.len() > 0 && (ts[0] is OpMul || ts[0] is OpDiv || ts[0] is OpRem) {
        match parse_unary_spec(ts.drop_first()) {
            Ok((u, rest)) => {
                let next = if ts[0] is OpMul {
                    Multiplicative::Mul(Box::new(lhs), Box::new(u))
                } else if ts[0] is OpDiv {
                    Multiplicative::Div(Box::new(lhs), Box::new(u))
                } else {
                    Multiplicative::Rem(Box::new(lhs), Box::new(u))
                };
                if rest.len() < ts.len() {
                    multiplicative_rest_spec(next, rest)
                } else {
                    Err(CompileError::Unexpected { expected: Expected::Primary, found: None })
                }
            },
            Err(e) => Err(e),
        }
    } else {
        Ok((lhs, ts))
    }
}

/// `<unary>` at the head of `ts`.
pub open spec fn parse_unary_spec<'a>(ts: Seq<Token<'a>>) -> Parsed<'a, Unary<'a>>
    decreases ts.len(), 2nat,
{
    if ts.len() > 0 && ts[0] is OpAdd {
        match parse_unary_spec(ts.drop_first()) {
            Ok((u, rest)) => Ok((Unary::UnaryPlus(Box::new(u)), rest)),
            Err(e) => Err(e),
        }
    } else if ts.len() > 0 && ts[0] is OpSub {
        match parse_unary_spec(ts.drop_first()) {
            Ok((u, rest)) => Ok((Unary::UnaryMinus(Box::new(u)), rest)),
            Err(e) => Err(e),
        }
    } else {
        match parse_primary_spec(ts) {
            Ok((p, rest)) => Ok((Unary::Primary(Box::new(p)), rest)),
            Err(e) => Err(e),
        }
    }
}

/// `<primary>` at the head of `ts`.
pub open spec fn parse_primary_spec<'a>(ts: Seq<Token<'a>>) -> Parsed<'a, Primary<'a>>
    decreases ts.len(), 1nat,
{
    if ts.len() == 0 {
        Err(CompileError::Unexpected { expected: Expected::Primary, found: None })
    } else {
        match ts[0] {
            Token::Literal(s) => match literal_value(s@) {
                Some(v) => Ok((Primary::Constant(v), ts.drop_first())),
                None => Err(CompileError::LiteralOutOfRange(s)),
            },
            Token::Ident(s) => Ok((Primary::Identifier(s), ts.drop_first())),
            Token::SyLPar => match parse_expr_spec(ts.drop_first()) {
                Ok((e, rest)) => {
                    if rest.len() > 0 && rest[0] is SyRPar {
                        Ok((Primary::Paren(Box::new(e)), rest.drop_first()))
                    } else {
                        Err(
                            CompileError::Syntax {
                                message: UNMATCHED_PAREN,
                                found: if rest.len() > 0 { Some(rest[0]) } else { None },
                            },
                        )
                    }
                },
                Err(e) => Err(e),
            },
            other => Err(CompileError::Unexpected { expected: Expected::Primary, found: Some(other) }),
        }
    }
}


pub proof fn lemma_digits_prefix(s: Seq<char>, i: int)
    requires
        0 <= i <= s.len(),
        forall|j: int| 0 <= j < s.len() ==> crate::token::is_digit(#[trigger] s[j]),
    ensures
        digits_value(s.subrange(0, i)) <= digits_value(s),
    decreases s.len() - i,
{
    if i < s.len() {
        lemma_digits_prefix(s, i + 1);
        assert(s.subrange(0, i + 1).drop_last() =~= s.subrange(0, i));
    } else {
        assert(s.subrange(0, i) =~= s);
    }
}

/// The value of an integer literal's text, where it is a decimal number that
/// fits in an `i32`.
pub fn parse_literal(s: &str) -> (r: Option<i32>)
    ensures
        r == literal_value(s@),
{
    let n = s.unicode_len();
    if n == 0 {
        return None;
    }
    let mut acc: u64 = 0;
    let mut i: usize = 0;
    while i < n
        invariant
            n == s@.len(),
            0 < n,
            i <= n,
            acc == digits_value(s@.subrange(0, i as int)),
            acc <= i32::MAX,
            forall|j: int| 0 <= j < i ==> crate::token::is_digit(#[trigger] s@[j]),
        decreases n - i,
    {
        let c = s.get_char(i);
        if !('0' <= c && c <= '9') {
            return None;
        }
        assert(s@.subrange(0, i + 1).drop_last() =~= s@.subrange(0, i as int));
        acc = acc * 10 + ((c as u32) - ('0' as u32)) as u64;
        i = i + 1;
        if acc > i32::MAX as u64 {
            proof {
                if forall|j: int| 0 <= j < s@.len() ==> crate::token::is_digit(#[trigger] s@[j]) {
                    lemma_digits_prefix(s@, i as int);
                }
            }
            return None;
        }
    }
    assert(s@.subrange(0, n as int) =~= s@);
    Some(acc as i32)
}

impl<'a> Expr<'a> {
    pub fn parse(tokens: &mut Tokens<'a>) -> (r: Result<Expr<'a>, CompileError<'a>>)
        ensures
            outcome(r, final(tokens)@) == parse_expr_spec(old(tokens)@),
            final(tokens)@.len() <= old(tokens)@.len(),
        decreases old(tokens)@.len(), 8nat,
    {
        match Assignment::parse(tokens) {
            Ok(a) => Ok(Expr::Assignment(Box::new(a))),
            Err(e) => Err(e),
        }
    }
}

impl<'a> Assignment<'a> {
    pub fn parse(tokens: &mut Tokens<'a>) -> (r: Result<Assignment<'a>, CompileError<'a>>)
        ensures
            outcome(r, final(tokens)@) == parse_assignment_spec(old(tokens)@),
            final(tokens)@.len() <= old(tokens)@.len(),
        decreases old(tokens)@.len(), 7nat,
    {
        let lhs = match Additive::parse(tokens) {
            Ok(a) => a,
            Err(e) => return Err(e),
        };
        match tokens.peek() {
            Some(Token::OpAssign) => Err(CompileError::AssignmentUnsupported),
            _ => Ok(Assignment::Additive(Box::new(lhs))),
        }
    }
}

impl<'a> Additive<'a> {
    pub fn parse(tokens: &mut Tokens<'a>) -> (r: Result<Additive<'a>, CompileError<'a>>)
        ensures
            outcome(r, final(tokens)@) == parse_additive_spec(old(tokens)@),
            final(tokens)@.len() <= old(tokens)@.len(),
        decreases old(tokens)@.len(), 6nat,
    {
        let lhs = match Multiplicative::parse(tokens) {
            Ok(m) => m,
            Err(e) => return Err(e),
        };
        Additive::parse_additive_dash(Additive::Multiplicative(Box::new(lhs)), tokens)
    }

    /// Extends `lhs` by each following `+` or `-` and multiplicative operand,
    /// so that the tree leans left.
    fn parse_additive_dash(first: Additive<'a>, tokens: &mut Tokens<'a>) -> (r: Result<Additive<'a>, CompileError<'a>>)
        ensures
            outcome(r, final(tokens)@) == additive_rest_spec(first, old(tokens)@),
            final(tokens)@.len() <= old(tokens)@.len(),
        decreases old(tokens)@.len(), 5nat,
    {
        let mut lhs = first;
        loop
            invariant
                additive_rest_spec(lhs, tokens@) == additive_rest_spec(first, old(tokens)@),
                tokens@.len() <= old(tokens)@.len(),
            decreases tokens@.len(),
        {
            match tokens.peek() {
                Some(Token::OpAdd) => {
                    tokens.next();
                    let rhs = match Multiplicative::parse(tokens) {
                        Ok(m) => m,
                        Err(e) => return Err(e),
                    };
                    lhs = Additive::Add(Box::new(lhs), Box::new(rhs));
                },
                Some(Token::OpSub) => {
                    tokens.next();
                    let rhs = match Multiplicative::parse(tokens) {
                        Ok(m) => m,
                        Err(e) => return Err(e),
                    };
                    lhs = Additive::Sub(Box::new(lhs), Box::new(rhs));
                },
                _ => return Ok(lhs),
            }
        }
    }
}

impl<'a> Multiplicative<'a> {
    pub fn parse(tokens: &mut Tokens<'a>) -> (r: Result<Multiplicative<'a>, CompileError<'a>>)
        ensures
            outcome(r, final(tokens)@) == parse_multiplicative_spec(old(tokens)@),
            final(tokens)@.len() <= old(tokens)@.len(),
        decreases old(tokens)@.len(), 4nat,
    {
        let lhs = match Unary::parse(tokens) {
            Ok(u) => u,
            Err(e) => return Err(e),
        };
        Multiplicative::parse_multiplicative_dash(Multiplicative::Unary(Box::new(lhs)), tokens)
    }

    /// Extends `lhs` by each following `*`, `/` or `%` and unary operand, so
    /// that the tree leans left.
    fn parse_multiplicative_dash(first: Multiplicative<'a>, tokens: &mut Tokens<'a>) -> (r: Result<Multiplicative<'a>, CompileError<'a>>)
        ensures
            outcome(r, final(tokens)@) == multiplicative_rest_spec(first, old(tokens)@),
            final(tokens)@.len() <= old(tokens)@.len(),
        decreases old(tokens)@.len(), 3nat,
    {
        let mut lhs = first;
        loop
            invariant
                multiplicative_rest_spec(lhs, tokens@) == multiplicative_rest_spec(first, old(tokens)@),
                tokens@.len() <= old(tokens)@.len(),
            decreases tokens@.len(),
        {
            match tokens.peek() {
                Some(Token::OpMul) => {
                    tokens.next();
                    let rhs = match Unary::parse(tokens) {
                        Ok(u) => u,
                        Err(e) => return Err(e),
                    };
                    lhs = Multiplicative::Mul(Box::new(lhs), Box::new(rhs));
                },
                Some(Token::OpDiv) => {
                    tokens.next();
                    let rhs = match Unary::parse(tokens) {
                        Ok(u) => u,
                        Err(e) => return Err(e),
                    };
                    lhs = Multiplicative::Div(Box::new(lhs), Box::new(rhs));
                },
                Some(Token::OpRem) => {
                    tokens.next();
                    let rhs = match Unary::parse(tokens) {
                        Ok(u) => u,
                        Err(e) => return Err(e),
                    };
                    lhs = Multiplicative::Rem(Box::new(lhs), Box::new(rhs));
                },
                _ => return Ok(lhs),
            }
        }
    }
}

impl<'a> Unary<'a> {
    pub fn parse(tokens: &mut Tokens<'a>) -> (r: Result<Unary<'a>, CompileError<'a>>)
        ensures
            outcome(r, final(tokens)@) == parse_unary_spec(old(tokens)@),
            final(tokens)@.len() <= old(tokens)@.len(),
        decreases old(tokens)@.len(), 2nat,
    {
        match tokens.peek() {
            Some(Token::OpAdd) => {
                tokens.next();
                match Unary::parse(tokens) {
                    Ok(u) => Ok(Unary::UnaryPlus(Box::new(u))),
                    Err(e) => Err(e),
                }
            },
            Some(Token::OpSub) => {
                tokens.next();
                match Unary::parse(tokens) {
                    Ok(u) => Ok(Unary::UnaryMinus(Box::new(u))),
                    Err(e) => Err(e),
                }
            },
            _ => match Primary::parse(tokens) {
                Ok(p) => Ok(Unary::Primary(Box::new(p))),
                Err(e) => Err(e),
            },
        }
    }
}

impl<'a> Primary<'a> {
    pub fn parse(tokens: &mut Tokens<'a>) -> (r: Result<Primary<'a>, CompileError<'a>>)
        ensures
            outcome(r, final(tokens)@) == parse_primary_spec(old(tokens)@),
            final(tokens)@.len() <= old(tokens)@.len(),
        decreases old(tokens)@.len(), 1nat,
    {
        let first = tokens.next();
        match first {
            Some(Token::Literal(n)) => match parse_literal(n) {
                Some(constant) => Ok(Primary::Constant(constant)),
                None => Err(CompileError::LiteralOutOfRange(n)),
            },
            Some(Token::Ident(name)) => Ok(Primary::Identifier(name)),
            Some(Token::SyLPar) => {
                let expr = match Expr::parse(tokens) {
                    Ok(e) => e,
                    Err(e) => return Err(e),
                };
                match tokens.eat_err(Token::SyRPar, UNMATCHED_PAREN) {
                    Ok(()) => Ok(Primary::Paren(Box::new(expr))),
                    Err(e) => Err(e),
                }
            },
            other => Err(CompileError::Unexpected { expected: Expected::Primary, found: other }),
        }
    }
}


/// The code of an expression: its instructions, the number of the value that
/// holds its result, and the last number taken after it.
pub struct Emitted {
    pub insts: Seq<Inst>,
    pub value: int,
    pub next: int,
}

/// What code generation yields: code, or the error that stopped it.
pub type Gen<'a> = Result<Emitted, CompileError<'a>>;

/// The code of a binary operation whose operands have the code `l` and then `r`.
pub open spec fn join(op: BinOp, l: Emitted, r: Emitted) -> Emitted {
    Emitted {
        insts: l.insts + r.insts + seq![
            Inst::Binary {
                op,
                dst: (r.next + 1) as usize,
                lhs: Operand::Reg(l.value as usize),
                rhs: Operand::Reg(r.value as usize),
            },
        ],
        value: r.next + 1,
        next: r.next + 1,
    }
}

/// The code of a binary operation is numbered in order where the code of its
/// operands is.
pub proof fn lemma_join_numbered(op: BinOp, l: Emitted, r: Emitted, n: int)
    requires
        l.next == n + slots_consumed(l.insts),
        numbered_from(l.insts, n),
        r.next == l.next + slots_consumed(r.insts),
        numbered_from(r.insts, l.next),
        0 <= r.next + 1 <= usize::MAX,
    ensures
        join(op, l, r).next == n + slots_consumed(join(op, l, r).insts),
        numbered_from(join(op, l, r).insts, n),
{
    let last = seq![
        Inst::Binary {
            op,
            dst: (r.next + 1) as usize,
            lhs: Operand::Reg(l.value as usize),
            rhs: Operand::Reg(r.value as usize),
        },
    ];
    lemma_slots_concat(l.insts, r.insts);
    lemma_slots_concat(l.insts + r.insts, last);
    lemma_single_inst(last[0], r.next);
    lemma_numbered_concat(l.insts, r.insts, n);
    lemma_numbered_concat(l.insts + r.insts, last, n);
}

/// The state of code generation as the specification functions state it:
/// the code emitted and the number that holds the result.
pub open spec fn generated<'a>(r: Result<usize, CompileError<'a>>, old_state: CodeGenState<'a>, new_state: CodeGenState<'a>, g: Gen<'a>) -> bool {
    &&& new_state.vars@ == old_state.vars@
    &&& match g {
        Ok(c) => {
            &&& r == Ok::<usize, CompileError<'a>>(c.value as usize)
            &&& new_state.code@ =~= old_state.code@ + c.insts
            &&& new_state.reg == c.next
        },
        Err(e) => r == Err::<usize, CompileError<'a>>(e),
    }
}

pub open spec fn expr_slots<'a>(e: Expr<'a>) -> nat
    decreases e,
{
    match e {
        Expr::Assignment(a) => match *a {
            Assignment::Additive(x) => additive_slots(*x),
        },
    }
}

pub open spec fn additive_slots<'a>(a: Additive<'a>) -> nat
    decreases a,
{
    match a {
        Additive::Multiplicative(m) => multiplicative_slots(*m),
        Additive::Add(l, r) => additive_slots(*l) + multiplicative_slots(*r) + 1,
        Additive::Sub(l, r) => additive_slots(*l) + multiplicative_slots(*r) + 1,
    }
}

pub open spec fn multiplicative_slots<'a>(m: Multiplicative<'a>) -> nat
    decreases m,
{
    match m {
        Multiplicative::Unary(u) => unary_slots(*u),
        Multiplicative::Mul(l, r) => multiplicative_slots(*l) + unary_slots(*r) + 1,
        Multiplicative::Div(l, r) => multiplicative_slots(*l) + unary_slots(*r) + 1,
        Multiplicative::Rem(l, r) => multiplicative_slots(*l) + unary_slots(*r) + 1,
    }
}

pub open spec fn unary_slots<'a>(u: Unary<'a>) -> nat
    decreases u,
{
    match u {
        Unary::Primary(p) => primary_slots(*p),
        Unary::UnaryPlus(x) => unary_slots(*x),
        Unary::UnaryMinus(x) => unary_slots(*x) + 1,
    }
}

pub open spec fn primary_slots<'a>(p: Primary<'a>) -> nat
    decreases p,
{
    match p {
        Primary::Constant(_) => 1,
        Primary::Identifier(_) => 1,
        Primary::Paren(e) => expr_slots(*e),
    }
}

pub open spec fn expr_code<'a>(e: Expr<'a>, vars: Seq<(&'a str, Variable)>, n: int) -> Gen<'a>
    decreases e,
{
    match e {
        Expr::Assignment(a) => match *a {
            Assignment::Additive(x) => additive_code(*x, vars, n),
        },
    }
}

pub open spec fn additive_code<'a>(a: Additive<'a>, vars: Seq<(&'a str, Variable)>, n: int) -> Gen<'a>
    decreases a,
{
    match a {
        Additive::Multiplicative(m) => multiplicative_code(*m, vars, n),
        Additive::Add(l, r) => match additive_code(*l, vars, n) {
            Ok(lc) => match multiplicative_code(*r, vars, lc.next) {
                Ok(rc) => Ok(join(BinOp::Add, lc, rc)),
                Err(e) => Err(e),
            },
            Err(e) => Err(e),
        },
        Additive::Sub(l, r) => match additive_code(*l, vars, n) {
            Ok(lc) => match multiplicative_code(*r, vars, lc.next) {
                Ok(rc) => Ok(join(BinOp::Sub, lc, rc)),
                Err(e) => Err(e),
            },
            Err(e) => Err(e),
        },
    }
}

pub open spec fn multiplicative_code<'a>(m: Multiplicative<'a>, vars: Seq<(&'a str, Variable)>, n: int) -> Gen<'a>
    decreases m,
{
    match m {
        Multiplicative::Unary(u) => unary_code(*u, vars, n),
        Multiplicative::Mul(l, r) => match multiplicative_code(*l, vars, n) {
            Ok(lc) => match unary_code(*r, vars, lc.next) {
                Ok(rc) => Ok(join(BinOp::Mul, lc, rc)),
                Err(e) => Err(e),
            },
            Err(e) => Err(e),
        },
        Multiplicative::Div(l, r) => match multiplicative_code(*l, vars, n) {
            Ok(lc) => match unary_code(*r, vars, lc.next) {
                Ok(rc) => Ok(join(BinOp::SDiv, lc, rc)),
                Err(e) => Err(e),
            },
            Err(e) => Err(e),
        },
        Multiplicative::Rem(l, r) => match multiplicative_code(*l, vars, n) {
            Ok(lc) => match unary_code(*r, vars, lc.next) {
                Ok(rc) => Ok(join(BinOp::SRem, lc, rc)),
                Err(e) => Err(e),
            },
            Err(e) => Err(e),
        },
    }
}

pub open spec fn unary_code<'a>(u: Unary<'a>, vars: Seq<(&'a str, Variable)>, n: int) -> Gen<'a>
    decreases u,
{
    match u {
        Unary::Primary(p) => primary_code(*p, vars, n),
        Unary::UnaryPlus(x) => unary_code(*x, vars, n),
        Unary::UnaryMinus(x) => match unary_code(*x, vars, n) {
            Ok(c) => Ok(
                Emitted {
                    insts: c.insts + seq![
                        Inst::Binary {
                            op: BinOp::Sub,
                            dst: (c.next + 1) as usize,
                            lhs: Operand::Imm(0),
                            rhs: Operand::Reg(c.value as usize),
                        },
                    ],
                    value: c.next + 1,
                    next: c.next + 1,
                },
            ),
            Err(e) => Err(e),
        },
    }
}

pub open spec fn primary_code<'a>(p: Primary<'a>, vars: Seq<(&'a str, Variable)>, n: int) -> Gen<'a>
    decreases p,
{
    match p {
        Primary::Constant(c) => Ok(
            Emitted {
                insts: seq![
                    Inst::Binary {
                        op: BinOp::Add,
                        dst: (n + 1) as usize,
                        lhs: Operand::Imm(c),
                        rhs: Operand::Imm(0),
                    },
                ],
                value: n + 1,
                next: n + 1,
            },
        ),
        Primary::Identifier(name) => match lookup(vars, name@) {
            Some(v) => Ok(
                Emitted {
                    insts: seq![Inst::Load { dst: (n + 1) as usize, slot: v.reg, align: v.align }],
                    value: n + 1,
                    next: n + 1,
                },
            ),
            None => Err(CompileError::Undeclared(name)),
        },
        Primary::Paren(e) => expr_code(*e, vars, n),
    }
}

pub proof fn lemma_additive_next<'a>(a: Additive<'a>, vars: Seq<(&'a str, Variable)>, n: int)
    ensures
        additive_code(a, vars, n) matches Ok(c) ==> c.next == n + additive_slots(a) && c.value == c.next,
        0 <= n && n + additive_slots(a) <= usize::MAX ==> (additive_code(a, vars, n) matches Ok(c) ==> c.next == n
            + slots_consumed(c.insts) && numbered_from(c.insts, n)),
    decreases a,
{
    match a {
        Additive::Multiplicative(m) => lemma_multiplicative_next(*m, vars, n),
        Additive::Add(l, r) | Additive::Sub(l, r) => {
            lemma_additive_next(*l, vars, n);
            if let Ok(lc) = additive_code(*l, vars, n) {
                lemma_multiplicative_next(*r, vars, lc.next);
                if let Ok(rc) = multiplicative_code(*r, vars, lc.next) {
                    if 0 <= n && n + additive_slots(a) <= usize::MAX {
                        lemma_join_numbered(if a is Add { BinOp::Add } else { BinOp::Sub }, lc, rc, n);
                    }
                }
            }
        },
    }
}

pub proof fn lemma_multiplicative_next<'a>(m: Multiplicative<'a>, vars: Seq<(&'a str, Variable)>, n: int)
    ensures
        multiplicative_code(m, vars, n) matches Ok(c) ==> c.next == n + multiplicative_slots(m) && c.value == c.next,
        0 <= n && n + multiplicative_slots(m) <= usize::MAX ==> (multiplicative_code(m, vars, n) matches Ok(c) ==> c.next == n
            + slots_consumed(c.insts) && numbered_from(c.insts, n)),
    decreases m,
{
    match m {
        Multiplicative::Unary(u) => lemma_unary_next(*u, vars, n),
        Multiplicative::Mul(l, r) | Multiplicative::Div(l, r) | Multiplicative::Rem(l, r) => {
            lemma_multiplicative_next(*l, vars, n);
            if let Ok(lc) = multiplicative_code(*l, vars, n) {
                lemma_unary_next(*r, vars, lc.next);
                if let Ok(rc) = unary_code(*r, vars, lc.next) {
                    if 0 <= n && n + multiplicative_slots(m) <= usize::MAX {
                        let op = if m is Mul {
                            BinOp::Mul
                        } else if m is Div {
                            BinOp::SDiv
                        } else {
                            BinOp::SRem
                        };
                        lemma_join_numbered(op, lc, rc, n);
                    }
                }
            }
        },
    }
}

pub proof fn lemma_unary_next<'a>(u: Unary<'a>, vars: Seq<(&'a str, Variable)>, n: int)
    ensures
        unary_code(u, vars, n) matches Ok(c) ==> c.next == n + unary_slots(u) && c.value == c.next,
        0 <= n && n + unary_slots(u) <= usize::MAX ==> (unary_code(u, vars, n) matches Ok(c) ==> c.next == n
            + slots_consumed(c.insts) && numbered_from(c.insts, n)),
    decreases u,
{
    match u {
        Unary::Primary(p) => lemma_primary_next(*p, vars, n),
        Unary::UnaryPlus(x) => lemma_unary_next(*x, vars, n),
        Unary::UnaryMinus(x) => {
            lemma_unary_next(*x, vars, n);
            if let Ok(c) = unary_code(*x, vars, n) {
                if 0 <= n && n + unary_slots(u) <= usize::MAX {
                    let last = seq![
                        Inst::Binary {
                            op: BinOp::Sub,
                            dst: (c.next + 1) as usize,
                            lhs: Operand::Imm(0),
                            rhs: Operand::Reg(c.value as usize),
                        },
                    ];
                    lemma_single_inst(last[0], c.next);
                    lemma_slots_concat(c.insts, last);
                    lemma_numbered_concat(c.insts, last, n);
                }
            }
        },
    }
}

pub proof fn lemma_primary_next<'a>(p: Primary<'a>, vars: Seq<(&'a str, Variable)>, n: int)
    ensures
        primary_code(p, vars, n) matches Ok(c) ==> c.next == n + primary_slots(p) && c.value == c.next,
        0 <= n && n + primary_slots(p) <= usize::MAX ==> (primary_code(p, vars, n) matches Ok(c) ==> c.next == n
            + slots_consumed(c.insts) && numbered_from(c.insts, n)),
    decreases p,
{
    match p {
        Primary::Paren(e) => lemma_expr_next(*e, vars, n),
        _ => {
            if let Ok(c) = primary_code(p, vars, n) {
                lemma_single_inst(c.insts[0], n);
                assert(c.insts =~= seq![c.insts[0]]);
            }
        },
    }
}

pub proof fn lemma_expr_next<'a>(e: Expr<'a>, vars: Seq<(&'a str, Variable)>, n: int)
    ensures
        expr_code(e, vars, n) matches Ok(c) ==> c.next == n + expr_slots(e) && c.value == c.next,
        0 <= n && n + expr_slots(e) <= usize::MAX ==> (expr_code(e, vars, n) matches Ok(c) ==> c.next == n
            + slots_consumed(c.insts) && numbered_from(c.insts, n)),
    decreases e,
{
    match e {
        Expr::Assignment(a) => match *a {
            Assignment::Additive(x) => lemma_additive_next(*x, vars, n),
        },
    }
}


impl<'a> Additive<'a> {
    /// Emits the code of this expression and returns the number that holds
    /// its value.
    pub fn gen_code(&self, state: &mut CodeGenState<'a>) -> (r: Result<usize, CompileError<'a>>)
        requires
            old(state).reg + additive_slots(*self) <= usize::MAX,
        ensures
            generated(r, *old(state), *final(state), additive_code(*self, old(state).vars@, old(state).reg as int)),
        decreases self,
    {
        match self {
            Additive::Multiplicative(m) => m.gen_code(state),
            Additive::Add(l, r) => {
                proof {
                    lemma_additive_next(**l, state.vars@, state.reg as int);
                }
                let lhs = match l.gen_code(state) {
                    Ok(v) => v,
                    Err(e) => return Err(e),
                };
                proof {
                    lemma_multiplicative_next(**r, state.vars@, state.reg as int);
                }
                let rhs = match r.gen_code(state) {
                    Ok(v) => v,
                    Err(e) => return Err(e),
                };
                let reg = state.next_reg();
                state.emit(Inst::Binary { op: BinOp::Add, dst: reg, lhs: Operand::Reg(lhs), rhs: Operand::Reg(rhs) });
                Ok(reg)
            },
            Additive::Sub(l, r) => {
                proof {
                    lemma_additive_next(**l, state.vars@, state.reg as int);
                }
                let lhs = match l.gen_code(state) {
                    Ok(v) => v,
                    Err(e) => return Err(e),
                };
                proof {
                    lemma_multiplicative_next(**r, state.vars@, state.reg as int);
                }
                let rhs = match r.gen_code(state) {
                    Ok(v) => v,
                    Err(e) => return Err(e),
                };
                let reg = state.next_reg();
                state.emit(Inst::Binary { op: BinOp::Sub, dst: reg, lhs: Operand::Reg(lhs), rhs: Operand::Reg(rhs) });
                Ok(reg)
            },
        }
    }
}

impl<'a> Multiplicative<'a> {
    /// Emits the code of this expression and returns the number that holds
    /// its value.
    pub fn gen_code(&self, state: &mut CodeGenState<'a>) -> (r: Result<usize, CompileError<'a>>)
        requires
            old(state).reg + multiplicative_slots(*self) <= usize::MAX,
        ensures
            generated(r, *old(state), *final(state), multiplicative_code(*self, old(state).vars@, old(state).reg as int)),
        decreases self,
    {
        match self {
            Multiplicative::Unary(u) => u.gen_code(state),
            Multiplicative::Mul(l, r) => {
                proof {
                    lemma_multiplicative_next(**l, state.vars@, state.reg as int);
                }
                let lhs = match l.gen_code(state) {
                    Ok(v) => v,
                    Err(e) => return Err(e),
                };
                proof {
                    lemma_unary_next(**r, state.vars@, state.reg as int);
                }
                let rhs = match r.gen_code(state) {
                    Ok(v) => v,
                    Err(e) => return Err(e),
                };
                let reg = state.next_reg();
                state.emit(Inst::Binary { op: BinOp::Mul, dst: reg, lhs: Operand::Reg(lhs), rhs: Operand::Reg(rhs) });
                Ok(reg)
            },
            Multiplicative::Div(l, r) => {
                proof {
                    lemma_multiplicative_next(**l, state.vars@, state.reg as int);
                }
                let lhs = match l.gen_code(state) {
                    Ok(v) => v,
                    Err(e) => return Err(e),
                };
                proof {
                    lemma_unary_next(**r, state.vars@, state.reg as int);
                }
                let rhs = match r.gen_code(state) {
                    Ok(v) => v,
                    Err(e) => return Err(e),
                };
                let reg = state.next_reg();
                state.emit(Inst::Binary { op: BinOp::SDiv, dst: reg, lhs: Operand::Reg(lhs), rhs: Operand::Reg(rhs) });
                Ok(reg)
            },
            Multiplicative::Rem(l, r) => {
                proof {
                    lemma_multiplicative_next(**l, state.vars@, state.reg as int);
                }
                let lhs = match l.gen_code(state) {
                    Ok(v) => v,
                    Err(e) => return Err(e),
                };
                proof {
                    lemma_unary_next(**r, state.vars@, state.reg as int);
                }
                let rhs = match r.gen_code(state) {
                    Ok(v) => v,
                    Err(e) => return Err(e),
                };
                let reg = state.next_reg();
                state.emit(Inst::Binary { op: BinOp::SRem, dst: reg, lhs: Operand::Reg(lhs), rhs: Operand::Reg(rhs) });
                Ok(reg)
            },
        }
    }
}

impl<'a> Unary<'a> {
    /// Emits the code of this expression and returns the number that holds
    /// its value.
    pub fn gen_code(&self, state: &mut CodeGenState<'a>) -> (r: Result<usize, CompileError<'a>>)
        requires
            old(state).reg + unary_slots(*self) <= usize::MAX,
        ensures
            generated(r, *old(state), *final(state), unary_code(*self, old(state).vars@, old(state).reg as int)),
        decreases self,
    {
        match self {
            Unary::Primary(p) => p.gen_code(state),
            Unary::UnaryPlus(u) => u.gen_code(state),
            Unary::UnaryMinus(u) => {
                proof {
                    lemma_unary_next(**u, state.vars@, state.reg as int);
                }
                let v = match u.gen_code(state) {
                    Ok(v) => v,
                    Err(e) => return Err(e),
                };
                let reg = state.next_reg();
                state.emit(Inst::Binary { op: BinOp::Sub, dst: reg, lhs: Operand::Imm(0), rhs: Operand::Reg(v) });
                Ok(reg)
            },
        }
    }
}

impl<'a> Primary<'a> {
    /// Emits the code of this expression and returns the number that holds
    /// its value.
    pub fn gen_code(&self, state: &mut CodeGenState<'a>) -> (r: Result<usize, CompileError<'a>>)
        requires
            old(state).reg + primary_slots(*self) <= usize::MAX,
        ensures
            generated(r, *old(state), *final(state), primary_code(*self, old(state).vars@, old(state).reg as int)),
        decreases self,
    {
        match self {
            Primary::Constant(n) => {
                let reg = state.next_reg();
                state.emit(Inst::Binary { op: BinOp::Add, dst: reg, lhs: Operand::Imm(*n), rhs: Operand::Imm(0) });
                Ok(reg)
            },
            Primary::Identifier(name) => match state.find(name) {
                Some(v) => {
                    let reg = state.next_reg();
                    state.emit(Inst::Load { dst: reg, slot: v.reg, align: v.align });
                    Ok(reg)
                },
                None => Err(CompileError::Undeclared(*name)),
            },
            Primary::Paren(e) => e.gen_code(state),
        }
    }
}

impl<'a> Expr<'a> {
    /// Emits the code of this expression and returns the number that holds
    /// its value.
    pub fn gen_code(&self, state: &mut CodeGenState<'a>) -> (r: Result<usize, CompileError<'a>>)
        requires
            old(state).reg + expr_slots(*self) <= usize::MAX,
        ensures
            generated(r, *old(state), *final(state), expr_code(*self, old(state).vars@, old(state).reg as int)),
        decreases self,
    {
        match self {
            Expr::Assignment(a) => a.gen_code(state),
        }
    }
}

impl<'a> Assignment<'a> {
    /// Emits the code of this expression and returns the number that holds
    /// its value.
    pub fn gen_code(&self, state: &mut CodeGenState<'a>) -> (r: Result<usize, CompileError<'a>>)
        requires
            old(state).reg + expr_slots(Expr::Assignment(Box::new(*self))) <= usize::MAX,
        ensures
            generated(r, *old(state), *final(state), expr_code(Expr::Assignment(Box::new(*self)), old(state).vars@, old(state).reg as int)),
        decreases self,
    {
        match self {
            Assignment::Additive(a) => a.gen_code(state),
        }
    }
}


/// Each value an expression defines stands for one of its tokens.
pub proof fn lemma_expr_parse_slots<'a>(ts: Seq<Token<'a>>)
    ensures
        parse_expr_spec(ts) matches Ok((e, rest)) ==> rest.len() < ts.len() && expr_slots(e) <= ts.len() - rest.len(),
    decreases ts.len(), 8nat,
{
    lemma_assignment_parse_slots(ts);
}

pub proof fn lemma_assignment_parse_slots<'a>(ts: Seq<Token<'a>>)
    ensures
        parse_assignment_spec(ts) matches Ok((a, rest)) ==> rest.len() < ts.len()
            && expr_slots(Expr::Assignment(Box::new(a))) <= ts.len() - rest.len(),
    decreases ts.len(), 7nat,
{
    lemma_additive_parse_slots(ts);
}

pub proof fn lemma_additive_parse_slots<'a>(ts: Seq<Token<'a>>)
    ensures
        parse_additive_spec(ts) matches Ok((a, rest)) ==> rest.len() < ts.len() && additive_slots(a) <= ts.len() - rest.len(),
    decreases ts.len(), 6nat,
{
    lemma_multiplicative_parse_slots(ts);
    if let Ok((m, rest)) = parse_multiplicative_spec(ts) {
        lemma_additive_rest_slots(Additive::Multiplicative(Box::new(m)), rest);
    }
}

pub proof fn lemma_additive_rest_slots<'a>(lhs: Additive<'a>, ts: Seq<Token<'a>>)
    ensures
        additive_rest_spec(lhs, ts) matches Ok((a, rest)) ==> rest.len() <= ts.len()
            && additive_slots(a) <= additive_slots(lhs) + ts.len() - rest.len(),
    decreases ts.len(), 5nat,
{
    if ts.len() > 0 && (ts[0] is OpAdd || ts[0] is OpSub) {
        lemma_multiplicative_parse_slots(ts.drop_first());
        if let Ok((m, rest)) = parse_multiplicative_spec(ts.drop_first()) {
            let next = if ts[0] is OpAdd {
                Additive::Add(Box::new(lhs), Box::new(m))
            } else {
                Additive::Sub(Box::new(lhs), Box::new(m))
            };
            lemma_additive_rest_slots(next, rest);
        }
    }
}

pub proof fn lemma_multiplicative_parse_slots<'a>(ts: Seq<Token<'a>>)
    ensures
        parse_multiplicative_spec(ts) matches Ok((m, rest)) ==> rest.len() < ts.len()
            && multiplicative_slots(m) <= ts.len() - rest.len(),
    decreases ts.len(), 4nat,
{
    lemma_unary_parse_slots(ts);
    if let Ok((u, rest)) = parse_unary_spec(ts) {
        lemma_multiplicative_rest_slots(Multiplicative::Unary(Box::new(u)), rest);
    }
}

pub proof fn lemma_multiplicative_rest_slots<'a>(lhs: Multiplicative<'a>, ts: Seq<Token<'a>>)
    ensures
        multiplicative_rest_spec(lhs, ts) matches Ok((m, rest)) ==> rest.len() <= ts.len()
            && multiplicative_slots(m) <= multiplicative_slots(lhs) + ts.len() - rest.len(),
    decreases ts.len(), 3nat,
{
    if ts.len() > 0 && (ts[0] is OpMul || ts[0] is OpDiv || ts[0] is OpRem) {
        lemma_unary_parse_slots(ts.drop_first());
        if let Ok((u, rest)) = parse_unary_spec(ts.drop_first()) {
            let next = if ts[0] is OpMul {
                Multiplicative::Mul(Box::new(lhs), Box::new(u))
            } else if ts[0] is OpDiv {
                Multiplicative::Div(Box::new(lhs), Box::new(u))
            } else {
                Multiplicative::Rem(Box::new(lhs), Box::new(u))
            };
            lemma_multiplicative_rest_slots(next, rest);
        }
    }
}

pub proof fn lemma_unary_parse_slots<'a>(ts: Seq<Token<'a>>)
    ensures
        parse_unary_spec(ts) matches Ok((u, rest)) ==> rest.len() < ts.len() && unary_slots(u) <= ts.len() - rest.len(),
    decreases ts.len(), 2nat,
{
    if ts.len() > 0 && (ts[0] is OpAdd || ts[0] is OpSub) {
        lemma_unary_parse_slots(ts.drop_first());
    } else {
        lemma_primary_parse_slots(ts);
    }
}

pub proof fn lemma_primary_parse_slots<'a>(ts: Seq<Token<'a>>)
    ensures
        parse_primary_spec(ts) matches Ok((p, rest)) ==> rest.len() < ts.len() && primary_slots(p) <= ts.len() - rest.len(),
    decreases ts.len(), 1nat,
{
    if ts.len() > 0 && ts[0] is SyLPar {
        lemma_expr_parse_slots(ts.drop_first());
    }
}

} // verus!
