pub mod code_gen_state;
pub mod eval;
pub mod machine;
pub mod expr;
pub mod stmt;

use vstd::prelude::*;

use self::code_gen_state::{numbered_from, slots_consumed, CodeGenState, Inst};
use self::machine::{body_value, lemma_body_returns_its_value, run, start};
use self::stmt::{
    lemma_compound_parse_slots, lemma_stmt_next, parse_compound_spec, stmt_code, stmt_model, stmt_slots,
    Compound, Stmt, StmtModel,
};
use crate::token::{first_of, CompileError, Expected, Token, Tokens};

verus! {

/// The name of the one function of a translation unit.
pub const MAIN: &'static str = "main";

/// The translation unit: the body of `main`.
#[derive(Debug)]
pub enum Ast<'a> {
    Stmt(Stmt<'a>),
}

/// Consumes one token, which must be `t`.
pub open spec fn eat_spec<'a>(ts: Seq<Token<'a>>, t: Token<'a>) -> Result<Seq<Token<'a>>, CompileError<'a>> {
    if ts.len() > 0 && ts[0]@ == t@ {
        Ok(ts.drop_first())
    } else {
        Err(CompileError::Unexpected { expected: Expected::Token(t), found: first_of(ts) })
    }
}

/// The frame `int main ( void )` at the head of `ts`.
pub open spec fn frame_spec<'a>(ts: Seq<Token<'a>>) -> Result<Seq<Token<'a>>, CompileError<'a>> {
    match eat_spec(ts, Token::TyInt) {
        Err(e) => Err(e),
        Ok(r1) => match eat_spec(r1, Token::Ident(MAIN)) {
            Err(e) => Err(e),
            Ok(r2) => match eat_spec(r2, Token::SyLPar) {
                Err(e) => Err(e),
                Ok(r3) => match eat_spec(r3, Token::TyVoid) {
                    Err(e) => Err(e),
                    Ok(r4) => eat_spec(r4, Token::SyRPar),
                },
            },
        },
    }
}

/// `<tu> ::= "int" "main" "(" "void" ")" <compound>`, which must use up
/// every token.
pub open spec fn parse_tu_spec<'a>(ts: Seq<Token<'a>>) -> Result<StmtModel<'a>, CompileError<'a>> {
    match frame_spec(ts) {
        Err(e) => Err(e),
        Ok(body) => match parse_compound_spec(body) {
            Err(e) => Err(e),
            Ok(((ds, ss), rest)) => {
                if rest.len() == 0 {
                    Ok(StmtModel::Compound(ds, ss))
                } else {
                    Err(CompileError::Unexpected { expected: Expected::EndOfInput, found: Some(rest[0]) })
                }
            },
        },
    }
}

/// After code generation for a translation unit, the counter equals the count
/// of numbers its instructions take: one for each `alloca`, `load` and
/// arithmetic instruction, and one reserved after each `ret`; and each value
/// is numbered in textual order.
pub proof fn lemma_counter_counts_slots<'a>(s: StmtModel<'a>)
    requires
        stmt_slots(s) <= usize::MAX,
    ensures
        stmt_code(s, Seq::empty(), 0) matches Ok(c) ==> c.next == slots_consumed(c.insts) && numbered_from(c.insts, 0),
{
    lemma_stmt_next(s, Seq::empty(), 0);
}

impl<'a> Ast<'a> {
    /// Parses a whole translation unit.
    pub fn parse(tokens: Tokens<'a>) -> (r: Result<Ast<'a>, CompileError<'a>>)
        ensures
            match parse_tu_spec(tokens@) {
                Ok(m) => r matches Ok(Ast::Stmt(s)) && stmt_model(s) == m && stmt_slots(m) <= tokens@.len(),
                Err(e) => r == Err::<Ast<'a>, CompileError<'a>>(e),
            },
    {
        let mut tokens = tokens;
        match tokens.eat(Token::TyInt) {
            Ok(()) => {},
            Err(e) => return Err(e),
        }
        match tokens.eat(Token::Ident(MAIN)) {
            Ok(()) => {},
            Err(e) => return Err(e),
        }
        match tokens.eat(Token::SyLPar) {
            Ok(()) => {},
            Err(e) => return Err(e),
        }
        match tokens.eat(Token::TyVoid) {
            Ok(()) => {},
            Err(e) => return Err(e),
        }
        match tokens.eat(Token::SyRPar) {
            Ok(()) => {},
            Err(e) => return Err(e),
        }
        proof {
            lemma_compound_parse_slots(tokens@);
        }
        let compound = match Compound::parse(&mut tokens) {
            Ok(c) => c,
            Err(e) => return Err(e),
        };
        match tokens.peek() {
            None => Ok(Ast::Stmt(Stmt::Compound(Box::new(compound)))),
            Some(t) => Err(CompileError::Unexpected { expected: Expected::EndOfInput, found: Some(t) }),
        }
    }

    /// Generates the code of the body of `main`, numbering from 1. Where the
    /// body has a value, the code, run from the start of `main`, returns it.
    pub fn gen_code(&self) -> (r: Result<CodeGenState<'a>, CompileError<'a>>)
        requires
            match self {
                Ast::Stmt(s) => stmt_slots(stmt_model(*s)) <= usize::MAX,
            },
        ensures
            match self {
                Ast::Stmt(s) => match stmt_code(stmt_model(*s), Seq::empty(), 0) {
                    Ok(c) => r matches Ok(st) && st.code@ == c.insts && st.reg == c.next
                        && st.vars@ == Seq::<(&'a str, crate::ast::code_gen_state::Variable)>::empty()
                        && st.reg == slots_consumed(st.code@) && numbered_from(st.code@, 0),
                    Err(e) => r matches Err(e2) && e2 == e,
                },
            },
            match (self, r) {
                (Ast::Stmt(s), Ok(st)) => match body_value(stmt_model(*s), Map::empty()) {
                    Some(v) => match run(st.code@, start()) {
                        Some(m) => m.ret == Some(v),
                        None => false,
                    },
                    None => true,
                },
                _ => true,
            },
    {
        let mut state = CodeGenState::new();
        match self {
            Ast::Stmt(stmt) => {
                proof {
                    if body_value(stmt_model(*stmt), Map::empty()) is Some && stmt_code(stmt_model(*stmt), Seq::empty(), 0) is Ok {
                        lemma_body_returns_its_value(stmt_model(*stmt));
                    }
                    lemma_counter_counts_slots(stmt_model(*stmt));
                    lemma_stmt_next(stmt_model(*stmt), state.vars@, 0);
                    assert(Seq::<Inst>::empty() + stmt_code(stmt_model(*stmt), state.vars@, 0)->Ok_0.insts
                        =~= stmt_code(stmt_model(*stmt), state.vars@, 0)->Ok_0.insts);
                }
                match stmt.gen_code(&mut state) {
                    Ok(()) => Ok(state),
                    Err(e) => Err(e),
                }
            },
        }
    }
}

} // verus!
