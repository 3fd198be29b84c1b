use vstd::prelude::*;

use super::code_gen_state::{
    lemma_numbered_concat, lemma_single_inst, lemma_slots_concat, lookup, numbered_from, slots_consumed, CodeGenState,
    Inst, Variable,
};
use super::expr::{
    additive_code, additive_slots, expr_code, expr_slots, lemma_additive_next, lemma_additive_parse_slots,
    lemma_expr_next, lemma_expr_parse_slots, outcome,
    parse_additive_spec, parse_expr_spec, Additive as AdditiveExpr, Expr, Parsed,
};
use crate::token::{first_of, CompileError, Expected, Token, Tokens};

verus! {

/// `<compound> ::= "{" <decl>* <stmt>+ "}"`
#[derive(Debug)]
pub struct Compound<'a> {
    pub decls: Vec<Decl<'a>>,
    pub stmts: Vec<Stmt<'a>>,
}

/// `<stmt> ::= <compound> | <jump>`
#[derive(Debug)]
pub enum Stmt<'a> {
    Compound(Box<Compound<'a>>),
    Jump(Box<Jump<'a>>),
}

/// `<decl> ::= <typespec> <init_decl> ";"`
#[derive(Debug)]
pub struct Decl<'a> {
    pub specs: Vec<DeclSpecifier>,
    pub inits: Vec<InitDeclarator<'a>>,
}

#[derive(Debug)]
pub enum DeclSpecifier {
    TypeSpecifier(Box<TypeSpecifier>),
}

/// `<typespec> ::= "int"`
#[derive(Debug)]
pub enum TypeSpecifier {
    Int,
}

/// `<init_decl> ::= IDENT ("=" <additive>)?`
#[derive(Debug)]
pub enum InitDeclarator<'a> {
    Declarator(Box<Declarator<'a>>),
    DeclaratorWithValue(Box<Declarator<'a>>, Box<Initializer<'a>>),
}

#[derive(Debug)]
pub enum Declarator<'a> {
    Identifier(&'a str),
}

#[derive(Debug)]
pub enum Initializer<'a> {
    Additive(Box<AdditiveExpr<'a>>),
}

/// `<jump> ::= "return" <expr> ";"`
#[derive(Debug)]
pub enum Jump<'a> {
    Return(Box<Expr<'a>>),
}

/// A declaration with its lists as sequences.
pub struct DeclModel<'a> {
    pub specs: Seq<DeclSpecifier>,
    pub inits: Seq<InitDeclarator<'a>>,
}

/// A statement with the lists of each compound as sequences.
pub enum StmtModel<'a> {
    Compound(Seq<DeclModel<'a>>, Seq<StmtModel<'a>>),
    Jump(Jump<'a>),
}

impl<'a> View for Decl<'a> {
    type V = DeclModel<'a>;

    open spec fn view(&self) -> DeclModel<'a> {
        DeclModel { specs: self.specs@, inits: self.inits@ }
    }
}

pub open spec fn decls_model<'a>(ds: Seq<Decl<'a>>) -> Seq<DeclModel<'a>> {
    ds.map_values(|d: Decl<'a>| d@)
}

pub open spec fn stmt_model<'a>(s: Stmt<'a>) -> StmtModel<'a>
    decreases s,
{
    match s {
        Stmt::Compound(c) => StmtModel::Compound(decls_model(c.decls@), stmts_model(c.stmts@)),
        Stmt::Jump(j) => StmtModel::Jump(*j),
    }
}

pub open spec fn stmts_model<'a>(ss: Seq<Stmt<'a>>) -> Seq<StmtModel<'a>>
    decreases ss,
{
    if ss.len() == 0 {
        Seq::empty()
    } else {
        stmts_model(ss.subrange(0, ss.len() - 1)).push(stmt_model(ss[ss.len() - 1]))
    }
}

/// The declaration of a single `int`.
pub open spec fn int_specs() -> Seq<DeclSpecifier> {
    seq![DeclSpecifier::TypeSpecifier(Box::new(TypeSpecifier::Int))]
}

/// The identifier a declarator declares.
pub open spec fn parse_declarator_spec<'a>(ts: Seq<Token<'a>>) -> Parsed<'a, Declarator<'a>> {
    if ts.len() > 0 && ts[0] is Ident {
        Ok((Declarator::Identifier(ts[0]->Ident_0), ts.drop_first()))
    } else {
        Err(CompileError::Unexpected { expected: Expected::Identifier, found: first_of(ts) })
    }
}

/// `<init_decl> ::= IDENT ("=" <additive>)?` at the head of `ts`.
pub open spec fn parse_init_declarator_spec<'a>(ts: Seq<Token<'a>>) -> Parsed<'a, InitDeclarator<'a>> {
    match parse_declarator_spec(ts) {
        Ok((d, rest)) => {
            if rest.len() > 0 && rest[0] is OpAssign {
                match parse_additive_spec(rest.drop_first()) {
                    Ok((a, rest2)) => Ok(
                        (
                            InitDeclarator::DeclaratorWithValue(
                                Box::new(d),
                                Box::new(Initializer::Additive(Box::new(a))),
                            ),
                            rest2,
                        ),
                    ),
                    Err(e) => Err(e),
                }
            } else {
                Ok((InitDeclarator::Declarator(Box::new(d)), rest))
            }
        },
        Err(e) => Err(e),
    }
}

/// `<decl> ::= "int" <init_decl> ";"` at the head of `ts`.
pub open spec fn parse_decl_spec<'a>(ts: Seq<Token<'a>>) -> Parsed<'a, DeclModel<'a>> {
    if ts.len() > 0 && ts[0] is TyInt {
        match parse_init_declarator_spec(ts.drop_first()) {
            Ok((i, rest)) => {
                if rest.len() > 0 && rest[0] is SySemicolon {
                    Ok((DeclModel { specs: int_specs(), inits: seq![i] }, rest.drop_first()))
                } else {
                    Err(
                        CompileError::Unexpected {
                            expected: Expected::Token(Token::SySemicolon),
                            found: first_of(rest),
                        },
                    )
                }
            },
            Err(e) => Err(e),
        }
    } else {
        Err(CompileError::Unexpected { expected: Expected::TypeSpecifier, found: first_of(ts) })
    }
}

/// The declarations at the head of `ts`, as long as an `int` comes next.
pub open spec fn parse_decls_spec<'a>(ts: Seq<Token<'a>>) -> Parsed<'a, Seq<DeclModel<'a>>>
    decreases ts.len(),
{
    if ts.len() > 0 && ts[0] is TyInt {
        match parse_decl_spec(ts) {
            Ok((d, rest)) => {
                if rest.len() < ts.len() {
                    match parse_decls_spec(rest) {
                        Ok((ds, rest2)) => Ok((seq![d] + ds, rest2)),
                        Err(e) => Err(e),
                    }
                } else {
                    Err(CompileError::Unexpected { expected: Expected::TypeSpecifier, found: None })
                }
            },
            Err(e) => Err(e),
        }
    } else {
        Ok((Seq::empty(), ts))
    }
}

/// What a missing semicolon after a jump statement is reported with.
pub const MISSING_SEMICOLON: &'static str = "missing semicolon after jump statement.";

/// `<jump> ::= "return" <expr> ";"` at the head of `ts`.
pub open spec fn parse_jump_spec<'a>(ts: Seq<Token<'a>>) -> Parsed<'a, Jump<'a>> {
    if ts.len() > 0 && ts[0] is KwReturn {
        match parse_expr_spec(ts.drop_first()) {
            Ok((e, rest)) => {
                if rest.len() > 0 && rest[0] is SySemicolon {
                    Ok((Jump::Return(Box::new(e)), rest.drop_first()))
                } else {
                    Err(CompileError::Syntax { message: MISSING_SEMICOLON, found: first_of(rest) })
                }
            },
            Err(e) => Err(e),
        }
    } else {
        Err(CompileError::Unexpected { expected: Expected::Token(Token::KwReturn), found: first_of(ts) })
    }
}

/// The statements of a compound up to and including its closing brace.
pub open spec fn parse_stmts_spec<'a>(ts: Seq<Token<'a>>) -> Parsed<'a, Seq<StmtModel<'a>>>
    decreases ts.len(), 4nat,
{
    match parse_stmt_spec(ts) {
        Ok((s, rest)) => {
            if rest.len() > 0 && rest[0] is SyRBrace {
                Ok((seq![s], rest.drop_first()))
            } else if rest.len() < ts.len() {
                match parse_stmts_spec(rest) {
                    Ok((ss, rest2)) => Ok((seq![s] + ss, rest2)),
                    Err(e) => Err(e),
                }
            } else {
                Err(CompileError::Unexpected { expected: Expected::Token(Token::KwReturn), found: None })
            }
        },
        Err(e) => Err(e),
    }
}

/// `<stmt> ::= <compound> | <jump>` at the head of `ts`.
pub open spec fn parse_stmt_spec<'a>(ts: Seq<Token<'a>>) -> Parsed<'a, StmtModel<'a>>
    decreases ts.len(), 3nat,
{
    if ts.len() > 0 && ts[0] is SyLBrace {
        match parse_compound_spec(ts) {
            Ok(((ds, ss), rest)) => Ok((StmtModel::Compound(ds, ss), rest)),
            Err(e) => Err(e),
        }
    } else {
        match parse_jump_spec(ts) {
            Ok((j, rest)) => Ok((StmtModel::Jump(j), rest)),
            Err(e) => Err(e),
        }
    }
}

/// `<compound> ::= "{" <decl>* <stmt>+ "}"` at the head of `ts`.
pub open spec fn parse_compound_spec<'a>(ts: Seq<Token<'a>>) -> Parsed<'a, (Seq<DeclModel<'a>>, Seq<StmtModel<'a>>)>
    decreases ts.len(), 2nat,
{
    if ts.len() > 0 && ts[0] is SyLBrace {
        match parse_decls_spec(ts.drop_first()) {
            Ok((ds, rest)) => {
                if rest.len() < ts.len() {
                    match parse_stmts_spec(rest) {
                        Ok((ss, rest2)) => Ok(((ds, ss), rest2)),
                        Err(e) => Err(e),
                    }
                } else {
                    Err(CompileError::Unexpected { expected: Expected::Token(Token::KwReturn), found: None })
                }
            },
            Err(e) => Err(e),
        }
    } else {
        Err(CompileError::Unexpected { expected: Expected::Token(Token::SyLBrace), found: first_of(ts) })
    }
}


impl<'a> Compound<'a> {
    pub fn parse(tokens: &mut Tokens<'a>) -> (r: Result<Compound<'a>, CompileError<'a>>)
        ensures
            outcome(
                match r {
                    Ok(c) => Ok((decls_model(c.decls@), stmts_model(c.stmts@))),
                    Err(e) => Err(e),
                },
                final(tokens)@,
            ) == parse_compound_spec(old(tokens)@),
            final(tokens)@.len() <= old(tokens)@.len(),
            r is Ok ==> final(tokens)@.len() < old(tokens)@.len(),
        decreases old(tokens)@.len(), 2nat,
    {
        match tokens.next() {
            Some(Token::SyLBrace) => {},
            other => {
                return Err(CompileError::Unexpected { expected: Expected::Token(Token::SyLBrace), found: other });
            },
        }
        let decls = match Compound::parse_decls(tokens) {
            Ok(ds) => ds,
            Err(e) => return Err(e),
        };
        let stmts = match Compound::parse_stmts(tokens) {
            Ok(ss) => ss,
            Err(e) => return Err(e),
        };
        Ok(Compound { decls, stmts })
    }

    /// The declarations at the head of a compound.
    fn parse_decls(tokens: &mut Tokens<'a>) -> (r: Result<Vec<Decl<'a>>, CompileError<'a>>)
        ensures
            outcome(
                match r {
                    Ok(ds) => Ok(decls_model(ds@)),
                    Err(e) => Err(e),
                },
                final(tokens)@,
            ) == parse_decls_spec(old(tokens)@),
            final(tokens)@.len() <= old(tokens)@.len(),
    {
        let mut decls: Vec<Decl<'a>> = Vec::new();
        while Decl::lookahead_is_parsable(tokens)
            invariant
                tokens@.len() <= old(tokens)@.len(),
                parse_decls_spec(old(tokens)@) == match parse_decls_spec(tokens@) {
                    Ok((ds, rest)) => Ok((decls_model(decls@) + ds, rest)),
                    Err(e) => Err(e),
                },
            decreases tokens@.len(),
        {
            let d = match Decl::parse(tokens) {
                Ok(d) => d,
                Err(e) => return Err(e),
            };
            let ghost old_decls = decls@;
            decls.push(d);
            proof {
                assert(decls_model(decls@) =~= decls_model(old_decls).push(d@));
                match parse_decls_spec(tokens@) {
                    Ok((ds, rest)) => {
                        assert(decls_model(old_decls) + (seq![d@] + ds) =~= decls_model(decls@) + ds);
                    },
                    Err(e) => {},
                }
            }
        }
        proof {
            assert(decls_model(decls@) + Seq::<DeclModel<'a>>::empty() =~= decls_model(decls@));
        }
        Ok(decls)
    }

    /// The statements of a compound, up to and including its closing brace.
    fn parse_stmts(tokens: &mut Tokens<'a>) -> (r: Result<Vec<Stmt<'a>>, CompileError<'a>>)
        ensures
            outcome(
                match r {
                    Ok(ss) => Ok(stmts_model(ss@)),
                    Err(e) => Err(e),
                },
                final(tokens)@,
            ) == parse_stmts_spec(old(tokens)@),
            final(tokens)@.len() <= old(tokens)@.len(),
        decreases old(tokens)@.len(), 4nat,
    {
        let mut stmts: Vec<Stmt<'a>> = Vec::new();
        loop
            invariant
                tokens@.len() <= old(tokens)@.len(),
                parse_stmts_spec(old(tokens)@) == match parse_stmts_spec(tokens@) {
                    Ok((ss, rest)) => Ok((stmts_model(stmts@) + ss, rest)),
                    Err(e) => Err(e),
                },
            decreases tokens@.len(),
        {
            let ghost before = tokens@;
            let s = match Stmt::parse(tokens) {
                Ok(s) => s,
                Err(e) => return Err(e),
            };
            let ghost old_stmts = stmts@;
            let ghost sm = stmt_model(s);
            stmts.push(s);
            proof {
                assert(stmts@.subrange(0, stmts@.len() - 1) =~= old_stmts);
                assert(stmts_model(stmts@) == stmts_model(old_stmts).push(sm));
            }
            if let Some(Token::SyRBrace) = tokens.peek() {
                tokens.next();
                proof {
                    assert(stmts_model(old_stmts) + seq![sm] =~= stmts_model(stmts@));
                }
                return Ok(stmts);
            }
            proof {
                match parse_stmts_spec(tokens@) {
                    Ok((ss, rest)) => {
                        assert(stmts_model(old_stmts) + (seq![sm] + ss) =~= stmts_model(stmts@) + ss);
                    },
                    Err(e) => {},
                }
            }
        }
    }
}

impl<'a> Stmt<'a> {
    pub fn parse(tokens: &mut Tokens<'a>) -> (r: Result<Stmt<'a>, CompileError<'a>>)
        ensures
            outcome(
                match r {
                    Ok(s) => Ok(stmt_model(s)),
                    Err(e) => Err(e),
                },
                final(tokens)@,
            ) == parse_stmt_spec(old(tokens)@),
            final(tokens)@.len() <= old(tokens)@.len(),
            r is Ok ==> final(tokens)@.len() < old(tokens)@.len(),
        decreases old(tokens)@.len(), 3nat,
    {
        match tokens.peek() {
            Some(Token::SyLBrace) => match Compound::parse(tokens) {
                Ok(c) => Ok(Stmt::Compound(Box::new(c))),
                Err(e) => Err(e),
            },
            _ => match Jump::parse(tokens) {
                Ok(j) => Ok(Stmt::Jump(Box::new(j))),
                Err(e) => Err(e),
            },
        }
    }
}

impl<'a> Decl<'a> {
    /// Whether a declaration starts here.
    pub fn lookahead_is_parsable(tokens: &Tokens<'a>) -> (r: bool)
        ensures
            r == (tokens@.len() > 0 && tokens@[0] is TyInt),
    {
        DeclSpecifier::lookahead_is_parsable(tokens)
    }

    pub fn parse(tokens: &mut Tokens<'a>) -> (r: Result<Decl<'a>, CompileError<'a>>)
        ensures
            outcome(
                match r {
                    Ok(d) => Ok(d@),
                    Err(e) => Err(e),
                },
                final(tokens)@,
            ) == parse_decl_spec(old(tokens)@),
            final(tokens)@.len() <= old(tokens)@.len(),
            r is Ok ==> final(tokens)@.len() < old(tokens)@.len(),
    {
        let spec = match DeclSpecifier::parse(tokens) {
            Ok(s) => s,
            Err(e) => return Err(e),
        };
        let init = match InitDeclarator::parse(tokens) {
            Ok(i) => i,
            Err(e) => return Err(e),
        };
        match tokens.eat(Token::SySemicolon) {
            Ok(()) => {},
            Err(e) => return Err(e),
        }
        let mut specs: Vec<DeclSpecifier> = Vec::new();
        specs.push(spec);
        let mut inits: Vec<InitDeclarator<'a>> = Vec::new();
        inits.push(init);
        proof {
            assert(specs@ =~= int_specs());
            assert(inits@ =~= seq![init]);
        }
        Ok(Decl { specs, inits })
    }
}

impl DeclSpecifier {
    /// Whether a declaration specifier starts here.
    pub fn lookahead_is_parsable<'a>(tokens: &Tokens<'a>) -> (r: bool)
        ensures
            r == (tokens@.len() > 0 && tokens@[0] is TyInt),
    {
        TypeSpecifier::lookahead_is_parsable(tokens)
    }

    pub fn parse<'a>(tokens: &mut Tokens<'a>) -> (r: Result<DeclSpecifier, CompileError<'a>>)
        ensures
            old(tokens)@.len() > 0 && old(tokens)@[0] is TyInt ==> r == Ok::<DeclSpecifier, CompileError<'a>>(
                DeclSpecifier::TypeSpecifier(Box::new(TypeSpecifier::Int)),
            ),
            !(old(tokens)@.len() > 0 && old(tokens)@[0] is TyInt) ==> r == Err::<DeclSpecifier, CompileError<'a>>(
                CompileError::Unexpected { expected: Expected::TypeSpecifier, found: first_of(old(tokens)@) },
            ),
            final(tokens)@ == if old(tokens)@.len() > 0 { old(tokens)@.drop_first() } else { old(tokens)@ },
    {
        match TypeSpecifier::parse(tokens) {
            Ok(t) => Ok(DeclSpecifier::TypeSpecifier(Box::new(t))),
            Err(e) => Err(e),
        }
    }
}

impl TypeSpecifier {
    /// Whether a type specifier starts here.
    pub fn lookahead_is_parsable<'a>(tokens: &Tokens<'a>) -> (r: bool)
        ensures
            r == (tokens@.len() > 0 && tokens@[0] is TyInt),
    {
        matches!(tokens.peek(), Some(Token::TyInt))
    }

    pub fn parse<'a>(tokens: &mut Tokens<'a>) -> (r: Result<TypeSpecifier, CompileError<'a>>)
        ensures
            old(tokens)@.len() > 0 && old(tokens)@[0] is TyInt ==> r == Ok::<TypeSpecifier, CompileError<'a>>(TypeSpecifier::Int),
            !(old(tokens)@.len() > 0 && old(tokens)@[0] is TyInt) ==> r == Err::<TypeSpecifier, CompileError<'a>>(
                CompileError::Unexpected { expected: Expected::TypeSpecifier, found: first_of(old(tokens)@) },
            ),
            final(tokens)@ == if old(tokens)@.len() > 0 { old(tokens)@.drop_first() } else { old(tokens)@ },
    {
        match tokens.next() {
            Some(Token::TyInt) => Ok(TypeSpecifier::Int),
            other => Err(CompileError::Unexpected { expected: Expected::TypeSpecifier, found: other }),
        }
    }
}

impl<'a> InitDeclarator<'a> {
    pub fn parse(tokens: &mut Tokens<'a>) -> (r: Result<InitDeclarator<'a>, CompileError<'a>>)
        ensures
            outcome(r, final(tokens)@) == parse_init_declarator_spec(old(tokens)@),
            final(tokens)@.len() <= old(tokens)@.len(),
    {
        let declarator = match Declarator::parse(tokens) {
            Ok(d) => d,
            Err(e) => return Err(e),
        };
        match tokens.peek() {
            Some(Token::OpAssign) => {
                tokens.next();
                match Initializer::parse(tokens) {
                    Ok(i) => Ok(InitDeclarator::DeclaratorWithValue(Box::new(declarator), Box::new(i))),
                    Err(e) => Err(e),
                }
            },
            _ => Ok(InitDeclarator::Declarator(Box::new(declarator))),
        }
    }
}

impl<'a> Declarator<'a> {
    pub fn parse(tokens: &mut Tokens<'a>) -> (r: Result<Declarator<'a>, CompileError<'a>>)
        ensures
            outcome(r, final(tokens)@) == parse_declarator_spec(old(tokens)@),
            final(tokens)@.len() <= old(tokens)@.len(),
    {
        match tokens.next() {
            Some(Token::Ident(ident)) => Ok(Declarator::Identifier(ident)),
            other => Err(CompileError::Unexpected { expected: Expected::Identifier, found: other }),
        }
    }
}

impl<'a> Initializer<'a> {
    pub fn parse(tokens: &mut Tokens<'a>) -> (r: Result<Initializer<'a>, CompileError<'a>>)
        ensures
            outcome(
                match r {
                    Ok(Initializer::Additive(a)) => Ok(*a),
                    Err(e) => Err(e),
                },
                final(tokens)@,
            ) == parse_additive_spec(old(tokens)@),
            final(tokens)@.len() <= old(tokens)@.len(),
    {
        match AdditiveExpr::parse(tokens) {
            Ok(a) => Ok(Initializer::Additive(Box::new(a))),
            Err(e) => Err(e),
        }
    }
}

impl<'a> Jump<'a> {
    pub fn parse(tokens: &mut Tokens<'a>) -> (r: Result<Jump<'a>, CompileError<'a>>)
        ensures
            outcome(r, final(tokens)@) == parse_jump_spec(old(tokens)@),
            final(tokens)@.len() <= old(tokens)@.len(),
            r is Ok ==> final(tokens)@.len() < old(tokens)@.len(),
    {
        match tokens.next() {
            Some(Token::KwReturn) => {
                let expr = match Expr::parse(tokens) {
                    Ok(e) => e,
                    Err(e) => return Err(e),
                };
                match tokens.eat_err(Token::SySemicolon, MISSING_SEMICOLON) {
                    Ok(()) => Ok(Jump::Return(Box::new(expr))),
                    Err(e) => Err(e),
                }
            },
            other => Err(CompileError::Unexpected { expected: Expected::Token(Token::KwReturn), found: other }),
        }
    }
}


/// The IR type of an `int`.
pub const TY_I32: &'static str = "i32";

/// The alignment of an `int`, in bytes.
pub const ALIGN_I32: usize = 4;

/// The code of a statement or declaration: its instructions, the last
/// number taken after it, and the variables in scope after it.
pub struct StmtCode<'a> {
    pub insts: Seq<Inst>,
    pub next: int,
    pub vars: Seq<(&'a str, Variable)>,
}

pub type GenStmt<'a> = Result<StmtCode<'a>, CompileError<'a>>;

/// The name an init-declarator declares.
pub open spec fn declared_name<'a>(i: InitDeclarator<'a>) -> &'a str {
    match i {
        InitDeclarator::Declarator(d) => match *d {
            Declarator::Identifier(name) => name,
        },
        InitDeclarator::DeclaratorWithValue(d, _) => match *d {
            Declarator::Identifier(name) => name,
        },
    }
}

pub open spec fn init_slots<'a>(i: InitDeclarator<'a>) -> nat {
    match i {
        InitDeclarator::Declarator(_) => 1,
        InitDeclarator::DeclaratorWithValue(_, init) => match *init {
            Initializer::Additive(a) => 1 + additive_slots(*a),
        },
    }
}

/// The code of one init-declarator: a slot for the new variable, which must
/// not be in scope already, and the store of its initial value, if any.
pub open spec fn init_code<'a>(i: InitDeclarator<'a>, vars: Seq<(&'a str, Variable)>, n: int) -> GenStmt<'a> {
    let name = declared_name(i);
    if lookup(vars, name@) is Some {
        Err(CompileError::Redeclared(name))
    } else {
        let slot = (n + 1) as usize;
        let alloca = Inst::Alloca { dst: slot, align: ALIGN_I32 };
        let vars2 = vars.push((name, Variable { tyir: TY_I32, align: ALIGN_I32, reg: slot }));
        match i {
            InitDeclarator::Declarator(_) => Ok(StmtCode { insts: seq![alloca], next: n + 1, vars: vars2 }),
            InitDeclarator::DeclaratorWithValue(_, init) => match *init {
                Initializer::Additive(a) => match additive_code(*a, vars2, n + 1) {
                    Ok(c) => Ok(
                        StmtCode {
                            insts: seq![alloca] + c.insts + seq![
                                Inst::Store { src: c.value as usize, slot, align: ALIGN_I32 },
                            ],
                            next: c.next,
                            vars: vars2,
                        },
                    ),
                    Err(e) => Err(e),
                },
            },
        }
    }
}

pub open spec fn inits_slots<'a>(inits: Seq<InitDeclarator<'a>>) -> nat
    decreases inits.len(),
{
    if inits.len() == 0 {
        0
    } else {
        init_slots(inits[0]) + inits_slots(inits.drop_first())
    }
}

/// The code of the init-declarators of a declaration, in order.
pub open spec fn inits_code<'a>(inits: Seq<InitDeclarator<'a>>, vars: Seq<(&'a str, Variable)>, n: int) -> GenStmt<'a>
    decreases inits.len(),
{
    if inits.len() == 0 {
        Ok(StmtCode { insts: Seq::empty(), next: n, vars })
    } else {
        match init_code(inits[0], vars, n) {
            Ok(c) => match inits_code(inits.drop_first(), c.vars, c.next) {
                Ok(c2) => Ok(StmtCode { insts: c.insts + c2.insts, next: c2.next, vars: c2.vars }),
                Err(e) => Err(e),
            },
            Err(e) => Err(e),
        }
    }
}

pub open spec fn decls_slots<'a>(ds: Seq<DeclModel<'a>>) -> nat
    decreases ds.len(),
{
    if ds.len() == 0 {
        0
    } else {
        inits_slots(ds[0].inits) + decls_slots(ds.drop_first())
    }
}

/// The code of a compound's declarations, in order.
pub open spec fn decls_code<'a>(ds: Seq<DeclModel<'a>>, vars: Seq<(&'a str, Variable)>, n: int) -> GenStmt<'a>
    decreases ds.len(),
{
    if ds.len() == 0 {
        Ok(StmtCode { insts: Seq::empty(), next: n, vars })
    } else {
        match inits_code(ds[0].inits, vars, n) {
            Ok(c) => match decls_code(ds.drop_first(), c.vars, c.next) {
                Ok(c2) => Ok(StmtCode { insts: c.insts + c2.insts, next: c2.next, vars: c2.vars }),
                Err(e) => Err(e),
            },
            Err(e) => Err(e),
        }
    }
}

pub open spec fn stmt_slots<'a>(s: StmtModel<'a>) -> nat
    decreases s,
{
    match s {
        StmtModel::Compound(ds, ss) => decls_slots(ds) + stmts_slots(ss),
        StmtModel::Jump(j) => match j {
            Jump::Return(e) => expr_slots(*e) + 1,
        },
    }
}

pub open spec fn stmts_slots<'a>(ss: Seq<StmtModel<'a>>) -> nat
    decreases ss,
{
    if ss.len() == 0 {
        0
    } else {
        stmt_slots(ss[0]) + stmts_slots(ss.subrange(1, ss.len() as int))
    }
}

/// The code of a return: its value, `ret`, and one number skipped for the
/// block that follows the terminator.
pub open spec fn jump_code<'a>(j: Jump<'a>, vars: Seq<(&'a str, Variable)>, n: int) -> GenStmt<'a> {
    match j {
        Jump::Return(e) => match expr_code(*e, vars, n) {
            Ok(c) => Ok(
                StmtCode {
                    insts: c.insts + seq![Inst::Ret { src: c.value as usize }],
                    next: c.next + 1,
                    vars,
                },
            ),
            Err(e) => Err(e),
        },
    }
}

/// The code of a statement. The variables a compound declares go out of
/// scope at its end.
pub open spec fn stmt_code<'a>(s: StmtModel<'a>, vars: Seq<(&'a str, Variable)>, n: int) -> GenStmt<'a>
    decreases s,
{
    match s {
        StmtModel::Compound(ds, ss) => match decls_code(ds, vars, n) {
            Ok(c) => match stmts_code(ss, c.vars, c.next) {
                Ok(c2) => Ok(StmtCode { insts: c.insts + c2.insts, next: c2.next, vars }),
                Err(e) => Err(e),
            },
            Err(e) => Err(e),
        },
        StmtModel::Jump(j) => jump_code(j, vars, n),
    }
}

/// The code of a sequence of statements, in order, each in the same scope.
pub open spec fn stmts_code<'a>(ss: Seq<StmtModel<'a>>, vars: Seq<(&'a str, Variable)>, n: int) -> GenStmt<'a>
    decreases ss,
{
    if ss.len() == 0 {
        Ok(StmtCode { insts: Seq::empty(), next: n, vars })
    } else {
        match stmt_code(ss[0], vars, n) {
            Ok(c) => match stmts_code(ss.subrange(1, ss.len() as int), vars, c.next) {
                Ok(c2) => Ok(StmtCode { insts: c.insts + c2.insts, next: c2.next, vars }),
                Err(e) => Err(e),
            },
            Err(e) => Err(e),
        }
    }
}


/// The state of code generation after a statement or declaration, as the
/// specification functions state it.
pub open spec fn stmt_generated<'a>(r: Result<(), CompileError<'a>>, old_state: CodeGenState<'a>, new_state: CodeGenState<'a>, g: GenStmt<'a>) -> bool {
    match g {
        Ok(c) => {
            &&& r is Ok
            &&& new_state.code@ =~= old_state.code@ + c.insts
            &&& new_state.reg == c.next
            &&& new_state.vars@ == c.vars
        },
        Err(e) => r == Err::<(), CompileError<'a>>(e),
    }
}

pub proof fn lemma_init_next<'a>(i: InitDeclarator<'a>, vars: Seq<(&'a str, Variable)>, n: int)
    ensures
        init_code(i, vars, n) matches Ok(c) ==> c.next == n + init_slots(i) && vars.len() <= c.vars.len()
            && c.vars.subrange(0, vars.len() as int) == vars,
        0 <= n && n + init_slots(i) <= usize::MAX ==> (init_code(i, vars, n) matches Ok(c) ==> c.next == n
            + slots_consumed(c.insts) && numbered_from(c.insts, n)),
{
    if let Ok(c) = init_code(i, vars, n) {
        assert(c.vars.subrange(0, vars.len() as int) =~= vars);
    }
    let slot = (n + 1) as usize;
    let alloca = Inst::Alloca { dst: slot, align: ALIGN_I32 };
    lemma_single_inst(alloca, n);
    if let InitDeclarator::DeclaratorWithValue(d, init) = i {
        if let Initializer::Additive(a) = *init {
            let name = declared_name(i);
            let vars2 = vars.push((name, Variable { tyir: TY_I32, align: ALIGN_I32, reg: slot }));
            lemma_additive_next(*a, vars2, n + 1);
            if let Ok(c) = additive_code(*a, vars2, n + 1) {
                if 0 <= n && n + init_slots(i) <= usize::MAX {
                    let store = Inst::Store { src: c.value as usize, slot, align: ALIGN_I32 };
                    lemma_single_inst(store, c.next);
                    lemma_slots_concat(seq![alloca], c.insts);
                    lemma_slots_concat(seq![alloca] + c.insts, seq![store]);
                    lemma_numbered_concat(seq![alloca], c.insts, n);
                    lemma_numbered_concat(seq![alloca] + c.insts, seq![store], n);
                }
            }
        }
    }
}

pub proof fn lemma_inits_next<'a>(inits: Seq<InitDeclarator<'a>>, vars: Seq<(&'a str, Variable)>, n: int)
    ensures
        inits_code(inits, vars, n) matches Ok(c) ==> c.next == n + inits_slots(inits) && vars.len() <= c.vars.len()
            && c.vars.subrange(0, vars.len() as int) == vars,
        0 <= n && n + inits_slots(inits) <= usize::MAX ==> (inits_code(inits, vars, n) matches Ok(c) ==> c.next == n
            + slots_consumed(c.insts) && numbered_from(c.insts, n)),
    decreases inits.len(),
{
    if inits.len() > 0 {
        lemma_init_next(inits[0], vars, n);
        if let Ok(c) = init_code(inits[0], vars, n) {
            lemma_inits_next(inits.drop_first(), c.vars, c.next);
            if let Ok(c2) = inits_code(inits.drop_first(), c.vars, c.next) {
                assert(c2.vars.subrange(0, vars.len() as int) =~= c.vars.subrange(0, vars.len() as int));
                if 0 <= n && n + inits_slots(inits) <= usize::MAX {
                    lemma_slots_concat(c.insts, c2.insts);
                    lemma_numbered_concat(c.insts, c2.insts, n);
                }
            }
        }
    } else {
        assert(vars.subrange(0, vars.len() as int) =~= vars);
    }
}

pub proof fn lemma_decls_next<'a>(ds: Seq<DeclModel<'a>>, vars: Seq<(&'a str, Variable)>, n: int)
    ensures
        decls_code(ds, vars, n) matches Ok(c) ==> c.next == n + decls_slots(ds) && vars.len() <= c.vars.len()
            && c.vars.subrange(0, vars.len() as int) == vars,
        0 <= n && n + decls_slots(ds) <= usize::MAX ==> (decls_code(ds, vars, n) matches Ok(c) ==> c.next == n
            + slots_consumed(c.insts) && numbered_from(c.insts, n)),
    decreases ds.len(),
{
    if ds.len() > 0 {
        lemma_inits_next(ds[0].inits, vars, n);
        if let Ok(c) = inits_code(ds[0].inits, vars, n) {
            lemma_decls_next(ds.drop_first(), c.vars, c.next);
            if let Ok(c2) = decls_code(ds.drop_first(), c.vars, c.next) {
                assert(c2.vars.subrange(0, vars.len() as int) =~= c.vars.subrange(0, vars.len() as int));
                if 0 <= n && n + decls_slots(ds) <= usize::MAX {
                    lemma_slots_concat(c.insts, c2.insts);
                    lemma_numbered_concat(c.insts, c2.insts, n);
                }
            }
        }
    } else {
        assert(vars.subrange(0, vars.len() as int) =~= vars);
    }
}

pub proof fn lemma_stmts_model<'a>(ss: Seq<Stmt<'a>>)
    ensures
        stmts_model(ss).len() == ss.len(),
        forall|i: int| 0 <= i < ss.len() ==> #[trigger] stmts_model(ss)[i] == stmt_model(ss[i]),
    decreases ss.len(),
{
    if ss.len() > 0 {
        lemma_stmts_model(ss.subrange(0, ss.len() - 1));
    }
}

pub proof fn lemma_stmt_next<'a>(s: StmtModel<'a>, vars: Seq<(&'a str, Variable)>, n: int)
    ensures
        stmt_code(s, vars, n) matches Ok(c) ==> c.next == n + stmt_slots(s) && c.vars == vars,
        0 <= n && n + stmt_slots(s) <= usize::MAX ==> (stmt_code(s, vars, n) matches Ok(c) ==> c.next == n
            + slots_consumed(c.insts) && numbered_from(c.insts, n)),
    decreases s,
{
    match s {
        StmtModel::Compound(ds, ss) => {
            lemma_decls_next(ds, vars, n);
            if let Ok(c) = decls_code(ds, vars, n) {
                lemma_stmts_next(ss, c.vars, c.next);
                if let Ok(c2) = stmts_code(ss, c.vars, c.next) {
                    if 0 <= n && n + stmt_slots(s) <= usize::MAX {
                        lemma_slots_concat(c.insts, c2.insts);
                        lemma_numbered_concat(c.insts, c2.insts, n);
                    }
                }
            }
        },
        StmtModel::Jump(j) => match j {
            Jump::Return(e) => {
                lemma_expr_next(*e, vars, n);
                if let Ok(c) = expr_code(*e, vars, n) {
                    let ret = Inst::Ret { src: c.value as usize };
                    lemma_single_inst(ret, c.next);
                    lemma_slots_concat(c.insts, seq![ret]);
                    if 0 <= n && n + stmt_slots(s) <= usize::MAX {
                        lemma_numbered_concat(c.insts, seq![ret], n);
                    }
                }
            },
        },
    }
}

pub proof fn lemma_stmts_next<'a>(ss: Seq<StmtModel<'a>>, vars: Seq<(&'a str, Variable)>, n: int)
    ensures
        stmts_code(ss, vars, n) matches Ok(c) ==> c.next == n + stmts_slots(ss) && c.vars == vars,
        0 <= n && n + stmts_slots(ss) <= usize::MAX ==> (stmts_code(ss, vars, n) matches Ok(c) ==> c.next == n
            + slots_consumed(c.insts) && numbered_from(c.insts, n)),
    decreases ss,
{
    if ss.len() > 0 {
        lemma_stmt_next(ss[0], vars, n);
        if let Ok(c) = stmt_code(ss[0], vars, n) {
            lemma_stmts_next(ss.subrange(1, ss.len() as int), vars, c.next);
            if let Ok(c2) = stmts_code(ss.subrange(1, ss.len() as int), vars, c.next) {
                if 0 <= n && n + stmts_slots(ss) <= usize::MAX {
                    lemma_slots_concat(c.insts, c2.insts);
                    lemma_numbered_concat(c.insts, c2.insts, n);
                }
            }
        }
    }
}


impl<'a> InitDeclarator<'a> {
    /// Emits the slot of the declared variable and the store of its initial
    /// value, if any.
    pub fn gen_code(&self, state: &mut CodeGenState<'a>) -> (r: Result<(), CompileError<'a>>)
        requires
            old(state).reg + init_slots(*self) <= usize::MAX,
        ensures
            stmt_generated(r, *old(state), *final(state), init_code(*self, old(state).vars@, old(state).reg as int)),
    {
        let name = match self {
            InitDeclarator::Declarator(d) => match &**d {
                Declarator::Identifier(n) => *n,
            },
            InitDeclarator::DeclaratorWithValue(d, _) => match &**d {
                Declarator::Identifier(n) => *n,
            },
        };
        if state.find(name).is_some() {
            return Err(CompileError::Redeclared(name));
        }
        let reg = state.next_reg();
        state.emit(Inst::Alloca { dst: reg, align: ALIGN_I32 });
        state.vars.push((name, Variable::new(TY_I32, ALIGN_I32, reg)));
        match self {
            InitDeclarator::Declarator(_) => Ok(()),
            InitDeclarator::DeclaratorWithValue(_, init) => match &**init {
                Initializer::Additive(a) => {
                    proof {
                        lemma_additive_next(**a, state.vars@, state.reg as int);
                    }
                    let v = match a.gen_code(state) {
                        Ok(v) => v,
                        Err(e) => return Err(e),
                    };
                    state.emit(Inst::Store { src: v, slot: reg, align: ALIGN_I32 });
                    Ok(())
                },
            },
        }
    }
}

impl<'a> Decl<'a> {
    /// Emits each of the declared variables in turn.
    pub fn gen_code(&self, state: &mut CodeGenState<'a>) -> (r: Result<(), CompileError<'a>>)
        requires
            old(state).reg + inits_slots(self.inits@) <= usize::MAX,
        ensures
            stmt_generated(r, *old(state), *final(state), inits_code(self.inits@, old(state).vars@, old(state).reg as int)),
    {
        let ghost all = self.inits@;
        let ghost code0 = state.code@;
        let ghost vars0 = state.vars@;
        let ghost n0 = state.reg as int;
        let mut i: usize = 0;
        proof {
            assert(all.subrange(0, all.len() as int) =~= all);
            assert(state.code@.subrange(code0.len() as int, state.code@.len() as int) =~= Seq::<Inst>::empty());
        }
        while i < self.inits.len()
            invariant
                i <= all.len(),
                all == self.inits@,
                code0 == old(state).code@,
                vars0 == old(state).vars@,
                n0 == old(state).reg,
                code0.len() <= state.code@.len(),
                state.code@.subrange(0, code0.len() as int) == code0,
                state.reg + inits_slots(all.subrange(i as int, all.len() as int)) <= usize::MAX,
                inits_code(all, vars0, n0) == match inits_code(all.subrange(i as int, all.len() as int), state.vars@, state.reg as int) {
                    Ok(c) => Ok(StmtCode {
                        insts: state.code@.subrange(code0.len() as int, state.code@.len() as int) + c.insts,
                        next: c.next,
                        vars: c.vars,
                    }),
                    Err(e) => Err(e),
                },
            decreases all.len() - i,
        {
            let ghost rest = all.subrange(i as int, all.len() as int);
            let ghost done = state.code@.subrange(code0.len() as int, state.code@.len() as int);
            let ghost before = state.code@;
            let ghost vars_b = state.vars@;
            let ghost reg_b = state.reg as int;
            proof {
                assert(rest[0] == all[i as int]);
                assert(rest.drop_first() =~= all.subrange(i + 1, all.len() as int));
                lemma_init_next(all[i as int], vars_b, reg_b);
                assert(inits_code(rest, vars_b, reg_b) == match init_code(all[i as int], vars_b, reg_b) {
                    Ok(c) => match inits_code(all.subrange(i + 1, all.len() as int), c.vars, c.next) {
                        Ok(c2) => Ok(StmtCode { insts: c.insts + c2.insts, next: c2.next, vars: c2.vars }),
                        Err(e) => Err(e),
                    },
                    Err(e) => Err(e),
                });
            }
            match self.inits[i].gen_code(state) {
                Ok(()) => {},
                Err(e) => return Err(e),
            }
            proof {
                let c = init_code(all[i as int], vars_b, reg_b)->Ok_0;
                assert(state.code@ =~= before + c.insts);
                assert(state.code@.subrange(0, code0.len() as int) =~= code0);
                assert(state.code@.subrange(code0.len() as int, state.code@.len() as int) =~= done + c.insts);
                match inits_code(all.subrange(i + 1, all.len() as int), state.vars@, state.reg as int) {
                    Ok(c2) => {
                        assert(done + (c.insts + c2.insts) =~= (done + c.insts) + c2.insts);
                    },
                    Err(e) => {},
                }
            }
            i = i + 1;
        }
        proof {
            let done = state.code@.subrange(code0.len() as int, state.code@.len() as int);
            assert(all.subrange(i as int, all.len() as int) =~= Seq::<InitDeclarator<'a>>::empty());
            assert(done + Seq::<Inst>::empty() =~= done);
            assert(state.code@ =~= code0 + done);
        }
        Ok(())
    }
}


impl<'a> Jump<'a> {
    /// Emits the value, the `ret`, and skips the number of the block after it.
    pub fn gen_code(&self, state: &mut CodeGenState<'a>) -> (r: Result<(), CompileError<'a>>)
        requires
            old(state).reg + stmt_slots(StmtModel::Jump(*self)) <= usize::MAX,
        ensures
            stmt_generated(r, *old(state), *final(state), jump_code(*self, old(state).vars@, old(state).reg as int)),
    {
        match self {
            Jump::Return(expr) => {
                proof {
                    lemma_expr_next(**expr, state.vars@, state.reg as int);
                }
                let reg = match expr.gen_code(state) {
                    Ok(v) => v,
                    Err(e) => return Err(e),
                };
                state.emit(Inst::Ret { src: reg });
                // `ret` is a terminator: the block that follows it takes the
                // next number, so later instructions must skip it.
                state.next_reg();
                Ok(())
            },
        }
    }
}

impl<'a> Stmt<'a> {
    /// Emits the code of this statement.
    pub fn gen_code(&self, state: &mut CodeGenState<'a>) -> (r: Result<(), CompileError<'a>>)
        requires
            old(state).reg + stmt_slots(stmt_model(*self)) <= usize::MAX,
        ensures
            stmt_generated(r, *old(state), *final(state), stmt_code(stmt_model(*self), old(state).vars@, old(state).reg as int)),
        decreases self, 2nat,
    {
        match self {
            Stmt::Compound(compound) => compound.gen_code(state),
            Stmt::Jump(jump) => jump.gen_code(state),
        }
    }
}

impl<'a> Compound<'a> {
    /// Emits the declarations, then the statements; the variables declared
    /// here go out of scope at the end.
    pub fn gen_code(&self, state: &mut CodeGenState<'a>) -> (r: Result<(), CompileError<'a>>)
        requires
            old(state).reg + stmt_slots(StmtModel::Compound(decls_model(self.decls@), stmts_model(self.stmts@))) <= usize::MAX,
        ensures
            stmt_generated(
                r,
                *old(state),
                *final(state),
                stmt_code(StmtModel::Compound(decls_model(self.decls@), stmts_model(self.stmts@)), old(state).vars@, old(state).reg as int),
            ),
        decreases self, 1nat,
    {
        let scope = state.vars.len();
        proof {
            lemma_decls_next(decls_model(self.decls@), state.vars@, state.reg as int);
        }
        match self.gen_decls(state) {
            Ok(()) => {},
            Err(e) => return Err(e),
        }
        let ghost code1 = state.code@;
        match self.gen_stmts(state) {
            Ok(()) => {},
            Err(e) => return Err(e),
        }
        state.vars.truncate(scope);
        proof {
            assert(state.vars@ =~= old(state).vars@);
        }
        Ok(())
    }

    /// Emits the declarations in order.
    fn gen_decls(&self, state: &mut CodeGenState<'a>) -> (r: Result<(), CompileError<'a>>)
        requires
            old(state).reg + decls_slots(decls_model(self.decls@)) <= usize::MAX,
        ensures
            stmt_generated(r, *old(state), *final(state), decls_code(decls_model(self.decls@), old(state).vars@, old(state).reg as int)),
    {
        let ghost ds = decls_model(self.decls@);
        let ghost code0 = state.code@;
        let ghost vars0 = state.vars@;
        let ghost n0 = state.reg as int;
        proof {
            assert(ds.subrange(0, ds.len() as int) =~= ds);
            assert(state.code@.subrange(code0.len() as int, state.code@.len() as int) =~= Seq::<Inst>::empty());
        }
        let mut i: usize = 0;
        while i < self.decls.len()
            invariant
                i <= ds.len(),
                ds == decls_model(self.decls@),
                code0 == old(state).code@,
                vars0 == old(state).vars@,
                n0 == old(state).reg,
                code0.len() <= state.code@.len(),
                state.code@.subrange(0, code0.len() as int) == code0,
                state.reg + decls_slots(ds.subrange(i as int, ds.len() as int)) <= usize::MAX,
                decls_code(ds, vars0, n0) == match decls_code(ds.subrange(i as int, ds.len() as int), state.vars@, state.reg as int) {
                    Ok(c) => Ok(StmtCode {
                        insts: state.code@.subrange(code0.len() as int, state.code@.len() as int) + c.insts,
                        next: c.next,
                        vars: c.vars,
                    }),
                    Err(e) => Err(e),
                },
            decreases ds.len() - i,
        {
            let ghost rest = ds.subrange(i as int, ds.len() as int);
            let ghost done = state.code@.subrange(code0.len() as int, state.code@.len() as int);
            let ghost before = state.code@;
            let ghost vars_b = state.vars@;
            let ghost reg_b = state.reg as int;
            proof {
                assert(rest[0] == ds[i as int]);
                assert(ds[i as int].inits == self.decls@[i as int].inits@);
                assert(rest.drop_first() =~= ds.subrange(i + 1, ds.len() as int));
                lemma_inits_next(ds[i as int].inits, vars_b, reg_b);
                assert(decls_code(rest, vars_b, reg_b) == match inits_code(ds[i as int].inits, vars_b, reg_b) {
                    Ok(c) => match decls_code(ds.subrange(i + 1, ds.len() as int), c.vars, c.next) {
                        Ok(c2) => Ok(StmtCode { insts: c.insts + c2.insts, next: c2.next, vars: c2.vars }),
                        Err(e) => Err(e),
                    },
                    Err(e) => Err(e),
                });
            }
            match self.decls[i].gen_code(state) {
                Ok(()) => {},
                Err(e) => return Err(e),
            }
            proof {
                let c = inits_code(ds[i as int].inits, vars_b, reg_b)->Ok_0;
                assert(state.code@ =~= before + c.insts);
                assert(state.code@.subrange(0, code0.len() as int) =~= code0);
                assert(state.code@.subrange(code0.len() as int, state.code@.len() as int) =~= done + c.insts);
                match decls_code(ds.subrange(i + 1, ds.len() as int), state.vars@, state.reg as int) {
                    Ok(c2) => {
                        assert(done + (c.insts + c2.insts) =~= (done + c.insts) + c2.insts);
                    },
                    Err(e) => {},
                }
            }
            i = i + 1;
        }
        proof {
            let done = state.code@.subrange(code0.len() as int, state.code@.len() as int);
            assert(ds.subrange(i as int, ds.len() as int) =~= Seq::<DeclModel<'a>>::empty());
            assert(done + Seq::<Inst>::empty() =~= done);
            assert(state.code@ =~= code0 + done);
        }
        Ok(())
    }

    /// Emits the statements in order, each in the scope of the declarations.
    fn gen_stmts(&self, state: &mut CodeGenState<'a>) -> (r: Result<(), CompileError<'a>>)
        requires
            old(state).reg + stmts_slots(stmts_model(self.stmts@)) <= usize::MAX,
        ensures
            stmt_generated(r, *old(state), *final(state), stmts_code(stmts_model(self.stmts@), old(state).vars@, old(state).reg as int)),
        decreases self, 0nat,
    {
        let ghost ss = stmts_model(self.stmts@);
        let ghost code1 = state.code@;
        let ghost vars1 = state.vars@;
        let ghost n1 = state.reg as int;
        proof {
            lemma_stmts_model(self.stmts@);
            assert(ss.subrange(0, ss.len() as int) =~= ss);
            assert(state.code@.subrange(code1.len() as int, state.code@.len() as int) =~= Seq::<Inst>::empty());
        }
        let mut j: usize = 0;
        while j < self.stmts.len()
            invariant
                j <= ss.len(),
                ss.len() == self.stmts@.len(),
                ss == stmts_model(self.stmts@),
                forall|k: int| 0 <= k < self.stmts@.len() ==> #[trigger] ss[k] == stmt_model(self.stmts@[k]),
                code1 == old(state).code@,
                vars1 == old(state).vars@,
                n1 == old(state).reg,
                code1.len() <= state.code@.len(),
                state.code@.subrange(0, code1.len() as int) == code1,
                state.vars@ == vars1,
                state.reg + stmts_slots(ss.subrange(j as int, ss.len() as int)) <= usize::MAX,
                stmts_code(ss, vars1, n1) == match stmts_code(ss.subrange(j as int, ss.len() as int), vars1, state.reg as int) {
                    Ok(c) => Ok(StmtCode {
                        insts: state.code@.subrange(code1.len() as int, state.code@.len() as int) + c.insts,
                        next: c.next,
                        vars: vars1,
                    }),
                    Err(e) => Err(e),
                },
            decreases ss.len() - j,
        {
            let ghost rest = ss.subrange(j as int, ss.len() as int);
            let ghost done = state.code@.subrange(code1.len() as int, state.code@.len() as int);
            let ghost before = state.code@;
            let ghost reg_b = state.reg as int;
            proof {
                assert(rest[0] == ss[j as int]);
                assert(rest.subrange(1, rest.len() as int) =~= ss.subrange(j + 1, ss.len() as int));
                lemma_stmt_next(ss[j as int], vars1, reg_b);
                assert(stmts_code(rest, vars1, reg_b) == match stmt_code(ss[j as int], vars1, reg_b) {
                    Ok(c) => match stmts_code(ss.subrange(j + 1, ss.len() as int), vars1, c.next) {
                        Ok(c2) => Ok(StmtCode { insts: c.insts + c2.insts, next: c2.next, vars: vars1 }),
                        Err(e) => Err(e),
                    },
                    Err(e) => Err(e),
                });
                assert(decreases_to!(self.stmts => self.stmts@[j as int]));
            }
            match self.stmts[j].gen_code(state) {
                Ok(()) => {},
                Err(e) => return Err(e),
            }
            proof {
                let c = stmt_code(ss[j as int], vars1, reg_b)->Ok_0;
                assert(state.code@ =~= before + c.insts);
                assert(state.code@.subrange(0, code1.len() as int) =~= code1);
                assert(state.code@.subrange(code1.len() as int, state.code@.len() as int) =~= done + c.insts);
                match stmts_code(ss.subrange(j + 1, ss.len() as int), vars1, state.reg as int) {
                    Ok(c2) => {
                        assert(done + (c.insts + c2.insts) =~= (done + c.insts) + c2.insts);
                    },
                    Err(e) => {},
                }
            }
            j = j + 1;
        }
        proof {
            let done = state.code@.subrange(code1.len() as int, state.code@.len() as int);
            assert(ss.subrange(j as int, ss.len() as int) =~= Seq::<StmtModel<'a>>::empty());
            assert(done + Seq::<Inst>::empty() =~= done);
            assert(state.code@ =~= code1 + done);
        }
        Ok(())
    }
}


pub proof fn lemma_init_declarator_parse_slots<'a>(ts: Seq<Token<'a>>)
    ensures
        parse_init_declarator_spec(ts) matches Ok((i, rest)) ==> rest.len() < ts.len() && init_slots(i) <= ts.len() - rest.len(),
{
    if let Ok((d, rest)) = parse_declarator_spec(ts) {
        if rest.len() > 0 && rest[0] is OpAssign {
            lemma_additive_parse_slots(rest.drop_first());
        }
    }
}

pub proof fn lemma_decls_parse_slots<'a>(ts: Seq<Token<'a>>)
    ensures
        parse_decls_spec(ts) matches Ok((ds, rest)) ==> rest.len() <= ts.len() && decls_slots(ds) <= ts.len() - rest.len(),
    decreases ts.len(),
{
    if ts.len() > 0 && ts[0] is TyInt {
        lemma_init_declarator_parse_slots(ts.drop_first());
        if let Ok((d, rest)) = parse_decl_spec(ts) {
            lemma_decls_parse_slots(rest);
            if let Ok((ds, rest2)) = parse_decls_spec(rest) {
                let all = seq![d] + ds;
                assert(all[0] == d);
                assert(all.drop_first() =~= ds);
                assert(d.inits.len() == 1);
                assert(d.inits.drop_first() =~= Seq::<InitDeclarator<'a>>::empty());
                assert(inits_slots(d.inits) == init_slots(d.inits[0]) + inits_slots(d.inits.drop_first()));
                assert(decls_slots(all) == inits_slots(d.inits) + decls_slots(ds));
            }
        }
    }
}

pub proof fn lemma_stmts_parse_slots<'a>(ts: Seq<Token<'a>>)
    ensures
        parse_stmts_spec(ts) matches Ok((ss, rest)) ==> rest.len() < ts.len() && stmts_slots(ss) <= ts.len() - rest.len(),
    decreases ts.len(), 4nat,
{
    lemma_stmt_parse_slots(ts);
    if let Ok((s, rest)) = parse_stmt_spec(ts) {
        if rest.len() > 0 && rest[0] is SyRBrace {
            assert(seq![s][0] == s);
            assert(seq![s].subrange(1, 1) =~= Seq::<StmtModel<'a>>::empty());
            assert(stmts_slots(seq![s]) == stmt_slots(s) + stmts_slots(seq![s].subrange(1, 1)));
        } else if rest.len() < ts.len() {
            lemma_stmts_parse_slots(rest);
            if let Ok((ss, rest2)) = parse_stmts_spec(rest) {
                let all = seq![s] + ss;
                assert(all[0] == s);
                assert(all.subrange(1, all.len() as int) =~= ss);
                assert(stmts_slots(all) == stmt_slots(s) + stmts_slots(ss));
            }
        }
    }
}

pub proof fn lemma_stmt_parse_slots<'a>(ts: Seq<Token<'a>>)
    ensures
        parse_stmt_spec(ts) matches Ok((s, rest)) ==> rest.len() < ts.len() && stmt_slots(s) <= ts.len() - rest.len(),
    decreases ts.len(), 3nat,
{
    if ts.len() > 0 && ts[0] is SyLBrace {
        lemma_compound_parse_slots(ts);
    } else if ts.len() > 0 && ts[0] is KwReturn {
        lemma_expr_parse_slots(ts.drop_first());
    }
}

pub proof fn lemma_compound_parse_slots<'a>(ts: Seq<Token<'a>>)
    ensures
        parse_compound_spec(ts) matches Ok(((ds, ss), rest)) ==> rest.len() < ts.len()
            && decls_slots(ds) + stmts_slots(ss) <= ts.len() - rest.len(),
    decreases ts.len(), 2nat,
{
    if ts.len() > 0 && ts[0] is SyLBrace {
        lemma_decls_parse_slots(ts.drop_first());
        if let Ok((ds, rest)) = parse_decls_spec(ts.drop_first()) {
            if rest.len() < ts.len() {
                lemma_stmts_parse_slots(rest);
            }
        }
    }
}


/// The names that a list of init-declarators declares, in order.
pub open spec fn inits_names<'a>(inits: Seq<InitDeclarator<'a>>) -> Seq<Seq<char>> {
    inits.map_values(|i: InitDeclarator<'a>| declared_name(i)@)
}

/// The names that a list of declarations declares, in order.
pub open spec fn decls_names<'a>(ds: Seq<DeclModel<'a>>) -> Seq<Seq<char>>
    decreases ds.len(),
{
    if ds.len() == 0 {
        Seq::empty()
    } else {
        inits_names(ds[0].inits) + decls_names(ds.drop_first())
    }
}

/// No name occurs twice.
pub open spec fn all_distinct(names: Seq<Seq<char>>) -> bool {
    forall|a: int, b: int| 0 <= a < b < names.len() ==> names[a] != names[b]
}

/// What successful code generation for declarations shows of the names they
/// declare: none was in scope before, none is declared twice, and all are in
/// scope after, along with the earlier ones.
pub open spec fn declares<'a>(names: Seq<Seq<char>>, vars: Seq<(&'a str, Variable)>, after: Seq<(&'a str, Variable)>) -> bool {
    &&& forall|k: int| 0 <= k < names.len() ==> lookup(vars, #[trigger] names[k]) is None
    &&& all_distinct(names)
    &&& forall|x: Seq<char>| lookup(vars, x) is Some ==> #[trigger] lookup(after, x) is Some
    &&& forall|k: int| 0 <= k < names.len() ==> lookup(after, #[trigger] names[k]) is Some
}

pub proof fn lemma_lookup_push<'a>(vars: Seq<(&'a str, Variable)>, p: (&'a str, Variable), x: Seq<char>)
    ensures
        lookup(vars.push(p), x) is Some <==> (lookup(vars, x) is Some || p.0@ == x),
{
    assert(vars.push(p).drop_last() =~= vars);
}

pub proof fn lemma_declares_concat<'a>(
    n1: Seq<Seq<char>>,
    n2: Seq<Seq<char>>,
    v0: Seq<(&'a str, Variable)>,
    v1: Seq<(&'a str, Variable)>,
    v2: Seq<(&'a str, Variable)>,
)
    requires
        declares(n1, v0, v1),
        declares(n2, v1, v2),
    ensures
        declares(n1 + n2, v0, v2),
{
    let all = n1 + n2;
    assert forall|k: int| 0 <= k < all.len() implies lookup(v0, #[trigger] all[k]) is None by {
        if k >= n1.len() {
            assert(all[k] == n2[k - n1.len()]);
            if lookup(v0, all[k]) is Some {
                assert(lookup(v1, all[k]) is Some);
            }
        }
    }
    assert forall|a: int, b: int| 0 <= a < b < all.len() implies all[a] != all[b] by {
        if a < n1.len() && b >= n1.len() {
            assert(all[b] == n2[b - n1.len()]);
            assert(lookup(v1, n1[a]) is Some);
        } else if a >= n1.len() {
            assert(all[a] == n2[a - n1.len()]);
            assert(all[b] == n2[b - n1.len()]);
        }
    }
    assert forall|k: int| 0 <= k < all.len() implies lookup(v2, #[trigger] all[k]) is Some by {
        if k < n1.len() {
            assert(lookup(v1, n1[k]) is Some);
        } else {
            assert(all[k] == n2[k - n1.len()]);
        }
    }
}

pub proof fn lemma_init_declares<'a>(i: InitDeclarator<'a>, vars: Seq<(&'a str, Variable)>, n: int)
    ensures
        init_code(i, vars, n) matches Ok(c) ==> declares(seq![declared_name(i)@], vars, c.vars),
{
    if let Ok(c) = init_code(i, vars, n) {
        let name = declared_name(i);
        let p = (name, Variable { tyir: TY_I32, align: ALIGN_I32, reg: (n + 1) as usize });
        assert(c.vars == vars.push(p));
        assert forall|x: Seq<char>| lookup(vars, x) is Some implies #[trigger] lookup(c.vars, x) is Some by {
            lemma_lookup_push(vars, p, x);
        }
        lemma_lookup_push(vars, p, name@);
    }
}

pub proof fn lemma_inits_declares<'a>(inits: Seq<InitDeclarator<'a>>, vars: Seq<(&'a str, Variable)>, n: int)
    ensures
        inits_code(inits, vars, n) matches Ok(c) ==> declares(inits_names(inits), vars, c.vars),
    decreases inits.len(),
{
    if inits.len() == 0 {
        assert(inits_names(inits) =~= Seq::<Seq<char>>::empty());
    } else {
        lemma_init_declares(inits[0], vars, n);
        if let Ok(c) = init_code(inits[0], vars, n) {
            lemma_inits_declares(inits.drop_first(), c.vars, c.next);
            if let Ok(c2) = inits_code(inits.drop_first(), c.vars, c.next) {
                assert(inits_names(inits) =~= seq![declared_name(inits[0])@] + inits_names(inits.drop_first()));
                lemma_declares_concat(seq![declared_name(inits[0])@], inits_names(inits.drop_first()), vars, c.vars, c2.vars);
            }
        }
    }
}

pub proof fn lemma_decls_declares<'a>(ds: Seq<DeclModel<'a>>, vars: Seq<(&'a str, Variable)>, n: int)
    ensures
        decls_code(ds, vars, n) matches Ok(c) ==> declares(decls_names(ds), vars, c.vars),
    decreases ds.len(),
{
    if ds.len() > 0 {
        lemma_inits_declares(ds[0].inits, vars, n);
        if let Ok(c) = inits_code(ds[0].inits, vars, n) {
            lemma_decls_declares(ds.drop_first(), c.vars, c.next);
            if let Ok(c2) = decls_code(ds.drop_first(), c.vars, c.next) {
                lemma_declares_concat(inits_names(ds[0].inits), decls_names(ds.drop_first()), vars, c.vars, c2.vars);
            }
        }
    }
}

/// Declaring one name twice among the declarations of a compound is fatal:
/// code generation for the compound ends in an error.
pub proof fn lemma_redeclaration_is_fatal<'a>(
    ds: Seq<DeclModel<'a>>,
    ss: Seq<StmtModel<'a>>,
    vars: Seq<(&'a str, Variable)>,
    n: int,
    i: int,
    j: int,
)
    requires
        0 <= i < j < decls_names(ds).len(),
        decls_names(ds)[i] == decls_names(ds)[j],
    ensures
        stmt_code(StmtModel::Compound(ds, ss), vars, n) is Err,
{
    lemma_decls_declares(ds, vars, n);
}

} // verus!
