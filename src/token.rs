use vstd::prelude::*;

verus! {

/// A token of the source language. Identifiers and integer literals borrow
/// their spelling from the source text.
#[derive(Debug, Clone, Copy)]
pub enum Token<'a> {
    TyInt,
    TyVoid,
    KwReturn,
    OpAdd,
    OpSub,
    OpMul,
    OpDiv,
    OpRem,
    OpAssign,
    SyLPar,
    SyRPar,
    SyLBrace,
    SyRBrace,
    SySemicolon,
    Ident(&'a str),
    Literal(&'a str),
}

/// What a token is, with the spelling of an identifier or a literal as characters.
pub enum Lexeme {
    TyInt,
    TyVoid,
    KwReturn,
    OpAdd,
    OpSub,
    OpMul,
    OpDiv,
    OpRem,
    OpAssign,
    SyLPar,
    SyRPar,
    SyLBrace,
    SyRBrace,
    SySemicolon,
    Ident(Seq<char>),
    Literal(Seq<char>),
}

impl<'a> View for Token<'a> {
    type V = Lexeme;

    open spec fn view(&self) -> Lexeme {
        match *self {
            Token::TyInt => Lexeme::TyInt,
            Token::TyVoid => Lexeme::TyVoid,
            Token::KwReturn => Lexeme::KwReturn,
            Token::OpAdd => Lexeme::OpAdd,
            Token::OpSub => Lexeme::OpSub,
            Token::OpMul => Lexeme::OpMul,
            Token::OpDiv => Lexeme::OpDiv,
            Token::OpRem => Lexeme::OpRem,
            Token::OpAssign => Lexeme::OpAssign,
            Token::SyLPar => Lexeme::SyLPar,
            Token::SyRPar => Lexeme::SyRPar,
            Token::SyLBrace => Lexeme::SyLBrace,
            Token::SyRBrace => Lexeme::SyRBrace,
            Token::SySemicolon => Lexeme::SySemicolon,
            Token::Ident(s) => Lexeme::Ident(s@),
            Token::Literal(s) => Lexeme::Literal(s@),
        }
    }
}

pub open spec fn is_digit(c: char) -> bool {
    '0' <= c && c <= '9'
}

pub open spec fn is_ident_start(c: char) -> bool {
    ('a' <= c && c <= 'z') || ('A' <= c && c <= 'Z') || c == '_'
}

pub open spec fn is_ident_char(c: char) -> bool {
    is_ident_start(c) || is_digit(c)
}

/// A regular identifier: `[A-Za-z_][A-Za-z0-9_]*`.
pub open spec fn is_ident_text(s: Seq<char>) -> bool {
    &&& s.len() > 0
    &&& is_ident_start(s[0])
    &&& forall|i: int| 1 <= i < s.len() ==> is_ident_char(#[trigger] s[i])
}

/// An integer literal: `[0-9]+`.
pub open spec fn is_literal_text(s: Seq<char>) -> bool {
    &&& s.len() > 0
    &&& forall|i: int| 0 <= i < s.len() ==> is_digit(#[trigger] s[i])
}

/// The token that a whole piece of text spells, if any: the fixed spellings
/// of keywords and symbols first, then an identifier, then an integer literal.
pub open spec fn classify(s: Seq<char>) -> Option<Lexeme> {
    if s == seq!['i', 'n', 't'] {
        Some(Lexeme::TyInt)
    } else if s == seq!['v', 'o', 'i', 'd'] {
        Some(Lexeme::TyVoid)
    } else if s == seq!['r', 'e', 't', 'u', 'r', 'n'] {
        Some(Lexeme::KwReturn)
    } else if s == seq!['+'] {
        Some(Lexeme::OpAdd)
    } else if s == seq!['-'] {
        Some(Lexeme::OpSub)
    } else if s == seq!['*'] {
        Some(Lexeme::OpMul)
    } else if s == seq!['/'] {
        Some(Lexeme::OpDiv)
    } else if s == seq!['%'] {
        Some(Lexeme::OpRem)
    } else if s == seq!['='] {
        Some(Lexeme::OpAssign)
    } else if s == seq!['('] {
        Some(Lexeme::SyLPar)
    } else if s == seq![')'] {
        Some(Lexeme::SyRPar)
    } else if s == seq!['{'] {
        Some(Lexeme::SyLBrace)
    } else if s == seq!['}'] {
        Some(Lexeme::SyRBrace)
    } else if s == seq![';'] {
        Some(Lexeme::SySemicolon)
    } else if is_ident_text(s) {
        Some(Lexeme::Ident(s))
    } else if is_literal_text(s) {
        Some(Lexeme::Literal(s))
    } else {
        None
    }
}

/// The pattern of an identifier, anchored at both ends.
pub const IDENT_PATTERN: &'static str = "^[a-zA-Z_][a-zA-Z0-9_]*$";

/// The pattern of an integer literal, anchored at both ends.
pub const LITERAL_PATTERN: &'static str = "^[0-9]+$";

/// Relies on `regex::Regex::new`, which compiles either pattern above
/// without error, and on `regex::Regex::is_match`, which reports whether the
/// pattern matches somewhere in `text`. Both patterns are anchored by `^` and
/// `$` at the start and end of the text, and their classes are ASCII ranges,
/// so a match means that the whole text is an identifier (or a literal).
#[verifier::external_body]
fn regex_is_match(pattern: &str, text: &str) -> (r: bool)
    requires
        pattern@ == IDENT_PATTERN@ || pattern@ == LITERAL_PATTERN@,
    ensures
        pattern@ == IDENT_PATTERN@ ==> r == is_ident_text(text@),
        pattern@ == LITERAL_PATTERN@ ==> r == is_literal_text(text@),
{
    regex::Regex::new(pattern).unwrap().is_match(text)
}

/// Whether two texts are spelled with the same characters.
pub fn same_text(a: &str, b: &str) -> (r: bool)
    ensures
        r == (a@ == b@),
{
    let n = a.unicode_len();
    if n != b.unicode_len() {
        return false;
    }
    let mut i: usize = 0;
    while i < n
        invariant
            n == a@.len(),
            n == b@.len(),
            i <= n,
            forall|j: int| 0 <= j < i ==> a@[j] == b@[j],
        decreases n - i,
    {
        if a.get_char(i) != b.get_char(i) {
            return false;
        }
        i = i + 1;
    }
    assert(a@ =~= b@);
    true
}

impl<'a> Token<'a> {
    /// The token that the whole of `token_str` spells, or `None`.
    pub fn from_str(token_str: &'a str) -> (r: Option<Token<'a>>)
        ensures
            match r {
                Some(t) => {
                    &&& classify(token_str@) == Some(t@)
                    &&& (t is Ident ==> t->Ident_0 == token_str)
                    &&& (t is Literal ==> t->Literal_0 == token_str)
                },
                None => classify(token_str@) is None,
            },
    {
        proof {
            reveal_strlit("int");
            reveal_strlit("void");
            reveal_strlit("return");
            reveal_strlit("+");
            reveal_strlit("-");
            reveal_strlit("*");
            reveal_strlit("/");
            reveal_strlit("%");
            reveal_strlit("=");
            reveal_strlit("(");
            reveal_strlit(")");
            reveal_strlit("{");
            reveal_strlit("}");
            reveal_strlit(";");
            assert("int"@ =~= seq!['i', 'n', 't']);
            assert("void"@ =~= seq!['v', 'o', 'i', 'd']);
            assert("return"@ =~= seq!['r', 'e', 't', 'u', 'r', 'n']);
            assert("+"@ =~= seq!['+']);
            assert("-"@ =~= seq!['-']);
            assert("*"@ =~= seq!['*']);
            assert("/"@ =~= seq!['/']);
            assert("%"@ =~= seq!['%']);
            assert("="@ =~= seq!['=']);
            assert("("@ =~= seq!['(']);
            assert(")"@ =~= seq![')']);
            assert("{"@ =~= seq!['{']);
            assert("}"@ =~= seq!['}']);
            assert(";"@ =~= seq![';']);
        }
        if same_text(token_str, "int") {
            Some(Token::TyInt)
        } else if same_text(token_str, "void") {
            Some(Token::TyVoid)
        } else if same_text(token_str, "return") {
            Some(Token::KwReturn)
        } else if same_text(token_str, "+") {
            Some(Token::OpAdd)
        } else if same_text(token_str, "-") {
            Some(Token::OpSub)
        } else if same_text(token_str, "*") {
            Some(Token::OpMul)
        } else if same_text(token_str, "/") {
            Some(Token::OpDiv)
        } else if same_text(token_str, "%") {
            Some(Token::OpRem)
        } else if same_text(token_str, "=") {
            Some(Token::OpAssign)
        } else if same_text(token_str, "(") {
            Some(Token::SyLPar)
        } else if same_text(token_str, ")") {
            Some(Token::SyRPar)
        } else if same_text(token_str, "{") {
            Some(Token::SyLBrace)
        } else if same_text(token_str, "}") {
            Some(Token::SyRBrace)
        } else if same_text(token_str, ";") {
            Some(Token::SySemicolon)
        } else if regex_is_match(IDENT_PATTERN, token_str) {
            Some(Token::Ident(token_str))
        } else if regex_is_match(LITERAL_PATTERN, token_str) {
            Some(Token::Literal(token_str))
        } else {
            None
        }
    }
}


impl<'a> PartialEq for Token<'a> {
    fn eq(&self, other: &Token<'a>) -> (r: bool)
        ensures
            r == (self@ == other@),
    {
        match (*self, *other) {
            (Token::Ident(a), Token::Ident(b)) => same_text(a, b),
            (Token::Literal(a), Token::Literal(b)) => same_text(a, b),
            (Token::TyInt, Token::TyInt) => true,
            (Token::TyVoid, Token::TyVoid) => true,
            (Token::KwReturn, Token::KwReturn) => true,
            (Token::OpAdd, Token::OpAdd) => true,
            (Token::OpSub, Token::OpSub) => true,
            (Token::OpMul, Token::OpMul) => true,
            (Token::OpDiv, Token::OpDiv) => true,
            (Token::OpRem, Token::OpRem) => true,
            (Token::OpAssign, Token::OpAssign) => true,
            (Token::SyLPar, Token::SyLPar) => true,
            (Token::SyRPar, Token::SyRPar) => true,
            (Token::SyLBrace, Token::SyLBrace) => true,
            (Token::SyRBrace, Token::SyRBrace) => true,
            (Token::SySemicolon, Token::SySemicolon) => true,
            _ => false,
        }
    }
}

impl<'a> vstd::std_specs::cmp::PartialEqSpecImpl for Token<'a> {
    open spec fn obeys_eq_spec() -> bool {
        true
    }

    open spec fn eq_spec(&self, other: &Token<'a>) -> bool {
        self@ == other@
    }
}

impl<'a> Eq for Token<'a> {}

/// What was expected where a syntax error was found.
#[derive(Debug, Clone, Copy)]
pub enum Expected<'a> {
    /// This very token.
    Token(Token<'a>),
    /// A primary expression: a literal, an identifier or a parenthesised expression.
    Primary,
    /// A type specifier (`int`).
    TypeSpecifier,
    /// An identifier naming a declared variable.
    Identifier,
    /// The end of the input.
    EndOfInput,
}

/// Why a source text could not be compiled.
#[derive(Debug, Clone, Copy)]
pub enum CompileError<'a> {
    /// No token starts with this character.
    UnrecognizedChar(char),
    /// The parser expected one thing and found another token, or nothing.
    Unexpected { expected: Expected<'a>, found: Option<Token<'a>> },
    /// A token other than the one required was found; the message says what was missing.
    Syntax { message: &'a str, found: Option<Token<'a>> },
    /// An assignment expression, which the language reserves but does not support.
    AssignmentUnsupported,
    /// An integer literal whose value does not fit in a 32-bit signed integer.
    LiteralOutOfRange(&'a str),
    /// An identifier used without a declaration in scope.
    Undeclared(&'a str),
    /// An identifier declared twice in one scope.
    Redeclared(&'a str),
}

/// A read cursor over a slice of tokens.
#[derive(Debug, Clone, Copy)]
pub struct Tokens<'a> {
    tokens: &'a [Token<'a>],
    pos: usize,
}

impl<'a> View for Tokens<'a> {
    type V = Seq<Token<'a>>;

    /// The tokens not yet consumed.
    closed spec fn view(&self) -> Seq<Token<'a>> {
        self.tokens@.subrange(self.pos as int, self.tokens@.len() as int)
    }
}

impl<'a> Tokens<'a> {
    #[verifier::type_invariant]
    closed spec fn inv(&self) -> bool {
        self.pos <= self.tokens@.len()
    }

    pub fn new(tokens: &'a [Token<'a>]) -> (r: Tokens<'a>)
        ensures
            r@ == tokens@,
    {
        let r = Tokens { tokens, pos: 0 };
        assert(r@ =~= tokens@);
        r
    }

    /// Consumes and returns the next token, if any.
    pub fn next(&mut self) -> (r: Option<Token<'a>>)
        ensures
            old(self)@.len() == 0 ==> r is None && final(self)@ == old(self)@,
            old(self)@.len() > 0 ==> r == Some(old(self)@[0]) && final(self)@ == old(self)@.drop_first(),
    {
        proof {
            use_type_invariant(&*self);
        }
        if self.pos < self.tokens.len() {
            let t = self.tokens[self.pos];
            self.pos = self.pos + 1;
            assert(self@ =~= old(self)@.drop_first());
            Some(t)
        } else {
            None
        }
    }

    /// The next token, if any, without consuming it.
    pub fn peek(&self) -> (r: Option<Token<'a>>)
        ensures
            self@.len() == 0 ==> r is None,
            self@.len() > 0 ==> r == Some(self@[0]),
    {
        proof {
            use_type_invariant(self);
        }
        if self.pos < self.tokens.len() {
            Some(self.tokens[self.pos])
        } else {
            None
        }
    }

    /// Consumes one token, which must be `expect`.
    pub fn eat(&mut self, expect: Token<'a>) -> (r: Result<(), CompileError<'a>>)
        ensures
            final(self)@ == if old(self)@.len() > 0 { old(self)@.drop_first() } else { old(self)@ },
            r is Ok <==> (old(self)@.len() > 0 && old(self)@[0]@ == expect@),
            r is Err ==> r == Err::<(), CompileError<'a>>(
                CompileError::Unexpected { expected: Expected::Token(expect), found: first_of(old(self)@) },
            ),
    {
        self.eat_impl(expect, None)
    }

    /// Consumes one token, which must be `expect`; `msg_if_fails` says what is
    /// missing otherwise.
    pub fn eat_err(&mut self, expect: Token<'a>, msg_if_fails: &'a str) -> (r: Result<(), CompileError<'a>>)
        ensures
            final(self)@ == if old(self)@.len() > 0 { old(self)@.drop_first() } else { old(self)@ },
            r is Ok <==> (old(self)@.len() > 0 && old(self)@[0]@ == expect@),
            r is Err ==> r == Err::<(), CompileError<'a>>(
                CompileError::Syntax { message: msg_if_fails, found: first_of(old(self)@) },
            ),
    {
        self.eat_impl(expect, Some(msg_if_fails))
    }

    fn eat_impl(&mut self, expect: Token<'a>, msg_if_fails: Option<&'a str>) -> (r: Result<(), CompileError<'a>>)
        ensures
            final(self)@ == if old(self)@.len() > 0 { old(self)@.drop_first() } else { old(self)@ },
            r is Ok <==> (old(self)@.len() > 0 && old(self)@[0]@ == expect@),
            r is Err ==> r == Err::<(), CompileError<'a>>(
                match msg_if_fails {
                    None => CompileError::Unexpected { expected: Expected::Token(expect), found: first_of(old(self)@) },
                    Some(message) => CompileError::Syntax { message, found: first_of(old(self)@) },
                },
            ),
    {
        let token = self.next();
        match token {
            Some(t) if t == expect => Ok(()),
            _ => match msg_if_fails {
                None => Err(CompileError::Unexpected { expected: Expected::Token(expect), found: token }),
                Some(message) => Err(CompileError::Syntax { message, found: token }),
            },
        }
    }

    /// Whether every token has been consumed.
    pub fn is_empty(&self) -> (r: bool)
        ensures
            r == (self@.len() == 0),
    {
        self.peek().is_none()
    }
}

/// The first of a sequence of tokens, if any.
pub open spec fn first_of<'a>(ts: Seq<Token<'a>>) -> Option<Token<'a>> {
    if ts.len() > 0 {
        Some(ts[0])
    } else {
        None
    }
}

} // verus!
