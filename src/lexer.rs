use vstd::prelude::*;

use crate::token::{classify, CompileError, Lexeme, Token};

verus! {

/// Whether `c` has the Unicode White_Space property.
pub open spec fn is_space(c: char) -> bool {
    ('\u{9}' <= c && c <= '\u{d}') || c == ' ' || c == '\u{85}' || c == '\u{a0}' || c
        == '\u{1680}' || ('\u{2000}' <= c && c <= '\u{200a}') || c == '\u{2028}' || c == '\u{2029}'
        || c == '\u{202f}' || c == '\u{205f}' || c == '\u{3000}'
}

/// The first position at or after `i` that does not hold whitespace.
pub open spec fn skip_spaces(cs: Seq<char>, i: int) -> int
    decreases cs.len() - i,
{
    if 0 <= i < cs.len() && is_space(cs[i]) {
        skip_spaces(cs, i + 1)
    } else {
        i
    }
}

/// Starting with `k` characters from `first` that spell a token, the length of
/// the longest run whose every prefix spells a token. As every prefix of a
/// token's spelling spells a token too, this is the longest token at `first`.
pub open spec fn run_len(cs: Seq<char>, first: int, k: int) -> int
    decreases cs.len() - first - k,
{
    if 0 <= first && 0 <= k && first + k < cs.len() && classify(cs.subrange(first, first + k + 1))
        is Some {
        run_len(cs, first, k + 1)
    } else {
        k
    }
}

/// One step of the lexer at position `pos`: `None` at the end of the input,
/// the offending character where no token starts, else the token and the
/// position after it.
pub open spec fn lex_step(cs: Seq<char>, pos: int) -> Option<Result<(Lexeme, int), char>> {
    let first = skip_spaces(cs, pos);
    if first >= cs.len() {
        None
    } else {
        let k = run_len(cs, first, 0);
        if k == 0 {
            Some(Err(cs[first]))
        } else {
            Some(Ok((classify(cs.subrange(first, first + k))->Some_0, first + k)))
        }
    }
}

/// The tokens of `cs` from position `pos`, or the first character at which
/// no token starts.
pub open spec fn lex(cs: Seq<char>, pos: int) -> Result<Seq<Lexeme>, char>
    decreases cs.len() - pos,
{
    match lex_step(cs, pos) {
        None => Ok(Seq::empty()),
        Some(Err(c)) => Err(c),
        Some(Ok((t, end))) => {
            if pos < end <= cs.len() {
                match lex(cs, end) {
                    Ok(rest) => Ok(seq![t] + rest),
                    Err(c) => Err(c),
                }
            } else {
                Ok(Seq::empty())
            }
        },
    }
}

pub proof fn lemma_lex_step_bounds(cs: Seq<char>, pos: int)
    requires
        0 <= pos <= cs.len(),
    ensures
        lex_step(cs, pos) matches Some(Ok((t, end))) ==> pos < end <= cs.len(),
{
    lemma_skip_spaces_bounds(cs, pos);
    let first = skip_spaces(cs, pos);
    if first < cs.len() {
        lemma_run_len_bounds(cs, first, 0);
    }
}

pub proof fn lemma_skip_spaces_bounds(cs: Seq<char>, i: int)
    requires
        0 <= i <= cs.len(),
    ensures
        i <= skip_spaces(cs, i) <= cs.len(),
        skip_spaces(cs, i) < cs.len() ==> !is_space(cs[skip_spaces(cs, i)]),
    decreases cs.len() - i,
{
    if i < cs.len() && is_space(cs[i]) {
        lemma_skip_spaces_bounds(cs, i + 1);
    }
}

pub proof fn lemma_run_len_bounds(cs: Seq<char>, first: int, k: int)
    requires
        0 <= first,
        0 <= k,
        first + k <= cs.len(),
    ensures
        k <= run_len(cs, first, k) <= cs.len() - first,
    decreases cs.len() - first - k,
{
    if first + k < cs.len() && classify(cs.subrange(first, first + k + 1)) is Some {
        lemma_run_len_bounds(cs, first, k + 1);
    }
}

pub proof fn lemma_run_len_spells(cs: Seq<char>, first: int, k: int)
    requires
        0 <= first,
        0 <= k,
        first + k <= cs.len(),
        k == 0 || classify(cs.subrange(first, first + k)) is Some,
    ensures
        run_len(cs, first, k) == 0 || classify(cs.subrange(first, first + run_len(cs, first, k))) is Some,
    decreases cs.len() - first - k,
{
    if first + k < cs.len() && classify(cs.subrange(first, first + k + 1)) is Some {
        lemma_run_len_spells(cs, first, k + 1);
    }
}

/// Whether `c` has the Unicode White_Space property.
pub fn is_whitespace(c: char) -> (r: bool)
    ensures
        r == is_space(c),
{
    ('\u{9}' <= c && c <= '\u{d}') || c == ' ' || c == '\u{85}' || c == '\u{a0}' || c
        == '\u{1680}' || ('\u{2000}' <= c && c <= '\u{200a}') || c == '\u{2028}' || c == '\u{2029}'
        || c == '\u{202f}' || c == '\u{205f}' || c == '\u{3000}'
}

/// The characters of `source`, in order.
pub fn chars_of(source: &str) -> (r: Vec<char>)
    ensures
        r@ == source@,
{
    let n = source.unicode_len();
    let mut chars: Vec<char> = Vec::new();
    let mut i: usize = 0;
    while i < n
        invariant
            n == source@.len(),
            i <= n,
            chars@ == source@.subrange(0, i as int),
        decreases n - i,
    {
        chars.push(source.get_char(i));
        i = i + 1;
        assert(chars@ =~= source@.subrange(0, i as int));
    }
    assert(chars@ =~= source@);
    chars
}

/// Splits a source text into tokens, longest token first.
pub struct Lexer<'a> {
    /// entire source code
    source: &'a str,
    /// the characters of `source`
    chars: Vec<char>,
    /// the position of the next character to read
    pos: usize,
}

impl<'a> Lexer<'a> {
    #[verifier::type_invariant]
    closed spec fn inv(&self) -> bool {
        &&& self.chars@ == self.source@
        &&& self.pos <= self.chars@.len()
    }

    /// The whole source text.
    pub closed spec fn text(&self) -> Seq<char> {
        self.source@
    }

    /// How many characters have been read.
    pub closed spec fn position(&self) -> int {
        self.pos as int
    }

    pub fn from_source(source: &'a str) -> (r: Lexer<'a>)
        ensures
            r.text() == source@,
            r.position() == 0,
    {
        Lexer { source, chars: chars_of(source), pos: 0 }
    }

    /// The next token: `None` at the end of the input, an error where no
    /// token starts (after which the input counts as read), else the longest
    /// token after any whitespace.
    pub fn next(&mut self) -> (r: Option<Result<Token<'a>, CompileError<'a>>>)
        ensures
            final(self).text() == old(self).text(),
            match lex_step(old(self).text(), old(self).position()) {
                None => r is None && final(self).position() == old(self).text().len(),
                Some(Err(c)) => r == Some(Err::<Token<'a>, CompileError<'a>>(CompileError::UnrecognizedChar(c)))
                    && final(self).position() == old(self).text().len(),
                Some(Ok((t, end))) => r matches Some(Ok(tok)) && tok@ == t && final(self).position() == end,
            },
    {
        proof {
            use_type_invariant(&*self);
        }
        let n = self.chars.len();
        let ghost cs = self.chars@;
        let mut pos = self.pos;
        // skip whitespace
        while pos < n && is_whitespace(self.chars[pos])
            invariant
                n == cs.len(),
                cs == self.chars@,
                old(self).pos <= pos <= n,
                skip_spaces(cs, old(self).pos as int) == skip_spaces(cs, pos as int),
            decreases n - pos,
        {
            pos = pos + 1;
        }
        proof {
            lemma_skip_spaces_bounds(cs, pos as int);
        }
        if pos >= n {
            self.pos = n;
            return None;
        }
        let first = pos;
        // find the longest token
        let mut k: usize = 0;
        while first + k < n && Token::from_str(self.source.substring_char(first, first + k + 1)).is_some()
            invariant
                n == cs.len(),
                cs == self.source@,
                first < n,
                first + k <= n,
                run_len(cs, first as int, 0) == run_len(cs, first as int, k as int),
            decreases n - first - k,
        {
            k = k + 1;
        }
        proof {
            lemma_run_len_bounds(cs, first as int, k as int);
            lemma_run_len_spells(cs, first as int, 0);
        }
        if k == 0 {
            let c = self.chars[first];
            self.pos = n;
            return Some(Err(CompileError::UnrecognizedChar(c)));
        }
        let text = self.source.substring_char(first, first + k);
        match Token::from_str(text) {
            Some(token) => {
                self.pos = first + k;
                Some(Ok(token))
            },
            None => {
                self.pos = n;
                Some(Err(CompileError::UnrecognizedChar(self.chars[first])))
            },
        }
    }
}

/// Splits a whole source text into tokens.
pub fn tokenize<'a>(source: &'a str) -> (r: Result<Vec<Token<'a>>, CompileError<'a>>)
    ensures
        match lex(source@, 0) {
            Ok(ls) => r matches Ok(v) && v@.map_values(|t: Token<'a>| t@) == ls,
            Err(c) => r == Err::<Vec<Token<'a>>, CompileError<'a>>(CompileError::UnrecognizedChar(c)),
        },
{
    let mut lexer = Lexer::from_source(source);
    let mut tokens: Vec<Token<'a>> = Vec::new();
    loop
        invariant
            lexer.text() == source@,
            0 <= lexer.position() <= source@.len(),
            lex(source@, 0) == match lex(source@, lexer.position()) {
                Ok(rest) => Ok(tokens@.map_values(|t: Token<'a>| t@) + rest),
                Err(c) => Err(c),
            },
        decreases source@.len() - lexer.position(),
    {
        let ghost before = lexer.position();
        proof {
            lemma_lex_step_bounds(source@, before);
        }
        match lexer.next() {
            None => {
                assert(tokens@.map_values(|t: Token<'a>| t@) + Seq::<Lexeme>::empty() =~= tokens@.map_values(|t: Token<'a>| t@));
                return Ok(tokens);
            },
            Some(Err(e)) => {
                return Err(e);
            },
            Some(Ok(t)) => {
                let ghost old_tokens = tokens@;
                tokens.push(t);
                assert(tokens@.map_values(|t: Token<'a>| t@) =~= old_tokens.map_values(|t: Token<'a>| t@) + seq![t@]);
                proof {
                    let ts = lex(source@, lexer.position());
                    match ts {
                        Ok(rest) => {
                            assert(old_tokens.map_values(|t: Token<'a>| t@) + (seq![t@] + rest) =~= tokens@.map_values(|t: Token<'a>| t@) + rest);
                        },
                        Err(_) => {},
                    }
                }
            },
        }
    }
}

} // verus!
