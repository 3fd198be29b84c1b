use vstd::prelude::*;

use crate::ast::expr::digits_value;
use crate::lexer::{chars_of, is_whitespace, lemma_skip_spaces_bounds, skip_spaces};
use crate::token::is_literal_text;

verus! {

/// Whether `s` is what `str::parse::<i32>` accepts: an optional sign, then
/// decimal digits whose value fits in an `i32`.
pub open spec fn i32_text(s: Seq<char>) -> bool {
    if s.len() > 0 && s[0] == '-' {
        is_literal_text(s.drop_first()) && digits_value(s.drop_first()) <= 0x8000_0000
    } else if s.len() > 0 && s[0] == '+' {
        is_literal_text(s.drop_first()) && digits_value(s.drop_first()) <= i32::MAX
    } else {
        is_literal_text(s) && digits_value(s) <= i32::MAX
    }
}

/// Whether `s` is the beginning of `w`.
pub open spec fn starts(s: Seq<char>, w: Seq<char>) -> bool {
    s.len() <= w.len() && w.subrange(0, s.len() as int) == s
}

/// Whether `s` can be, or begin, a piece of source: a number, or the
/// beginning of a keyword, a symbol or an operator.
pub open spec fn valid_piece(s: Seq<char>) -> bool {
    i32_text(s) || starts(s, "int"@) || starts(s, "main"@) || starts(s, "void"@) || starts(s, "return"@)
        || starts(s, "("@) || starts(s, ")"@) || starts(s, "{"@) || starts(s, "}"@) || starts(s, ";"@)
        || starts(s, "+"@)
}

/// The length of the longest run from `first`, extending `k`, whose every
/// prefix is a valid piece.
pub open spec fn piece_len(cs: Seq<char>, first: int, k: int) -> int
    decreases cs.len() - first - k,
{
    if 0 <= first && 0 <= k && first + k < cs.len() && valid_piece(cs.subrange(first, first + k + 1)) {
        piece_len(cs, first, k + 1)
    } else {
        k
    }
}

pub proof fn lemma_piece_len_bounds(cs: Seq<char>, first: int, k: int)
    requires
        0 <= first,
        0 <= k,
        first + k <= cs.len(),
    ensures
        k <= piece_len(cs, first, k) <= cs.len() - first,
    decreases cs.len() - first - k,
{
    if first + k < cs.len() && valid_piece(cs.subrange(first, first + k + 1)) {
        lemma_piece_len_bounds(cs, first, k + 1);
    }
}

/// Whether `s` begins `w`.
pub fn is_prefix_of(s: &str, w: &str) -> (r: bool)
    ensures
        r == starts(s@, w@),
{
    let n = s.unicode_len();
    if n > w.unicode_len() {
        return false;
    }
    let mut i: usize = 0;
    while i < n
        invariant
            n == s@.len(),
            n <= w@.len(),
            i <= n,
            forall|j: int| 0 <= j < i ==> s@[j] == w@[j],
        decreases n - i,
    {
        if s.get_char(i) != w.get_char(i) {
            assert(w@.subrange(0, n as int)[i as int] != s@[i as int]);
            return false;
        }
        i = i + 1;
    }
    assert(w@.subrange(0, n as int) =~= s@);
    true
}

/// Whether `str::parse::<i32>` accepts `s`.
pub fn parses_as_i32(s: &str) -> (r: bool)
    ensures
        r == i32_text(s@),
{
    let n = s.unicode_len();
    if n == 0 {
        return false;
    }
    let c0 = s.get_char(0);
    let (start, limit): (usize, u64) = if c0 == '-' {
        (1, 0x8000_0000)
    } else if c0 == '+' {
        (1, 0x7fff_ffff)
    } else {
        (0, 0x7fff_ffff)
    };
    let ghost digits = s@.subrange(start as int, n as int);
    proof {
        if start == 1 {
            assert(digits =~= s@.drop_first());
        } else {
            assert(digits =~= s@);
        }
        assert(i32_text(s@) == (is_literal_text(digits) && digits_value(digits) <= limit));
    }
    if start == n {
        return false;
    }
    let mut acc: u64 = 0;
    let mut i: usize = start;
    while i < n
        invariant
            n == s@.len(),
            start <= i <= n,
            start < n,
            digits == s@.subrange(start as int, n as int),
            i32_text(s@) == (is_literal_text(digits) && digits_value(digits) <= limit),
            acc == digits_value(digits.subrange(0, i - start)),
            acc <= limit,
            limit <= 0x8000_0000,
            forall|j: int| start <= j < i ==> crate::token::is_digit(#[trigger] s@[j]),
        decreases n - i,
    {
        let c = s.get_char(i);
        if !('0' <= c && c <= '9') {
            assert(digits[i - start] == c);
            return false;
        }
        assert(digits.subrange(0, i - start + 1).drop_last() =~= digits.subrange(0, i - start));
        acc = acc * 10 + ((c as u32) - ('0' as u32)) as u64;
        i = i + 1;
        if acc > limit {
            proof {
                if forall|j: int| 0 <= j < digits.len() ==> crate::token::is_digit(#[trigger] digits[j]) {
                    crate::ast::expr::lemma_digits_prefix(digits, i - start);
                }
            }
            return false;
        }
    }
    proof {
        assert(digits.subrange(0, n - start) =~= digits);
        assert forall|j: int| 0 <= j < digits.len() implies crate::token::is_digit(#[trigger] digits[j]) by {
            assert(digits[j] == s@[j + start]);
        }
    }
    true
}

/// Whether a piece of source can be, or begin, a token.
fn is_valid_token(s: &str) -> (r: bool)
    ensures
        r == valid_piece(s@),
{
    // is it a number?
    if parses_as_i32(s) {
        return true;
    }
    // is it a keyword, a symbol or an operator, or the beginning of one?
    is_prefix_of(s, "int") || is_prefix_of(s, "main") || is_prefix_of(s, "void") || is_prefix_of(s, "return")
        || is_prefix_of(s, "(") || is_prefix_of(s, ")") || is_prefix_of(s, "{") || is_prefix_of(s, "}")
        || is_prefix_of(s, ";") || is_prefix_of(s, "+")
}

/// Splits the source code into pieces of text: after any whitespace, the
/// longest run whose every prefix is a valid piece.
pub struct Tokenizer<'a> {
    /// entire source code
    source: &'a str,
    /// the characters of `source`
    chars: Vec<char>,
    /// the position of the next character to read
    pos: usize,
}

impl<'a> Tokenizer<'a> {
    #[verifier::type_invariant]
    closed spec fn inv(&self) -> bool {
        &&& self.chars@ == self.source@
        &&& self.pos <= self.chars@.len()
    }

    /// The whole source text.
    pub closed spec fn text(&self) -> Seq<char> {
        self.source@
    }

    /// How many characters have been read.
    pub closed spec fn position(&self) -> int {
        self.pos as int
    }

    pub fn from_source(source: &'a str) -> (r: Tokenizer<'a>)
        ensures
            r.text() == source@,
            r.position() == 0,
    {
        Tokenizer { source, chars: chars_of(source), pos: 0 }
    }

    /// The next piece of source after any whitespace, or `None` at the end
    /// of the input or where no piece starts (the position then stays at
    /// the offending character).
    pub fn next(&mut self) -> (r: Option<&'a str>)
        ensures
            final(self).text() == old(self).text(),
            ({
                let cs = old(self).text();
                let first = skip_spaces(cs, old(self).position());
                let k = piece_len(cs, first, 0);
                if first >= cs.len() || k == 0 {
                    r is None && final(self).position() == first
                } else {
                    r matches Some(s) && s@ == cs.subrange(first, first + k) && final(self).position() == first + k
                }
            }),
    {
        proof {
            use_type_invariant(&*self);
        }
        let n = self.chars.len();
        let ghost cs = self.chars@;
        let mut pos = self.pos;
        // skip whitespace
        while pos < n && is_whitespace(self.chars[pos])
            invariant
                n == cs.len(),
                cs == self.chars@,
                old(self).pos <= pos <= n,
                skip_spaces(cs, old(self).pos as int) == skip_spaces(cs, pos as int),
            decreases n - pos,
        {
            pos = pos + 1;
        }
        proof {
            lemma_skip_spaces_bounds(cs, pos as int);
        }
        let first = pos;
        if first >= n {
            self.pos = first;
            return None;
        }
        // find the longest piece
        let mut k: usize = 0;
        while first + k < n && is_valid_token(self.source.substring_char(first, first + k + 1))
            invariant
                n == cs.len(),
                cs == self.source@,
                first < n,
                first + k <= n,
                piece_len(cs, first as int, 0) == piece_len(cs, first as int, k as int),
            decreases n - first - k,
        {
            k = k + 1;
        }
        proof {
            lemma_piece_len_bounds(cs, first as int, k as int);
        }
        if k == 0 {
            self.pos = first;
            None
        } else {
            self.pos = first + k;
            Some(self.source.substring_char(first, first + k))
        }
    }
}

} // verus!
