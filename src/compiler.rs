use vstd::prelude::*;

use crate::ast::stmt::stmt_code;
use crate::ast::{parse_tu_spec, Ast};
use crate::output::{function_text, render_function};
use crate::token::{CompileError, Token, Tokens};

verus! {

/// The IR text that a translation unit of the given tokens compiles to, or
/// the error that stops its compilation.
pub open spec fn compiled_ir<'a>(ts: Seq<Token<'a>>) -> Result<Seq<char>, CompileError<'a>> {
    match parse_tu_spec(ts) {
        Ok(m) => match stmt_code(m, Seq::empty(), 0) {
            Ok(c) => Ok(function_text(c.insts)),
            Err(e) => Err(e),
        },
        Err(e) => Err(e),
    }
}

/// Parses the tokens of a translation unit and generates its IR text.
pub fn translate<'a>(tokens: &'a [Token<'a>]) -> (r: Result<String, CompileError<'a>>)
    ensures
        match compiled_ir(tokens@) {
            Ok(text) => r matches Ok(s) && s@ == text,
            Err(e) => r matches Err(e2) && e2 == e,
        },
{
    proof {
        assert(vstd::slice::spec_slice_len(tokens) == tokens@.len());
    }
    let cursor = Tokens::new(tokens);
    let ast = match Ast::parse(cursor) {
        Ok(a) => a,
        Err(e) => return Err(e),
    };
    let state = match ast.gen_code() {
        Ok(s) => s,
        Err(e) => return Err(e),
    };
    Ok(render_function(&state.code))
}

} // verus!
