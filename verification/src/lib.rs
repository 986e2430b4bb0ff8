//! A small compiler for arithmetic and relational expressions.
//!
//! Source text is lexed into tokens, parsed by recursive descent into an
//! expression tree, and linearized into a textual virtual-register IR.
//! Every stage carries a functional specification: the result of each
//! executable function is pinned to a spec-level model of the same stage,
//! so the whole pipeline is a function of the input text alone.

pub mod error;
pub mod ir;
pub mod laws;
pub mod lexer;
pub mod parser;
pub mod token_tree;

use vstd::prelude::*;

use crate::error::QccError;
use crate::ir::{render_program, spec_output};
use crate::lexer::all_literals_fit;
use crate::parser::{sp_codegen, CgResult, Parser};
use crate::token_tree::{sp_parse_text, ParseOutcome};

verus! {

/// What compiling a source text yields: the full output text, or the first
/// error. `Stuck` marks spec-level states the executable compiler never
/// reaches.
pub enum CompileOutcome {
    Text(Seq<char>),
    Fail(crate::error::SpecErr),
    Stuck,
}

/// The compiled output of `s`: lex, parse, generate code from register 0,
/// and render the program text.
pub open spec fn spec_compile(s: Seq<char>) -> CompileOutcome {
    match sp_parse_text(s) {
        ParseOutcome::Tree(t) => match sp_codegen(t, 0) {
            CgResult::Emitted { insts, reg } => CompileOutcome::Text(spec_output(insts, reg)),
            CgResult::Fail(e) => CompileOutcome::Fail(e),
        },
        ParseOutcome::Fail(e) => CompileOutcome::Fail(e),
        ParseOutcome::Stuck => CompileOutcome::Stuck,
    }
}

/// How a result of [`compile`] relates to [`spec_compile`]: the output
/// text, or the error, is exactly what the spec names for the input.
pub open spec fn compile_matches(s: Seq<char>, r: Result<String, QccError>) -> bool {
    match spec_compile(s) {
        CompileOutcome::Text(text) => r matches Ok(out) && out@ == text,
        CompileOutcome::Fail(e) => r matches Err(q) && q@ == e,
        CompileOutcome::Stuck => false,
    }
}

/// Compiles one expression into the textual IR program, or returns the
/// first error with its source offset.
///
/// The caller keeps literals within the 32-bit signed range (test with
/// [`lexer::literals_fit`]) and the input short enough that register
/// numbers fit the machine's word.
pub fn compile(s: &str) -> (r: Result<String, QccError>)
    requires
        all_literals_fit(s@),
        8 * s@.len() + 16 <= usize::MAX,
    ensures
        compile_matches(s@, r),
{
    let mut parser = match Parser::new(s) {
        Ok(p) => p,
        Err(e) => return Err(e),
    };
    let reg = match parser.parse() {
        Ok(k) => k,
        Err(e) => return Err(e),
    };
    Ok(render_program(&parser.insts, reg))
}

/// Compiling identical source text twice gives identical results: the
/// output of [`compile`] is a function of the input text alone, so two
/// results for the same text agree character for character, on errors as
/// on successes.
pub proof fn lemma_compile_deterministic(
    s: Seq<char>,
    r1: Result<String, QccError>,
    r2: Result<String, QccError>,
)
    requires
        compile_matches(s, r1),
        compile_matches(s, r2),
    ensures
        match (r1, r2) {
            (Ok(a), Ok(b)) => a@ == b@,
            (Err(a), Err(b)) => a@ == b@,
            _ => false,
        },
{
}

} // verus!
