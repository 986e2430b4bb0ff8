//! Diagnostics shared by the lexer, the parser and the code generator.
//!
//! An error carries the kind of failure, the source offset of the offending
//! character or token, and a human-readable message. The caret rendering
//! (a line of spaces ending in `^`, then the message) is produced by a
//! verified method, so that a driver only has to print it.

use vstd::prelude::*;

verus! {

/// The closed set of failure kinds.
#[derive(Clone, Copy, Debug, PartialEq, Eq, Structural)]
pub enum ErrorType {
    UnexpectedToken,
    UnexpectedChar,
    UnexpectedEOL,
}

/// A diagnostic: what went wrong, where in the source, and a message.
#[derive(Debug)]
pub struct QccError {
    pub kind: ErrorType,
    pub pos: usize,
    pub message: String,
}

/// Spec-level counterpart of [`QccError`], with the message as a `Seq<char>`.
pub struct SpecErr {
    pub kind: ErrorType,
    pub pos: int,
    pub msg: Seq<char>,
}

impl QccError {
    /// The spec error this executable error stands for.
    pub open spec fn view(&self) -> SpecErr {
        SpecErr { kind: self.kind, pos: self.pos as int, msg: self.message@ }
    }
}

/// `n` space characters.
pub open spec fn spec_spaces(n: nat) -> Seq<char>
    decreases n,
{
    if n == 0 {
        Seq::empty()
    } else {
        spec_spaces((n - 1) as nat).push(' ')
    }
}

/// The caret diagnostic for an error: `pos` spaces, a caret, a line break,
/// then the message.
pub open spec fn spec_caret(pos: nat, msg: Seq<char>) -> Seq<char> {
    spec_spaces(pos) + seq!['^', '\n'] + msg
}

impl QccError {
    /// Renders the caret diagnostic: a line of `self.pos` spaces ending in
    /// `^`, then the message on the next line.
    pub fn render(&self) -> (r: String)
        ensures
            r@ == spec_caret(self.pos as nat, self.message@),
    {
        let mut out = String::new();
        let mut i: usize = 0;
        while i < self.pos
            invariant
                i <= self.pos,
                out@ == spec_spaces(i as nat),
            decreases self.pos - i,
        {
            out.append(" ");
            proof {
                reveal_strlit(" ");
                assert(out@ == spec_spaces((i + 1) as nat));
            }
            i = i + 1;
        }
        out.append("^\n");
        out.append(self.message.as_str());
        proof {
            reveal_strlit("^\n");
            assert(out@ =~= spec_caret(self.pos as nat, self.message@));
        }
        out
    }
}

} // verus!
