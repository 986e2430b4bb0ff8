//! Code generator: linearizes an expression tree into IR instructions.
//!
//! The generator walks the tree once, in post-order, threading the number
//! of the next free register. A literal becomes the alloca/store/load
//! triple; an arithmetic node becomes one signed instruction over its
//! children's result registers; a comparison node becomes one unsigned
//! `icmp` followed by a sign extension of the 1-bit result to 32 bits.
//! The spec-level model is [`sp_codegen`]; [`Parser::parse`] is proved to
//! emit exactly the instructions it describes and to return the register
//! holding the final value.

use vstd::prelude::*;

use crate::error::{ErrorType, QccError, SpecErr};
use crate::ir::{BinOp, CmpOp, Inst};
use crate::lexer::all_literals_fit;
use crate::token_tree::{sp_parse_text, tree_size, ParseOutcome, TokenTree, TreeKind};

verus! {

/// The arithmetic instruction a node kind emits, if it is arithmetic.
pub open spec fn arith_op_of(k: TreeKind) -> Option<BinOp> {
    match k {
        TreeKind::Plus => Some(BinOp::Add),
        TreeKind::Minus => Some(BinOp::Sub),
        TreeKind::Multiply => Some(BinOp::Mul),
        TreeKind::Devide => Some(BinOp::Sdiv),
        _ => None,
    }
}

/// The comparison condition a node kind emits, if it is a comparison.
/// Every comparison is unsigned.
pub open spec fn cmp_op_of(k: TreeKind) -> Option<CmpOp> {
    match k {
        TreeKind::Equal => Some(CmpOp::Eq),
        TreeKind::NotEqual => Some(CmpOp::Ne),
        TreeKind::Less => Some(CmpOp::Ult),
        TreeKind::LessEqual => Some(CmpOp::Ule),
        TreeKind::Greater => Some(CmpOp::Ugt),
        TreeKind::GreaterEqual => Some(CmpOp::Uge),
        _ => None,
    }
}

/// What generating code for one subtree yields: the emitted instructions
/// and the register holding the subtree's value, or a failure on a
/// malformed node.
pub enum CgResult {
    Emitted { insts: Seq<Inst>, reg: int },
    Fail(SpecErr),
}

/// The instructions of a generation outcome (empty on failure).
pub open spec fn cg_insts(c: CgResult) -> Seq<Inst> {
    match c {
        CgResult::Emitted { insts, reg } => insts,
        CgResult::Fail(_) => Seq::empty(),
    }
}

/// The result register of a generation outcome.
pub open spec fn cg_reg(c: CgResult) -> int {
    match c {
        CgResult::Emitted { insts, reg } => reg,
        CgResult::Fail(_) => 0,
    }
}

/// Code generation for the subtree `t`, with `n` the next free register.
///
/// A `Number` node allocates cell `n`, stores the literal, and loads it
/// into register `n + 1`, which holds the value. An operator node
/// evaluates its left child from `n` (register `a`), its right child from
/// `a + 2` (register `b`), and combines them into `b + 1` — a comparison
/// sign-extends that 1-bit result into `b + 2`. A node whose children do
/// not match its kind fails with the node's source offset.
pub open spec fn sp_codegen(t: TokenTree, n: int) -> CgResult
    decreases t,
{
    match t.kind {
        TreeKind::Number(v) => CgResult::Emitted {
            insts: seq![
                Inst::Alloca { dst: n as usize },
                Inst::Store { val: v, dst: n as usize },
                Inst::Load { dst: (n + 1) as usize, src: n as usize },
            ],
            reg: n + 1,
        },
        _ => {
            match (t.lhs, t.rhs) {
                (Some(l), Some(r)) => {
                    match sp_codegen(*l, n) {
                        CgResult::Emitted { insts: li, reg: a } => {
                            match sp_codegen(*r, a + 1) {
                                CgResult::Emitted { insts: ri, reg: b } => {
                                    match arith_op_of(t.kind) {
                                        Some(op) => CgResult::Emitted {
                                            insts: li + ri + seq![
                                                Inst::Bin {
                                                    op,
                                                    dst: (b + 1) as usize,
                                                    a: a as usize,
                                                    b: b as usize,
                                                },
                                            ],
                                            reg: b + 1,
                                        },
                                        None => match cmp_op_of(t.kind) {
                                            Some(cond) => CgResult::Emitted {
                                                insts: li + ri + seq![
                                                    Inst::Icmp {
                                                        cond,
                                                        dst: (b + 1) as usize,
                                                        a: a as usize,
                                                        b: b as usize,
                                                    },
                                                    Inst::Sext {
                                                        dst: (b + 2) as usize,
                                                        src: (b + 1) as usize,
                                                    },
                                                ],
                                                reg: b + 2,
                                            },
                                            None => CgResult::Fail(
                                                SpecErr {
                                                    kind: ErrorType::UnexpectedToken,
                                                    pos: t.pos as int,
                                                    msg: "unexpected token"@,
                                                },
                                            ),
                                        },
                                    }
                                },
                                CgResult::Fail(e) => CgResult::Fail(e),
                            }
                        },
                        CgResult::Fail(e) => CgResult::Fail(e),
                    }
                },
                _ => CgResult::Fail(
                    SpecErr {
                        kind: ErrorType::UnexpectedToken,
                        pos: t.pos as int,
                        msg: "unexpected token"@,
                    },
                ),
            }
        },
    }
}

/// Holds the parsed expression tree and the instructions emitted for it.
pub struct Parser {
    pub tokens: TokenTree,
    pub num: usize,
    pub insts: Vec<Inst>,
}

impl Parser {
    /// Lexes and parses `s`, ready for code generation. `num` starts at 0
    /// and the instruction buffer empty.
    pub fn new(s: &str) -> (r: Result<Parser, QccError>)
        requires
            all_literals_fit(s@),
        ensures
            match sp_parse_text(s@) {
                ParseOutcome::Tree(tree) => r matches Ok(p) && p.tokens == tree && p.num == 0
                    && p.insts@ == Seq::<Inst>::empty() && tree_size(tree) <= 2 * (s@.len() + 1),
                ParseOutcome::Fail(e) => r matches Err(q) && q@ == e,
                ParseOutcome::Stuck => false,
            },
    {
        let tokens = match TokenTree::new(s) {
            Ok(t) => t,
            Err(e) => return Err(e),
        };
        Ok(Parser { tokens, num: 0, insts: Vec::new() })
    }

    /// Generates code for the whole tree, starting at register 0. Fills
    /// `self.insts` with the emitted instructions and returns the register
    /// holding the program's final value.
    pub fn parse(&mut self) -> (r: Result<usize, QccError>)
        requires
            4 * tree_size(old(self).tokens) <= usize::MAX,
        ensures
            final(self).tokens == old(self).tokens,
            final(self).num == old(self).num,
            match sp_codegen(old(self).tokens, 0) {
                CgResult::Emitted { insts, reg } => {
                    &&& r matches Ok(k) && k as int == reg
                    &&& final(self).insts@ == insts
                },
                CgResult::Fail(e) => r matches Err(q) && q@ == e,
            },
    {
        self.insts = Vec::new();
        Parser::parse_tokens(0, &self.tokens, &mut self.insts)
    }

    /// Generates code for one subtree, appending to `out`, exactly as
    /// [`sp_codegen`] describes. Returns the register holding the
    /// subtree's value; registers stay below `n + 4 * tree_size`.
    #[verifier::rlimit(100)]
    fn parse_tokens(n: usize, tokens: &TokenTree, out: &mut Vec<Inst>) -> (r: Result<
        usize,
        QccError,
    >)
        requires
            n + 4 * tree_size(*tokens) <= usize::MAX,
        ensures
            match sp_codegen(*tokens, n as int) {
                CgResult::Emitted { insts, reg } => {
                    &&& r matches Ok(k) && k as int == reg
                    &&& final(out)@ == old(out)@ + insts
                    &&& n < reg <= n + 4 * tree_size(*tokens) - 2
                },
                CgResult::Fail(e) => r matches Err(q) && q@ == e,
            },
        decreases *tokens,
    {
        let ghost o0 = out@;
        match tokens.kind {
            TreeKind::Number(i) => {
                out.push(Inst::Alloca { dst: n });
                out.push(Inst::Store { val: i, dst: n });
                out.push(Inst::Load { dst: n + 1, src: n });
                proof {
                    assert(out@ =~= o0 + cg_insts(sp_codegen(*tokens, n as int)));
                }
                Ok(n + 1)
            },
            _ => {
                match (&tokens.lhs, &tokens.rhs) {
                    (Some(l), Some(r)) => {
                        proof {
                            assert(tree_size(*tokens) == 1 + tree_size(**l) + tree_size(**r));
                        }
                        let a = match Self::parse_tokens(n, l, out) {
                            Ok(a) => a,
                            Err(e) => return Err(e),
                        };
                        let ghost li = cg_insts(sp_codegen(**l, n as int));
                        let b = match Self::parse_tokens(a + 1, r, out) {
                            Ok(b) => b,
                            Err(e) => return Err(e),
                        };
                        let ghost ri = cg_insts(sp_codegen(**r, a + 1));
                        proof {
                            assert(out@ == (o0 + li) + ri);
                        }
                        match tokens.kind {
                            TreeKind::Plus => {
                                out.push(Inst::Bin { op: BinOp::Add, dst: b + 1, a, b });
                                proof {
                                    assert(out@ =~= o0 + (li + ri + seq![
                                        Inst::Bin { op: BinOp::Add, dst: (b + 1) as usize, a, b },
                                    ]));
                                }
                                Ok(b + 1)
                            },
                            TreeKind::Minus => {
                                out.push(Inst::Bin { op: BinOp::Sub, dst: b + 1, a, b });
                                proof {
                                    assert(out@ =~= o0 + (li + ri + seq![
                                        Inst::Bin { op: BinOp::Sub, dst: (b + 1) as usize, a, b },
                                    ]));
                                }
                                Ok(b + 1)
                            },
                            TreeKind::Multiply => {
                                out.push(Inst::Bin { op: BinOp::Mul, dst: b + 1, a, b });
                                proof {
                                    assert(out@ =~= o0 + (li + ri + seq![
                                        Inst::Bin { op: BinOp::Mul, dst: (b + 1) as usize, a, b },
                                    ]));
                                }
                                Ok(b + 1)
                            },
                            TreeKind::Devide => {
                                out.push(Inst::Bin { op: BinOp::Sdiv, dst: b + 1, a, b });
                                proof {
                                    assert(out@ =~= o0 + (li + ri + seq![
                                        Inst::Bin { op: BinOp::Sdiv, dst: (b + 1) as usize, a, b },
                                    ]));
                                }
                                Ok(b + 1)
                            },
                            TreeKind::Equal => {
                                out.push(Inst::Icmp { cond: CmpOp::Eq, dst: b + 1, a, b });
                                out.push(Inst::Sext { dst: b + 2, src: b + 1 });
                                proof {
                                    assert(out@ =~= o0 + (li + ri + seq![
                                        Inst::Icmp { cond: CmpOp::Eq, dst: (b + 1) as usize, a, b },
                                        Inst::Sext { dst: (b + 2) as usize, src: (b + 1) as usize },
                                    ]));
                                }
                                Ok(b + 2)
                            },
                            TreeKind::NotEqual => {
                                out.push(Inst::Icmp { cond: CmpOp::Ne, dst: b + 1, a, b });
                                out.push(Inst::Sext { dst: b + 2, src: b + 1 });
                                proof {
                                    assert(out@ =~= o0 + (li + ri + seq![
                                        Inst::Icmp { cond: CmpOp::Ne, dst: (b + 1) as usize, a, b },
                                        Inst::Sext { dst: (b + 2) as usize, src: (b + 1) as usize },
                                    ]));
                                }
                                Ok(b + 2)
                            },
                            TreeKind::Less => {
                                out.push(Inst::Icmp { cond: CmpOp::Ult, dst: b + 1, a, b });
                                out.push(Inst::Sext { dst: b + 2, src: b + 1 });
                                proof {
                                    assert(out@ =~= o0 + (li + ri + seq![
                                        Inst::Icmp {
                                            cond: CmpOp::Ult,
                                            dst: (b + 1) as usize,
                                            a,
                                            b,
                                        },
                                        Inst::Sext { dst: (b + 2) as usize, src: (b + 1) as usize },
                                    ]));
                                }
                                Ok(b + 2)
                            },
                            TreeKind::LessEqual => {
                                out.push(Inst::Icmp { cond: CmpOp::Ule, dst: b + 1, a, b });
                                out.push(Inst::Sext { dst: b + 2, src: b + 1 });
                                proof {
                                    assert(out@ =~= o0 + (li + ri + seq![
                                        Inst::Icmp {
                                            cond: CmpOp::Ule,
                                            dst: (b + 1) as usize,
                                            a,
                                            b,
                                        },
                                        Inst::Sext { dst: (b + 2) as usize, src: (b + 1) as usize },
                                    ]));
                                }
                                Ok(b + 2)
                            },
                            TreeKind::Greater => {
                                out.push(Inst::Icmp { cond: CmpOp::Ugt, dst: b + 1, a, b });
                                out.push(Inst::Sext { dst: b + 2, src: b + 1 });
                                proof {
                                    assert(out@ =~= o0 + (li + ri + seq![
                                        Inst::Icmp {
                                            cond: CmpOp::Ugt,
                                            dst: (b + 1) as usize,
                                            a,
                                            b,
                                        },
                                        Inst::Sext { dst: (b + 2) as usize, src: (b + 1) as usize },
                                    ]));
                                }
                                Ok(b + 2)
                            },
                            TreeKind::GreaterEqual => {
                                out.push(Inst::Icmp { cond: CmpOp::Uge, dst: b + 1, a, b });
                                out.push(Inst::Sext { dst: b + 2, src: b + 1 });
                                proof {
                                    assert(out@ =~= o0 + (li + ri + seq![
                                        Inst::Icmp {
                                            cond: CmpOp::Uge,
                                            dst: (b + 1) as usize,
                                            a,
                                            b,
                                        },
                                        Inst::Sext { dst: (b + 2) as usize, src: (b + 1) as usize },
                                    ]));
                                }
                                Ok(b + 2)
                            },
                            TreeKind::Number(_) => {
                                proof {
                                    assert(false);
                                }
                                Err(QccError {
                                    kind: ErrorType::UnexpectedToken,
                                    pos: tokens.pos,
                                    message: String::from_str("unexpected token"),
                                })
                            },
                        }
                    },
                    _ => Err(QccError {
                        kind: ErrorType::UnexpectedToken,
                        pos: tokens.pos,
                        message: String::from_str("unexpected token"),
                    }),
                }
            },
        }
    }
}

} // verus!
