//! Parser: builds an expression tree from the token sequence.
//!
//! The grammar, lowest precedence first:
//!
//! ```text
//! expr       := equality
//! equality   := relational ( "=" "=" relational | "=" "!" relational )*
//! relational := additive ( ("<" | ">") "="? additive )*
//! additive   := multiplicative ( ("+" | "-") multiplicative )*
//! multiplicative := unary ( ("*" | "/") unary )*
//! unary      := "+" primary | "-" primary | primary
//! primary    := Number | "(" expr ")"
//! ```
//!
//! Every binary level is left-associative. Inequality is recognized as an
//! `=` token immediately followed by a `!` token; a leading `-` is rewritten
//! as `0 - primary`; unary signs do not nest. The spec-level model is the
//! family of `sp_*` functions below, one per grammar level; the executable
//! parser is proved to return exactly what they describe.

use vstd::prelude::*;

use crate::error::{ErrorType, QccError, SpecErr};
use crate::lexer::{all_literals_fit, spec_token_list, Lexer, LexedList, Token, TokenKind};

verus! {

/// An expression-tree node. A `Number` node has no children; every operator
/// node owns both.
pub struct TokenTree {
    pub kind: TreeKind,
    pub pos: usize,
    pub lhs: Option<Box<TokenTree>>,
    pub rhs: Option<Box<TokenTree>>,
}

/// The closed set of node kinds.
#[derive(Clone, Copy, Debug, PartialEq, Eq, Structural)]
pub enum TreeKind {
    Number(i32),
    Plus,
    Minus,
    Multiply,
    Devide,
    Equal,
    NotEqual,
    Less,
    Greater,
    LessEqual,
    GreaterEqual,
}

/// Number of nodes in a tree.
pub open spec fn tree_size(t: TokenTree) -> nat
    decreases t,
{
    1 + (match t.lhs {
        Some(b) => tree_size(*b),
        None => 0,
    }) + (match t.rhs {
        Some(b) => tree_size(*b),
        None => 0,
    })
}

/// A leaf node holding a literal.
pub open spec fn leaf(v: i32, pos: usize) -> TokenTree {
    TokenTree { kind: TreeKind::Number(v), pos, lhs: None, rhs: None }
}

/// An operator node owning both children.
pub open spec fn bin(k: TreeKind, pos: usize, l: TokenTree, r: TokenTree) -> TokenTree {
    TokenTree { kind: k, pos, lhs: Some(Box::new(l)), rhs: Some(Box::new(r)) }
}

/// A lexed token sequence as the parser expects it: non-empty, with the
/// `End` sentinel exactly at the last position.
pub open spec fn wf_tokens(list: Seq<Token>) -> bool {
    &&& 1 <= list.len() <= usize::MAX
    &&& list[list.len() - 1].kind is End
    &&& forall|i: int| 0 <= i < list.len() - 1 ==> !((#[trigger] list[i].kind) is End)
}

/// What one grammar level returns: a tree together with the cursor after it,
/// or a failure. `Stuck` marks spec-level states the executable parser never
/// reaches (an out-of-range cursor, or a sub-parse that did not advance).
pub enum PResult {
    Parsed { tree: TokenTree, next: int },
    Fail(SpecErr),
    Stuck,
}

/// How an executable parse result and final cursor relate to the spec-level
/// outcome of the same grammar level.
pub open spec fn p_matches(r: Result<TokenTree, QccError>, nf: int, p: PResult) -> bool {
    match p {
        PResult::Parsed { tree, next } => r matches Ok(t) && t == tree && nf == next,
        PResult::Fail(e) => r matches Err(q) && q@ == e,
        PResult::Stuck => false,
    }
}

/// `primary := Number | "(" expr ")"`.
pub open spec fn sp_primary(list: Seq<Token>, n: int) -> PResult
    decreases list.len() - n, 0int,
{
    if !(0 <= n < list.len()) {
        PResult::Stuck
    } else {
        match list[n].kind {
            TokenKind::Number(v) => PResult::Parsed { tree: leaf(v, list[n].pos), next: n + 1 },
            TokenKind::LParen => match sp_expr(list, n + 1) {
                PResult::Parsed { tree, next } => {
                    if !(0 <= next < list.len()) {
                        PResult::Stuck
                    } else if list[next].kind is RParen {
                        PResult::Parsed { tree, next: next + 1 }
                    } else {
                        PResult::Fail(
                            SpecErr {
                                kind: ErrorType::UnexpectedToken,
                                pos: list[next].pos as int,
                                msg: "expected )"@,
                            },
                        )
                    }
                },
                o => o,
            },
            _ => PResult::Fail(
                SpecErr {
                    kind: ErrorType::UnexpectedToken,
                    pos: list[n].pos as int,
                    msg: "expected a number"@,
                },
            ),
        }
    }
}

/// `unary := "+" primary | "-" primary | primary`. A leading `-` becomes
/// `0 - primary`; signs do not compose with another sign.
pub open spec fn sp_unary(list: Seq<Token>, n: int) -> PResult
    decreases list.len() - n, 1int,
{
    if !(0 <= n < list.len()) {
        PResult::Stuck
    } else {
        match list[n].kind {
            TokenKind::Plus => sp_primary(list, n + 1),
            TokenKind::Minus => match sp_primary(list, n + 1) {
                PResult::Parsed { tree, next } => PResult::Parsed {
                    tree: bin(TreeKind::Minus, list[n].pos, leaf(0, list[n].pos), tree),
                    next,
                },
                o => o,
            },
            _ => sp_primary(list, n),
        }
    }
}

/// The left-fold of `multiplicative` operators onto an already parsed tree.
pub open spec fn sp_mul_tail(list: Seq<Token>, n: int, acc: TokenTree) -> PResult
    decreases list.len() - n, 2int,
{
    if !(0 <= n < list.len()) {
        PResult::Stuck
    } else if list[n].kind is Multiply || list[n].kind is Devide {
        let k = if list[n].kind is Multiply {
            TreeKind::Multiply
        } else {
            TreeKind::Devide
        };
        match sp_unary(list, n + 1) {
            PResult::Parsed { tree, next } => {
                if n < next && next <= list.len() {
                    sp_mul_tail(list, next, bin(k, list[n].pos, acc, tree))
                } else {
                    PResult::Stuck
                }
            },
            o => o,
        }
    } else {
        PResult::Parsed { tree: acc, next: n }
    }
}

/// `multiplicative := unary ( ("*" | "/") unary )*`.
pub open spec fn sp_mul(list: Seq<Token>, n: int) -> PResult
    decreases list.len() - n, 3int,
{
    if !(0 <= n < list.len()) {
        PResult::Stuck
    } else {
        match sp_unary(list, n) {
            PResult::Parsed { tree, next } => {
                if n < next && next <= list.len() {
                    sp_mul_tail(list, next, tree)
                } else {
                    PResult::Stuck
                }
            },
            o => o,
        }
    }
}

/// The left-fold of `additive` operators onto an already parsed tree.
pub open spec fn sp_add_tail(list: Seq<Token>, n: int, acc: TokenTree) -> PResult
    decreases list.len() - n, 4int,
{
    if !(0 <= n < list.len()) {
        PResult::Stuck
    } else if list[n].kind is Plus || list[n].kind is Minus {
        let k = if list[n].kind is Plus {
            TreeKind::Plus
        } else {
            TreeKind::Minus
        };
        match sp_mul(list, n + 1) {
            PResult::Parsed { tree, next } => {
                if n < next && next <= list.len() {
                    sp_add_tail(list, next, bin(k, list[n].pos, acc, tree))
                } else {
                    PResult::Stuck
                }
            },
            o => o,
        }
    } else {
        PResult::Parsed { tree: acc, next: n }
    }
}

/// `additive := multiplicative ( ("+" | "-") multiplicative )*`.
pub open spec fn sp_add(list: Seq<Token>, n: int) -> PResult
    decreases list.len() - n, 5int,
{
    if !(0 <= n < list.len()) {
        PResult::Stuck
    } else {
        match sp_mul(list, n) {
            PResult::Parsed { tree, next } => {
                if n < next && next <= list.len() {
                    sp_add_tail(list, next, tree)
                } else {
                    PResult::Stuck
                }
            },
            o => o,
        }
    }
}

/// The left-fold of `relational` operators onto an already parsed tree.
/// A `<` or `>` immediately followed by `=` forms `<=` or `>=`.
pub open spec fn sp_rel_tail(list: Seq<Token>, n: int, acc: TokenTree) -> PResult
    decreases list.len() - n, 6int,
{
    if !(0 <= n < list.len()) {
        PResult::Stuck
    } else if list[n].kind is Less || list[n].kind is Greater {
        if !(n + 1 < list.len()) {
            PResult::Stuck
        } else if list[n + 1].kind is Equal {
            let k = if list[n].kind is Less {
                TreeKind::LessEqual
            } else {
                TreeKind::GreaterEqual
            };
            match sp_add(list, n + 2) {
                PResult::Parsed { tree, next } => {
                    if n < next && next <= list.len() {
                        sp_rel_tail(list, next, bin(k, list[n].pos, acc, tree))
                    } else {
                        PResult::Stuck
                    }
                },
                o => o,
            }
        } else {
            let k = if list[n].kind is Less {
                TreeKind::Less
            } else {
                TreeKind::Greater
            };
            match sp_add(list, n + 1) {
                PResult::Parsed { tree, next } => {
                    if n < next && next <= list.len() {
                        sp_rel_tail(list, next, bin(k, list[n].pos, acc, tree))
                    } else {
                        PResult::Stuck
                    }
                },
                o => o,
            }
        }
    } else {
        PResult::Parsed { tree: acc, next: n }
    }
}

/// `relational := additive ( ("<" | ">") "="? additive )*`.
pub open spec fn sp_relational(list: Seq<Token>, n: int) -> PResult
    decreases list.len() - n, 7int,
{
    if !(0 <= n < list.len()) {
        PResult::Stuck
    } else {
        match sp_add(list, n) {
            PResult::Parsed { tree, next } => {
                if n < next && next <= list.len() {
                    sp_rel_tail(list, next, tree)
                } else {
                    PResult::Stuck
                }
            },
            o => o,
        }
    }
}

/// The left-fold of `equality` operators onto an already parsed tree.
/// Equality is an `=` token followed by a second `=`; inequality is an `=`
/// token followed by `!`, in that order. An `=` followed by anything else
/// is rejected.
pub open spec fn sp_eq_tail(list: Seq<Token>, n: int, acc: TokenTree) -> PResult
    decreases list.len() - n, 8int,
{
    if !(0 <= n < list.len()) {
        PResult::Stuck
    } else if list[n].kind is Equal {
        if !(n + 1 < list.len()) {
            PResult::Stuck
        } else if list[n + 1].kind is Equal || list[n + 1].kind is Not {
            let k = if list[n + 1].kind is Equal {
                TreeKind::Equal
            } else {
                TreeKind::NotEqual
            };
            match sp_relational(list, n + 2) {
                PResult::Parsed { tree, next } => {
                    if n < next && next <= list.len() {
                        sp_eq_tail(list, next, bin(k, list[n].pos, acc, tree))
                    } else {
                        PResult::Stuck
                    }
                },
                o => o,
            }
        } else {
            PResult::Fail(
                SpecErr {
                    kind: ErrorType::UnexpectedToken,
                    pos: list[n].pos as int,
                    msg: "unexpected token"@,
                },
            )
        }
    } else {
        PResult::Parsed { tree: acc, next: n }
    }
}

/// `equality := relational ( "=" "=" relational | "=" "!" relational )*`.
pub open spec fn sp_equal(list: Seq<Token>, n: int) -> PResult
    decreases list.len() - n, 9int,
{
    if !(0 <= n < list.len()) {
        PResult::Stuck
    } else {
        match sp_relational(list, n) {
            PResult::Parsed { tree, next } => {
                if n < next && next <= list.len() {
                    sp_eq_tail(list, next, tree)
                } else {
                    PResult::Stuck
                }
            },
            o => o,
        }
    }
}

/// `expr := equality`.
pub open spec fn sp_expr(list: Seq<Token>, n: int) -> PResult
    decreases list.len() - n, 10int,
{
    if !(0 <= n < list.len()) {
        PResult::Stuck
    } else {
        sp_equal(list, n)
    }
}

/// The outcome of parsing a whole input.
pub enum ParseOutcome {
    Tree(TokenTree),
    Fail(SpecErr),
    Stuck,
}

/// One `expr` must cover the whole token sequence: after it the cursor must
/// sit exactly on `End`.
pub open spec fn sp_program(list: Seq<Token>) -> ParseOutcome {
    match sp_expr(list, 0) {
        PResult::Parsed { tree, next } => {
            if !(0 <= next < list.len()) {
                ParseOutcome::Stuck
            } else if list[next].kind is End {
                ParseOutcome::Tree(tree)
            } else {
                ParseOutcome::Fail(
                    SpecErr {
                        kind: ErrorType::UnexpectedToken,
                        pos: list[next].pos as int,
                        msg: "unexpected trailing input"@,
                    },
                )
            }
        },
        PResult::Fail(e) => ParseOutcome::Fail(e),
        PResult::Stuck => ParseOutcome::Stuck,
    }
}

/// Lexing and parsing of a whole source text, as [`TokenTree::new`]
/// performs it.
pub open spec fn sp_parse_text(s: Seq<char>) -> ParseOutcome {
    match spec_token_list(s, 0) {
        LexedList::Toks(list) => sp_program(list),
        LexedList::Fail(e) => ParseOutcome::Fail(e),
    }
}

/// An operator node is one node more than its children together.
proof fn lemma_bin_size(k: TreeKind, p: usize, l: TokenTree, r: TokenTree)
    ensures
        tree_size(bin(k, p, l, r)) == 1 + tree_size(l) + tree_size(r),
{
}

/// A leaf is one node.
proof fn lemma_leaf_size(v: i32, p: usize)
    ensures
        tree_size(leaf(v, p)) == 1,
{
}

/// Sizes and cursor bounds of `primary`: it consumes at least one token
/// and builds at most two nodes per token consumed.
proof fn lemma_size_primary(list: Seq<Token>, n: int)
    requires
        0 <= n <= list.len(),
    ensures
        match sp_primary(list, n) {
            PResult::Parsed { tree, next } => n < next <= list.len() && tree_size(tree) <= 2 * (
            next - n),
            _ => true,
        },
    decreases list.len() - n, 0int,
{
    if 0 <= n && n < list.len() {
        match list[n].kind {
            TokenKind::Number(v) => {
                lemma_leaf_size(v, list[n].pos);
            },
            TokenKind::LParen => {
                lemma_size_expr(list, n + 1);
            },
            _ => {},
        }
    }
}

/// Sizes and cursor bounds of `unary`.
proof fn lemma_size_unary(list: Seq<Token>, n: int)
    requires
        0 <= n <= list.len(),
    ensures
        match sp_unary(list, n) {
            PResult::Parsed { tree, next } => n < next <= list.len() && tree_size(tree) <= 2 * (
            next - n),
            _ => true,
        },
    decreases list.len() - n, 1int,
{
    if 0 <= n && n < list.len() {
        match list[n].kind {
            TokenKind::Plus => {
                lemma_size_primary(list, n + 1);
            },
            TokenKind::Minus => {
                lemma_size_primary(list, n + 1);
                match sp_primary(list, n + 1) {
                    PResult::Parsed { tree, next } => {
                        lemma_leaf_size(0, list[n].pos);
                        lemma_bin_size(
                            TreeKind::Minus,
                            list[n].pos,
                            leaf(0, list[n].pos),
                            tree,
                        );
                    },
                    _ => {},
                }
            },
            _ => {
                lemma_size_primary(list, n);
            },
        }
    }
}

/// Sizes and cursor bounds of the `multiplicative` left-fold.
proof fn lemma_size_mul_tail(list: Seq<Token>, n: int, acc: TokenTree)
    requires
        0 <= n <= list.len(),
    ensures
        match sp_mul_tail(list, n, acc) {
            PResult::Parsed { tree, next } => n <= next <= list.len() && tree_size(tree)
                <= tree_size(acc) + 2 * (next - n),
            _ => true,
        },
    decreases list.len() - n, 2int,
{
    if 0 <= n && n < list.len() {
        if list[n].kind is Multiply || list[n].kind is Devide {
            let k = if list[n].kind is Multiply {
                TreeKind::Multiply
            } else {
                TreeKind::Devide
            };
            lemma_size_unary(list, n + 1);
            match sp_unary(list, n + 1) {
                PResult::Parsed { tree, next } => {
                    if n < next && next <= list.len() {
                        lemma_bin_size(k, list[n].pos, acc, tree);
                        lemma_size_mul_tail(list, next, bin(k, list[n].pos, acc, tree));
                    }
                },
                _ => {},
            }
        }
    }
}

/// Sizes and cursor bounds of `multiplicative`.
proof fn lemma_size_mul(list: Seq<Token>, n: int)
    requires
        0 <= n <= list.len(),
    ensures
        match sp_mul(list, n) {
            PResult::Parsed { tree, next } => n < next <= list.len() && tree_size(tree) <= 2 * (
            next - n),
            _ => true,
        },
    decreases list.len() - n, 3int,
{
    if 0 <= n && n < list.len() {
        lemma_size_unary(list, n);
        match sp_unary(list, n) {
            PResult::Parsed { tree, next } => {
                if n < next && next <= list.len() {
                    lemma_size_mul_tail(list, next, tree);
                }
            },
            _ => {},
        }
    }
}

/// Sizes and cursor bounds of the `additive` left-fold.
proof fn lemma_size_add_tail(list: Seq<Token>, n: int, acc: TokenTree)
    requires
        0 <= n <= list.len(),
    ensures
        match sp_add_tail(list, n, acc) {
            PResult::Parsed { tree, next } => n <= next <= list.len() && tree_size(tree)
                <= tree_size(acc) + 2 * (next - n),
            _ => true,
        },
    decreases list.len() - n, 4int,
{
    if 0 <= n && n < list.len() {
        if list[n].kind is Plus || list[n].kind is Minus {
            let k = if list[n].kind is Plus {
                TreeKind::Plus
            } else {
                TreeKind::Minus
            };
            lemma_size_mul(list, n + 1);
            match sp_mul(list, n + 1) {
                PResult::Parsed { tree, next } => {
                    if n < next && next <= list.len() {
                        lemma_bin_size(k, list[n].pos, acc, tree);
                        lemma_size_add_tail(list, next, bin(k, list[n].pos, acc, tree));
                    }
                },
                _ => {},
            }
        }
    }
}

/// Sizes and cursor bounds of `additive`.
proof fn lemma_size_add(list: Seq<Token>, n: int)
    requires
        0 <= n <= list.len(),
    ensures
        match sp_add(list, n) {
            PResult::Parsed { tree, next } => n < next <= list.len() && tree_size(tree) <= 2 * (
            next - n),
            _ => true,
        },
    decreases list.len() - n, 5int,
{
    if 0 <= n && n < list.len() {
        lemma_size_mul(list, n);
        match sp_mul(list, n) {
            PResult::Parsed { tree, next } => {
                if n < next && next <= list.len() {
                    lemma_size_add_tail(list, next, tree);
                }
            },
            _ => {},
        }
    }
}

/// Sizes and cursor bounds of the `relational` left-fold.
proof fn lemma_size_rel_tail(list: Seq<Token>, n: int, acc: TokenTree)
    requires
        0 <= n <= list.len(),
    ensures
        match sp_rel_tail(list, n, acc) {
            PResult::Parsed { tree, next } => n <= next <= list.len() && tree_size(tree)
                <= tree_size(acc) + 2 * (next - n),
            _ => true,
        },
    decreases list.len() - n, 6int,
{
    if 0 <= n && n < list.len() {
        if list[n].kind is Less || list[n].kind is Greater {
            if n + 1 < list.len() {
                if list[n + 1].kind is Equal {
                    let k = if list[n].kind is Less {
                        TreeKind::LessEqual
                    } else {
                        TreeKind::GreaterEqual
                    };
                    lemma_size_add(list, n + 2);
                    match sp_add(list, n + 2) {
                        PResult::Parsed { tree, next } => {
                            if n < next && next <= list.len() {
                                lemma_bin_size(k, list[n].pos, acc, tree);
                                lemma_size_rel_tail(list, next, bin(k, list[n].pos, acc, tree));
                            }
                        },
                        _ => {},
                    }
                } else {
                    let k = if list[n].kind is Less {
                        TreeKind::Less
                    } else {
                        TreeKind::Greater
                    };
                    lemma_size_add(list, n + 1);
                    match sp_add(list, n + 1) {
                        PResult::Parsed { tree, next } => {
                            if n < next && next <= list.len() {
                                lemma_bin_size(k, list[n].pos, acc, tree);
                                lemma_size_rel_tail(list, next, bin(k, list[n].pos, acc, tree));
                            }
                        },
                        _ => {},
                    }
                }
            }
        }
    }
}

/// Sizes and cursor bounds of `relational`.
proof fn lemma_size_relational(list: Seq<Token>, n: int)
    requires
        0 <= n <= list.len(),
    ensures
        match sp_relational(list, n) {
            PResult::Parsed { tree, next } => n < next <= list.len() && tree_size(tree) <= 2 * (
            next - n),
            _ => true,
        },
    decreases list.len() - n, 7int,
{
    if 0 <= n && n < list.len() {
        lemma_size_add(list, n);
        match sp_add(list, n) {
            PResult::Parsed { tree, next } => {
                if n < next && next <= list.len() {
                    lemma_size_rel_tail(list, next, tree);
                }
            },
            _ => {},
        }
    }
}

/// Sizes and cursor bounds of the `equality` left-fold.
proof fn lemma_size_eq_tail(list: Seq<Token>, n: int, acc: TokenTree)
    requires
        0 <= n <= list.len(),
    ensures
        match sp_eq_tail(list, n, acc) {
            PResult::Parsed { tree, next } => n <= next <= list.len() && tree_size(tree)
                <= tree_size(acc) + 2 * (next - n),
            _ => true,
        },
    decreases list.len() - n, 8int,
{
    if 0 <= n && n < list.len() {
        if list[n].kind is Equal {
            if n + 1 < list.len() {
                if list[n + 1].kind is Equal || list[n + 1].kind is Not {
                    let k = if list[n + 1].kind is Equal {
                        TreeKind::Equal
                    } else {
                        TreeKind::NotEqual
                    };
                    lemma_size_relational(list, n + 2);
                    match sp_relational(list, n + 2) {
                        PResult::Parsed { tree, next } => {
                            if n < next && next <= list.len() {
                                lemma_bin_size(k, list[n].pos, acc, tree);
                                lemma_size_eq_tail(list, next, bin(k, list[n].pos, acc, tree));
                            }
                        },
                        _ => {},
                    }
                }
            }
        }
    }
}

/// Sizes and cursor bounds of `equality`.
proof fn lemma_size_equal(list: Seq<Token>, n: int)
    requires
        0 <= n <= list.len(),
    ensures
        match sp_equal(list, n) {
            PResult::Parsed { tree, next } => n < next <= list.len() && tree_size(tree) <= 2 * (
            next - n),
            _ => true,
        },
    decreases list.len() - n, 9int,
{
    if 0 <= n && n < list.len() {
        lemma_size_relational(list, n);
        match sp_relational(list, n) {
            PResult::Parsed { tree, next } => {
                if n < next && next <= list.len() {
                    lemma_size_eq_tail(list, next, tree);
                }
            },
            _ => {},
        }
    }
}

/// Sizes and cursor bounds of `expr`.
proof fn lemma_size_expr(list: Seq<Token>, n: int)
    requires
        0 <= n <= list.len(),
    ensures
        match sp_expr(list, n) {
            PResult::Parsed { tree, next } => n < next <= list.len() && tree_size(tree) <= 2 * (
            next - n),
            _ => true,
        },
    decreases list.len() - n, 10int,
{
    if 0 <= n && n < list.len() {
        lemma_size_equal(list, n);
    }
}

/// The tree of a parsed text holds at most two nodes per input character:
/// each token consumed adds at most two nodes, and the tokens fit the
/// characters.
pub proof fn lemma_parse_size(s: Seq<char>, t: TokenTree)
    requires
        sp_parse_text(s) == ParseOutcome::Tree(t),
    ensures
        tree_size(t) <= 2 * s.len(),
{
    match spec_token_list(s, 0) {
        LexedList::Toks(list) => {
            crate::lexer::lemma_token_list_len(s, 0);
            lemma_size_expr(list, 0);
            match sp_expr(list, 0) {
                PResult::Parsed { tree, next } => {
                    assert(0 <= next < list.len());
                    assert(tree_size(t) <= 2 * next);
                },
                _ => {
                    assert(false);
                },
            }
        },
        LexedList::Fail(_) => {
            assert(false);
        },
    }
}

impl TokenTree {
    /// Lexes and parses a whole source text. Returns the expression tree,
    /// or the first error: a bad character, a malformed expression, or
    /// trailing input after one full expression.
    pub fn new(s: &str) -> (r: Result<TokenTree, QccError>)
        requires
            all_literals_fit(s@),
        ensures
            match sp_parse_text(s@) {
                ParseOutcome::Tree(tree) => r matches Ok(t) && t == tree && tree_size(tree) <= 2
                    * (s@.len() + 1),
                ParseOutcome::Fail(e) => r matches Err(q) && q@ == e,
                ParseOutcome::Stuck => false,
            },
    {
        let list = match get_token_list(s) {
            Ok(l) => l,
            Err(e) => return Err(e),
        };
        let mut n: usize = 0;
        let ret = match Self::expr(&mut n, &list) {
            Ok(t) => t,
            Err(e) => return Err(e),
        };
        match list[n].kind {
            TokenKind::End => Ok(ret),
            _ => Err(QccError {
                kind: ErrorType::UnexpectedToken,
                pos: list[n].pos,
                message: String::from_str("unexpected trailing input"),
            }),
        }
    }

    /// `expr := equality`.
    fn expr(n: &mut usize, list: &Vec<Token>) -> (r: Result<TokenTree, QccError>)
        requires
            wf_tokens(list@),
            *old(n) < list@.len(),
        ensures
            p_matches(r, *final(n) as int, sp_expr(list@, *old(n) as int)),
            r matches Ok(t) ==> *old(n) < *final(n) < list@.len() && tree_size(t) <= 2 * (*final(n)
                - *old(n)),
        decreases list@.len() - *n, 10int,
    {
        Self::equal(n, list)
    }

    /// `equality := relational ( "=" "=" relational | "=" "!" relational )*`.
    #[verifier::rlimit(60)]
    fn equal(n: &mut usize, list: &Vec<Token>) -> (r: Result<TokenTree, QccError>)
        requires
            wf_tokens(list@),
            *old(n) < list@.len(),
        ensures
            p_matches(r, *final(n) as int, sp_equal(list@, *old(n) as int)),
            r matches Ok(t) ==> *old(n) < *final(n) < list@.len() && tree_size(t) <= 2 * (*final(n)
                - *old(n)),
        decreases list@.len() - *n, 9int,
    {
        let ghost n0 = *n as int;
        let mut token = match Self::relational(n, list) {
            Ok(t) => t,
            Err(e) => return Err(e),
        };
        loop
            invariant
                wf_tokens(list@),
                n0 == *old(n) as int,
                0 <= n0 < *n < list@.len(),
                tree_size(token) <= 2 * (*n - n0),
                sp_equal(list@, n0) == sp_eq_tail(list@, *n as int, token),
            decreases list@.len() - *n,
        {
            let m = *n;
            match list[m].kind {
                TokenKind::Equal => {
                    proof {
                        assert(!(list@[m as int].kind is End));
                        assert(m + 1 < list@.len());
                    }
                    match list[m + 1].kind {
                        TokenKind::Equal => {
                            *n = *n + 2;
                            let rhs = match Self::relational(n, list) {
                                Ok(t) => t,
                                Err(e) => return Err(e),
                            };
                            let prev = token;
                            token = TokenTree {
                                kind: TreeKind::Equal,
                                pos: list[m].pos,
                                lhs: Some(Box::new(prev)),
                                rhs: Some(Box::new(rhs)),
                            };
                        },
                        TokenKind::Not => {
                            *n = *n + 2;
                            let rhs = match Self::relational(n, list) {
                                Ok(t) => t,
                                Err(e) => return Err(e),
                            };
                            let prev = token;
                            token = TokenTree {
                                kind: TreeKind::NotEqual,
                                pos: list[m].pos,
                                lhs: Some(Box::new(prev)),
                                rhs: Some(Box::new(rhs)),
                            };
                        },
                        _ => {
                            return Err(QccError {
                                kind: ErrorType::UnexpectedToken,
                                pos: list[m].pos,
                                message: String::from_str("unexpected token"),
                            });
                        },
                    }
                },
                _ => {
                    return Ok(token);
                },
            }
        }
    }

    /// `relational := additive ( ("<" | ">") "="? additive )*`.
    #[verifier::rlimit(60)]
    fn relational(n: &mut usize, list: &Vec<Token>) -> (r: Result<TokenTree, QccError>)
        requires
            wf_tokens(list@),
            *old(n) < list@.len(),
        ensures
            p_matches(r, *final(n) as int, sp_relational(list@, *old(n) as int)),
            r matches Ok(t) ==> *old(n) < *final(n) < list@.len() && tree_size(t) <= 2 * (*final(n)
                - *old(n)),
        decreases list@.len() - *n, 7int,
    {
        let ghost n0 = *n as int;
        let mut token = match Self::add(n, list) {
            Ok(t) => t,
            Err(e) => return Err(e),
        };
        loop
            invariant
                wf_tokens(list@),
                n0 == *old(n) as int,
                0 <= n0 < *n < list@.len(),
                tree_size(token) <= 2 * (*n - n0),
                sp_relational(list@, n0) == sp_rel_tail(list@, *n as int, token),
            decreases list@.len() - *n,
        {
            let m = *n;
            let now = list[m];
            match now.kind {
                TokenKind::Less | TokenKind::Greater => {
                    proof {
                        assert(!(list@[m as int].kind is End));
                        assert(m + 1 < list@.len());
                    }
                    match list[m + 1].kind {
                        TokenKind::Equal => {
                            *n = *n + 2;
                            let kind = match now.kind {
                                TokenKind::Less => TreeKind::LessEqual,
                                _ => TreeKind::GreaterEqual,
                            };
                            let rhs = match Self::add(n, list) {
                                Ok(t) => t,
                                Err(e) => return Err(e),
                            };
                            let prev = token;
                            token = TokenTree {
                                kind,
                                pos: now.pos,
                                lhs: Some(Box::new(prev)),
                                rhs: Some(Box::new(rhs)),
                            };
                        },
                        _ => {
                            *n = *n + 1;
                            let kind = match kind_convert(&now) {
                                Ok(k) => k,
                                Err(e) => {
                                    proof {
                                        assert(false);
                                    }
                                    return Err(e);
                                },
                            };
                            let rhs = match Self::add(n, list) {
                                Ok(t) => t,
                                Err(e) => return Err(e),
                            };
                            let prev = token;
                            token = TokenTree {
                                kind,
                                pos: now.pos,
                                lhs: Some(Box::new(prev)),
                                rhs: Some(Box::new(rhs)),
                            };
                        },
                    }
                },
                _ => {
                    return Ok(token);
                },
            }
        }
    }

    /// `additive := multiplicative ( ("+" | "-") multiplicative )*`.
    fn add(n: &mut usize, list: &Vec<Token>) -> (r: Result<TokenTree, QccError>)
        requires
            wf_tokens(list@),
            *old(n) < list@.len(),
        ensures
            p_matches(r, *final(n) as int, sp_add(list@, *old(n) as int)),
            r matches Ok(t) ==> *old(n) < *final(n) < list@.len() && tree_size(t) <= 2 * (*final(n)
                - *old(n)),
        decreases list@.len() - *n, 5int,
    {
        let ghost n0 = *n as int;
        let mut token = match Self::mul(n, list) {
            Ok(t) => t,
            Err(e) => return Err(e),
        };
        loop
            invariant
                wf_tokens(list@),
                n0 == *old(n) as int,
                0 <= n0 < *n < list@.len(),
                tree_size(token) <= 2 * (*n - n0),
                sp_add(list@, n0) == sp_add_tail(list@, *n as int, token),
            decreases list@.len() - *n,
        {
            let m = *n;
            let now = list[m];
            match now.kind {
                TokenKind::Plus | TokenKind::Minus => {
                    *n = *n + 1;
                    let kind = match kind_convert(&now) {
                        Ok(k) => k,
                        Err(e) => {
                            proof {
                                assert(false);
                            }
                            return Err(e);
                        },
                    };
                    let rhs = match Self::mul(n, list) {
                        Ok(t) => t,
                        Err(e) => return Err(e),
                    };
                    let prev = token;
                    token = TokenTree {
                        kind,
                        pos: now.pos,
                        lhs: Some(Box::new(prev)),
                        rhs: Some(Box::new(rhs)),
                    };
                },
                _ => {
                    return Ok(token);
                },
            }
        }
    }

    /// `multiplicative := unary ( ("*" | "/") unary )*`.
    fn mul(n: &mut usize, list: &Vec<Token>) -> (r: Result<TokenTree, QccError>)
        requires
            wf_tokens(list@),
            *old(n) < list@.len(),
        ensures
            p_matches(r, *final(n) as int, sp_mul(list@, *old(n) as int)),
            r matches Ok(t) ==> *old(n) < *final(n) < list@.len() && tree_size(t) <= 2 * (*final(n)
                - *old(n)),
        decreases list@.len() - *n, 3int,
    {
        let ghost n0 = *n as int;
        let mut token = match Self::unary(n, list) {
            Ok(t) => t,
            Err(e) => return Err(e),
        };
        loop
            invariant
                wf_tokens(list@),
                n0 == *old(n) as int,
                0 <= n0 < *n < list@.len(),
                tree_size(token) <= 2 * (*n - n0),
                sp_mul(list@, n0) == sp_mul_tail(list@, *n as int, token),
            decreases list@.len() - *n,
        {
            let m = *n;
            let now = list[m];
            match now.kind {
                TokenKind::Multiply | TokenKind::Devide => {
                    *n = *n + 1;
                    let kind = match kind_convert(&now) {
                        Ok(k) => k,
                        Err(e) => {
                            proof {
                                assert(false);
                            }
                            return Err(e);
                        },
                    };
                    let rhs = match Self::unary(n, list) {
                        Ok(t) => t,
                        Err(e) => return Err(e),
                    };
                    let prev = token;
                    token = TokenTree {
                        kind,
                        pos: now.pos,
                        lhs: Some(Box::new(prev)),
                        rhs: Some(Box::new(rhs)),
                    };
                },
                _ => {
                    return Ok(token);
                },
            }
        }
    }

    /// `unary := "+" primary | "-" primary | primary`. A leading `+` adds
    /// no node; a leading `-` builds `0 - primary`.
    fn unary(n: &mut usize, list: &Vec<Token>) -> (r: Result<TokenTree, QccError>)
        requires
            wf_tokens(list@),
            *old(n) < list@.len(),
        ensures
            p_matches(r, *final(n) as int, sp_unary(list@, *old(n) as int)),
            r matches Ok(t) ==> *old(n) < *final(n) < list@.len() && tree_size(t) <= 2 * (*final(n)
                - *old(n)),
        decreases list@.len() - *n, 1int,
    {
        let m = *n;
        match list[m].kind {
            TokenKind::Plus => {
                proof {
                    assert(!(list@[m as int].kind is End));
                }
                *n = *n + 1;
                Self::primary(n, list)
            },
            TokenKind::Minus => {
                proof {
                    assert(!(list@[m as int].kind is End));
                }
                *n = *n + 1;
                let zero = TokenTree {
                    kind: TreeKind::Number(0),
                    pos: list[m].pos,
                    lhs: None,
                    rhs: None,
                };
                let kind = match kind_convert(&list[m]) {
                    Ok(k) => k,
                    Err(e) => {
                        proof {
                            assert(false);
                        }
                        return Err(e);
                    },
                };
                let rhs = match Self::primary(n, list) {
                    Ok(t) => t,
                    Err(e) => return Err(e),
                };
                let built = TokenTree {
                    kind,
                    pos: list[m].pos,
                    lhs: Some(Box::new(zero)),
                    rhs: Some(Box::new(rhs)),
                };
                proof {
                    assert(tree_size(zero) == 1);
                    assert(tree_size(built) == 2 + tree_size(rhs));
                }
                Ok(built)
            },
            _ => Self::primary(n, list),
        }
    }

    /// `primary := Number | "(" expr ")"`.
    fn primary(n: &mut usize, list: &Vec<Token>) -> (r: Result<TokenTree, QccError>)
        requires
            wf_tokens(list@),
            *old(n) < list@.len(),
        ensures
            p_matches(r, *final(n) as int, sp_primary(list@, *old(n) as int)),
            r matches Ok(t) ==> *old(n) < *final(n) < list@.len() && tree_size(t) <= 2 * (*final(n)
                - *old(n)),
        decreases list@.len() - *n, 0int,
    {
        let m = *n;
        match list[m].kind {
            TokenKind::Number(_) => {
                proof {
                    assert(!(list@[m as int].kind is End));
                }
                *n = *n + 1;
                let kind = match kind_convert(&list[m]) {
                    Ok(k) => k,
                    Err(e) => {
                        proof {
                            assert(false);
                        }
                        return Err(e);
                    },
                };
                Ok(TokenTree { kind, pos: list[m].pos, lhs: None, rhs: None })
            },
            TokenKind::LParen => {
                proof {
                    assert(!(list@[m as int].kind is End));
                }
                *n = *n + 1;
                let ret = match Self::expr(n, list) {
                    Ok(t) => t,
                    Err(e) => return Err(e),
                };
                let c = *n;
                match list[c].kind {
                    TokenKind::RParen => {
                        proof {
                            assert(!(list@[c as int].kind is End));
                        }
                        *n = *n + 1;
                        Ok(ret)
                    },
                    _ => Err(QccError {
                        kind: ErrorType::UnexpectedToken,
                        pos: list[c].pos,
                        message: String::from_str("expected )"),
                    }),
                }
            },
            _ => Err(QccError {
                kind: ErrorType::UnexpectedToken,
                pos: list[m].pos,
                message: String::from_str("expected a number"),
            }),
        }
    }
}

/// Prepends already-collected tokens to the outcome of lexing the rest.
pub open spec fn tl_append(prefix: Seq<Token>, r: LexedList) -> LexedList {
    match r {
        LexedList::Toks(rest) => LexedList::Toks(prefix + rest),
        LexedList::Fail(e) => LexedList::Fail(e),
    }
}

/// Runs the lexer over the whole input and collects the tokens, the `End`
/// sentinel included. Relies on the lexer alone; fails on the first bad
/// character.
pub fn get_token_list(s: &str) -> (r: Result<Vec<Token>, QccError>)
    requires
        all_literals_fit(s@),
    ensures
        match spec_token_list(s@, 0) {
            LexedList::Toks(list) => {
                &&& r matches Ok(v) && v@ == list
                &&& wf_tokens(list)
                &&& list.len() <= s@.len() + 1
            },
            LexedList::Fail(e) => r matches Err(q) && q@ == e,
        },
{
    let mut lexer = Lexer::new(s);
    let mut tokens: Vec<Token> = Vec::new();
    loop
        invariant
            lexer.wf(),
            lexer.spec_input() == s@,
            all_literals_fit(s@),
            0 <= lexer.spec_pos() <= s@.len(),
            tokens@.len() <= lexer.spec_pos(),
            forall|k: int| 0 <= k < tokens@.len() ==> !((#[trigger] tokens@[k].kind) is End),
            spec_token_list(s@, 0) == tl_append(tokens@, spec_token_list(s@, lexer.spec_pos())),
        decreases s@.len() - lexer.spec_pos(),
    {
        let ghost p = lexer.spec_pos();
        let ghost pre = tokens@;
        let t = match lexer.next_token() {
            Ok(t) => t,
            Err(e) => {
                proof {
                    assert(spec_token_list(s@, p) is Fail);
                }
                return Err(e);
            },
        };
        let is_end = match t.kind {
            TokenKind::End => true,
            _ => false,
        };
        tokens.push(t);
        if is_end {
            proof {
                broadcast use vstd::std_specs::vec::axiom_spec_len;

                assert(spec_token_list(s@, p) == LexedList::Toks(seq![t]));
                assert(pre + seq![t] =~= tokens@);
                assert(spec_token_list(s@, 0) == LexedList::Toks(tokens@));
                assert(vstd::std_specs::vec::spec_vec_len(&tokens) == tokens@.len());
            }
            return Ok(tokens);
        }
        proof {
            let next = lexer.spec_pos();
            assert(spec_token_list(s@, p) == tl_append(seq![t], spec_token_list(s@, next)));
            match spec_token_list(s@, next) {
                LexedList::Toks(rest) => {
                    assert(pre + (seq![t] + rest) =~= tokens@ + rest);
                },
                LexedList::Fail(_) => {},
            }
        }
    }
}

/// Maps an operand or operator token to the node kind it builds. Tokens
/// that never form a node on their own (parentheses, `=`, `!`, `End`) are
/// rejected.
pub fn kind_convert(token: &Token) -> (r: Result<TreeKind, QccError>)
    ensures
        match token.kind {
            TokenKind::Number(v) => r matches Ok(k) && k == TreeKind::Number(v),
            TokenKind::Plus => r matches Ok(k) && k == TreeKind::Plus,
            TokenKind::Minus => r matches Ok(k) && k == TreeKind::Minus,
            TokenKind::Multiply => r matches Ok(k) && k == TreeKind::Multiply,
            TokenKind::Devide => r matches Ok(k) && k == TreeKind::Devide,
            TokenKind::Less => r matches Ok(k) && k == TreeKind::Less,
            TokenKind::Greater => r matches Ok(k) && k == TreeKind::Greater,
            _ => r matches Err(e) && e@ == (SpecErr {
                kind: ErrorType::UnexpectedToken,
                pos: token.pos as int,
                msg: "unexpected token"@,
            }),
        },
{
    match token.kind {
        TokenKind::Number(i) => Ok(TreeKind::Number(i)),
        TokenKind::Plus => Ok(TreeKind::Plus),
        TokenKind::Minus => Ok(TreeKind::Minus),
        TokenKind::Multiply => Ok(TreeKind::Multiply),
        TokenKind::Devide => Ok(TreeKind::Devide),
        TokenKind::Less => Ok(TreeKind::Less),
        TokenKind::Greater => Ok(TreeKind::Greater),
        _ => Err(QccError {
            kind: ErrorType::UnexpectedToken,
            pos: token.pos,
            message: String::from_str("unexpected token"),
        }),
    }
}

} // verus!
