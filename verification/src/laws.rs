//! Laws of the emitted IR, stated and proved over the spec-level pipeline.
//!
//! The two central facts: the instruction stream of any generated program
//! defines its registers in strictly increasing order and never reads a
//! register before defining it ([`lemma_emitted_registers`]); and a bare
//! literal compiles to the alloca/store/load triple that stores and
//! reloads exactly that value, whose loaded register the program returns
//! ([`lemma_literal_compile`]).

use vstd::prelude::*;

use crate::ir::Inst;
use crate::lexer::{all_digits, digits_end, digits_val, is_digit, spec_token_list, LexedList, Token,
    TokenKind};
use crate::parser::{sp_codegen, CgResult};
use crate::token_tree::{leaf, sp_parse_text, tree_size, ParseOutcome, TokenTree, TreeKind};
use crate::{spec_compile, CompileOutcome};

verus! {

/// Whether an instruction defines a register. A `store` writes through an
/// already-allocated cell and defines none.
pub open spec fn has_def(i: Inst) -> bool {
    !(i is Store)
}

/// The register an instruction defines (meaningful when [`has_def`]).
pub open spec fn def_of(i: Inst) -> int {
    match i {
        Inst::Alloca { dst } => dst as int,
        Inst::Store { val, dst } => dst as int,
        Inst::Load { dst, src } => dst as int,
        Inst::Bin { op, dst, a, b } => dst as int,
        Inst::Icmp { cond, dst, a, b } => dst as int,
        Inst::Sext { dst, src } => dst as int,
    }
}

/// The registers an instruction reads: operands, the cell a store writes
/// through or a load reads, the source of a sign extension.
pub open spec fn inst_uses(i: Inst) -> Seq<int> {
    match i {
        Inst::Alloca { dst } => Seq::empty(),
        Inst::Store { val, dst } => seq![dst as int],
        Inst::Load { dst, src } => seq![src as int],
        Inst::Bin { op, dst, a, b } => seq![a as int, b as int],
        Inst::Icmp { cond, dst, a, b } => seq![a as int, b as int],
        Inst::Sext { dst, src } => seq![src as int],
    }
}

/// Every register defined in `insts` lies in `[lo, hi]`.
pub open spec fn defs_in_range(insts: Seq<Inst>, lo: int, hi: int) -> bool {
    forall|i: int|
        0 <= i < insts.len() && has_def(#[trigger] insts[i]) ==> lo <= def_of(insts[i]) <= hi
}

/// Defined registers strictly increase in emission order.
pub open spec fn defs_increasing(insts: Seq<Inst>) -> bool {
    forall|i: int, j: int|
        #![trigger insts[i], insts[j]]
        0 <= i < j < insts.len() && has_def(insts[i]) && has_def(insts[j]) ==> def_of(insts[i])
            < def_of(insts[j])
}

/// Register `u` is defined by some instruction strictly before index `i`.
pub open spec fn defined_before(insts: Seq<Inst>, i: int, u: int) -> bool {
    exists|j: int| 0 <= j < i && has_def(#[trigger] insts[j]) && def_of(insts[j]) == u
}

/// Every register an instruction reads was defined by a strictly earlier
/// instruction: the stream holds no forward reference.
pub open spec fn no_forward_refs(insts: Seq<Inst>) -> bool {
    forall|i: int, k: int|
        #![trigger inst_uses(insts[i])[k]]
        0 <= i < insts.len() && 0 <= k < inst_uses(insts[i]).len() ==> defined_before(
            insts,
            i,
            inst_uses(insts[i])[k],
        )
}

/// All register-discipline facts of one emitted stream at once.
pub open spec fn stream_wf(insts: Seq<Inst>, lo: int, reg: int) -> bool {
    &&& 1 <= insts.len()
    &&& defs_in_range(insts, lo, reg)
    &&& defs_increasing(insts)
    &&& no_forward_refs(insts)
    &&& has_def(insts[insts.len() - 1])
    &&& def_of(insts[insts.len() - 1]) == reg
}

/// Concatenating the stream of a left subtree (registers in `[n, a]`) and
/// of a right subtree (registers in `[a + 1, b]`) keeps the register
/// discipline.
proof fn lemma_stream_concat(x: Seq<Inst>, y: Seq<Inst>, n: int, a: int, b: int)
    requires
        stream_wf(x, n, a),
        stream_wf(y, a + 1, b),
        n <= a < b,
    ensures
        stream_wf(x + y, n, b),
{
    let c = x + y;
    assert forall|i: int| 0 <= i < c.len() && has_def(#[trigger] c[i]) implies n <= def_of(c[i])
        <= b by {
        if i < x.len() {
            assert(c[i] == x[i]);
        } else {
            assert(c[i] == y[i - x.len()]);
        }
    }
    assert forall|i: int, j: int|
        #![trigger c[i], c[j]]
        0 <= i < j < c.len() && has_def(c[i]) && has_def(c[j]) implies def_of(c[i]) < def_of(
        c[j],
    ) by {
        if j < x.len() {
            assert(c[i] == x[i] && c[j] == x[j]);
        } else if i >= x.len() {
            assert(c[i] == y[i - x.len()] && c[j] == y[j - x.len()]);
        } else {
            assert(c[i] == x[i] && c[j] == y[j - x.len()]);
            assert(def_of(x[i]) <= a && a + 1 <= def_of(y[j - x.len()]));
        }
    }
    assert forall|i: int, k: int|
        #![trigger inst_uses(c[i])[k]]
        0 <= i < c.len() && 0 <= k < inst_uses(c[i]).len() implies defined_before(
        c,
        i,
        inst_uses(c[i])[k],
    ) by {
        if i < x.len() {
            assert(c[i] == x[i]);
            assert(inst_uses(x[i])[k] == inst_uses(c[i])[k]);
            assert(defined_before(x, i, inst_uses(x[i])[k]));
            let jw = choose|j: int|
                0 <= j < i && has_def(#[trigger] x[j]) && def_of(x[j]) == inst_uses(x[i])[k];
            assert(c[jw] == x[jw]);
            assert(0 <= jw < i && has_def(c[jw]) && def_of(c[jw]) == inst_uses(c[i])[k]);
        } else {
            let iy = i - x.len();
            assert(c[i] == y[iy]);
            assert(inst_uses(y[iy])[k] == inst_uses(c[i])[k]);
            assert(defined_before(y, iy, inst_uses(y[iy])[k]));
            let jw = choose|j: int|
                0 <= j < iy && has_def(#[trigger] y[j]) && def_of(y[j]) == inst_uses(y[iy])[k];
            assert(c[x.len() + jw] == y[jw]);
            assert(0 <= x.len() + jw < i && has_def(c[x.len() + jw]) && def_of(c[x.len() + jw])
                == inst_uses(c[i])[k]);
        }
    }
    assert(c[c.len() - 1] == y[y.len() - 1]);
    assert(1 <= c.len());
    assert(defs_in_range(c, n, b));
    assert(defs_increasing(c));
    assert(no_forward_refs(c));
    assert(has_def(c[c.len() - 1]));
    assert(def_of(c[c.len() - 1]) == b);
}

/// Appending instructions that define fresh, increasing registers above
/// `b` and read only registers defined in the stream keeps the register
/// discipline.
proof fn lemma_stream_append(c: Seq<Inst>, ops: Seq<Inst>, n: int, b: int, reg: int)
    requires
        stream_wf(c, n, b),
        1 <= ops.len(),
        forall|i: int| 0 <= i < ops.len() ==> has_def(#[trigger] ops[i]),
        forall|i: int| 0 <= i < ops.len() ==> def_of(#[trigger] ops[i]) == b + 1 + i,
        reg == b + ops.len(),
        forall|i: int, k: int|
            #![trigger inst_uses(ops[i])[k]]
            0 <= i < ops.len() && 0 <= k < inst_uses(ops[i]).len() ==> defined_before(
                c + ops,
                c.len() + i,
                inst_uses(ops[i])[k],
            ),
    ensures
        stream_wf(c + ops, n, reg),
{
    let f = c + ops;
    assert forall|i: int| 0 <= i < f.len() && has_def(#[trigger] f[i]) implies n <= def_of(f[i])
        <= reg by {
        if i < c.len() {
            assert(f[i] == c[i]);
        } else {
            assert(f[i] == ops[i - c.len()]);
        }
    }
    assert forall|i: int, j: int|
        #![trigger f[i], f[j]]
        0 <= i < j < f.len() && has_def(f[i]) && has_def(f[j]) implies def_of(f[i]) < def_of(
        f[j],
    ) by {
        if j < c.len() {
            assert(f[i] == c[i] && f[j] == c[j]);
        } else if i >= c.len() {
            assert(f[i] == ops[i - c.len()] && f[j] == ops[j - c.len()]);
        } else {
            assert(f[i] == c[i] && f[j] == ops[j - c.len()]);
        }
    }
    assert forall|i: int, k: int|
        #![trigger inst_uses(f[i])[k]]
        0 <= i < f.len() && 0 <= k < inst_uses(f[i]).len() implies defined_before(
        f,
        i,
        inst_uses(f[i])[k],
    ) by {
        if i < c.len() {
            assert(f[i] == c[i]);
            assert(inst_uses(c[i])[k] == inst_uses(f[i])[k]);
            assert(defined_before(c, i, inst_uses(c[i])[k]));
            let jw = choose|j: int|
                0 <= j < i && has_def(#[trigger] c[j]) && def_of(c[j]) == inst_uses(c[i])[k];
            assert(f[jw] == c[jw]);
            assert(0 <= jw < i && has_def(f[jw]) && def_of(f[jw]) == inst_uses(f[i])[k]);
        } else {
            let io = i - c.len();
            assert(f[i] == ops[io]);
            assert(inst_uses(ops[io])[k] == inst_uses(f[i])[k]);
            assert(defined_before(f, c.len() + io, inst_uses(ops[io])[k]));
            let jw = choose|j: int|
                0 <= j < c.len() + io && has_def(#[trigger] f[j]) && def_of(f[j]) == inst_uses(
                    ops[io],
                )[k];
            assert(0 <= jw < i && has_def(f[jw]) && def_of(f[jw]) == inst_uses(f[i])[k]);
        }
    }
    assert(f[f.len() - 1] == ops[ops.len() - 1]);
}

/// The register discipline of generated code: for any subtree that
/// generates successfully from next-free register `n`, the stream is
/// non-empty, its defined registers lie in `[n, reg]` and strictly
/// increase in emission order, no instruction reads a register that was
/// not defined earlier, and the last instruction defines the returned
/// register.
pub proof fn lemma_codegen_registers(t: TokenTree, n: int)
    requires
        0 <= n,
        n + 4 * tree_size(t) <= usize::MAX,
    ensures
        match sp_codegen(t, n) {
            CgResult::Emitted { insts, reg } => {
                &&& n < reg <= n + 4 * tree_size(t) - 2
                &&& stream_wf(insts, n, reg)
            },
            CgResult::Fail(_) => true,
        },
    decreases t,
{
    match t.kind {
        TreeKind::Number(v) => {
            let insts = seq![
                Inst::Alloca { dst: n as usize },
                Inst::Store { val: v, dst: n as usize },
                Inst::Load { dst: (n + 1) as usize, src: n as usize },
            ];
            assert(sp_codegen(t, n) == (CgResult::Emitted { insts, reg: n + 1 }));
            assert forall|i: int, k: int|
                #![trigger inst_uses(insts[i])[k]]
                0 <= i < insts.len() && 0 <= k < inst_uses(insts[i]).len() implies defined_before(
                insts,
                i,
                inst_uses(insts[i])[k],
            ) by {
                assert(has_def(insts[0]) && def_of(insts[0]) == n);
                assert(i == 1 || i == 2);
                assert(inst_uses(insts[i])[k] == n);
            }
            assert(stream_wf(insts, n, n + 1));
        },
        _ => {
            match (t.lhs, t.rhs) {
                (Some(l), Some(r)) => {
                    assert(tree_size(t) == 1 + tree_size(*l) + tree_size(*r));
                    lemma_codegen_registers(*l, n);
                    match sp_codegen(*l, n) {
                        CgResult::Emitted { insts: li, reg: a } => {
                            lemma_codegen_registers(*r, a + 1);
                            match sp_codegen(*r, a + 1) {
                                CgResult::Emitted { insts: ri, reg: b } => {
                                    lemma_stream_concat(li, ri, n, a, b);
                                    let c = li + ri;
                                    assert(has_def(c[li.len() - 1]) && def_of(c[li.len() - 1])
                                        == a);
                                    assert(has_def(c[c.len() - 1]) && def_of(c[c.len() - 1]) == b);
                                    match crate::parser::arith_op_of(t.kind) {
                                        Some(op) => {
                                            let ops = seq![
                                                Inst::Bin {
                                                    op,
                                                    dst: (b + 1) as usize,
                                                    a: a as usize,
                                                    b: b as usize,
                                                },
                                            ];
                                            assert forall|i: int, k: int|
                                                #![trigger inst_uses(ops[i])[k]]
                                                0 <= i < ops.len() && 0 <= k < inst_uses(
                                                    ops[i],
                                                ).len() implies defined_before(
                                                c + ops,
                                                c.len() + i,
                                                inst_uses(ops[i])[k],
                                            ) by {
                                                assert((c + ops)[li.len() - 1] == c[li.len() - 1]);
                                                assert((c + ops)[c.len() - 1] == c[c.len() - 1]);
                                                assert(inst_uses(ops[0]) == seq![a, b]);
                                                assert(k == 0 || k == 1);
                                            }
                                            lemma_stream_append(c, ops, n, b, b + 1);
                                        },
                                        None => {
                                            match crate::parser::cmp_op_of(t.kind) {
                                                Some(cond) => {
                                                    let ops = seq![
                                                        Inst::Icmp {
                                                            cond,
                                                            dst: (b + 1) as usize,
                                                            a: a as usize,
                                                            b: b as usize,
                                                        },
                                                        Inst::Sext {
                                                            dst: (b + 2) as usize,
                                                            src: (b + 1) as usize,
                                                        },
                                                    ];
                                                    assert forall|i: int, k: int|
                                                        #![trigger inst_uses(ops[i])[k]]
                                                        0 <= i < ops.len() && 0 <= k < inst_uses(
                                                            ops[i],
                                                        ).len() implies defined_before(
                                                        c + ops,
                                                        c.len() + i,
                                                        inst_uses(ops[i])[k],
                                                    ) by {
                                                        assert((c + ops)[li.len() - 1] == c[li.len()
                                                            - 1]);
                                                        assert((c + ops)[c.len() - 1] == c[c.len()
                                                            - 1]);
                                                        if i == 0 {
                                                            assert(inst_uses(ops[0]) == seq![a, b]);
                                                            assert(k == 0 || k == 1);
                                                        } else {
                                                            assert(i == 1);
                                                            assert(inst_uses(ops[1]) == seq![
                                                                b + 1,
                                                            ]);
                                                            assert((c + ops)[c.len() as int] == ops[0]);
                                                            assert(has_def(ops[0]) && def_of(
                                                                ops[0],
                                                            ) == b + 1);
                                                        }
                                                    }
                                                    lemma_stream_append(c, ops, n, b, b + 2);
                                                },
                                                None => {},
                                            }
                                        },
                                    }
                                },
                                CgResult::Fail(_) => {},
                            }
                        },
                        CgResult::Fail(_) => {},
                    }
                },
                _ => {},
            }
        },
    }
}

/// For every input that parses (and is short enough that register numbers
/// fit the machine's word, as [`crate::compile`] requires), the emitted
/// instruction stream respects the register discipline: register ids
/// strictly increase in emission order, every operand register was defined
/// by a strictly earlier instruction, and the final register is the one
/// the last instruction defines.
pub proof fn lemma_emitted_registers(s: Seq<char>, t: TokenTree)
    requires
        sp_parse_text(s) == ParseOutcome::Tree(t),
        8 * s.len() + 16 <= usize::MAX,
    ensures
        match sp_codegen(t, 0) {
            CgResult::Emitted { insts, reg } => {
                &&& defs_increasing(insts)
                &&& no_forward_refs(insts)
                &&& defs_in_range(insts, 0, reg)
                &&& 1 <= insts.len()
                &&& has_def(insts[insts.len() - 1]) && def_of(insts[insts.len() - 1]) == reg
            },
            CgResult::Fail(_) => true,
        },
{
    crate::token_tree::lemma_parse_size(s, t);
    lemma_codegen_registers(t, 0);
}

/// An all-digit stretch runs to exactly its end.
proof fn lemma_digits_end_all(s: Seq<char>, i: int)
    requires
        0 <= i <= s.len(),
        all_digits(s, i, s.len() as int),
    ensures
        digits_end(s, i) == s.len(),
    decreases s.len() - i,
{
    if i < s.len() {
        assert(is_digit(s[i]));
        lemma_digits_end_all(s, i + 1);
    }
}

/// Compiling a bare literal: the token sequence is one number and `End`;
/// the tree is a single leaf holding the literal's value; the program is
/// exactly the alloca/store/load triple, storing and reloading that value,
/// and returns the loaded register.
pub proof fn lemma_literal_compile(s: Seq<char>, v: int)
    requires
        1 <= s.len() <= usize::MAX,
        all_digits(s, 0, s.len() as int),
        digits_val(s, 0, s.len() as int) == v,
        0 <= v < 0x8000_0000,
    ensures
        spec_token_list(s, 0) == LexedList::Toks(
            seq![
                Token { kind: TokenKind::Number(v as i32), pos: 0 },
                Token { kind: TokenKind::End, pos: s.len() as usize },
            ],
        ),
        sp_parse_text(s) == ParseOutcome::Tree(leaf(v as i32, 0)),
        sp_codegen(leaf(v as i32, 0), 0) == (CgResult::Emitted {
            insts: seq![
                Inst::Alloca { dst: 0 },
                Inst::Store { val: v as i32, dst: 0 },
                Inst::Load { dst: 1, src: 0 },
            ],
            reg: 1,
        }),
        spec_compile(s) == CompileOutcome::Text(
            crate::ir::spec_output(
                seq![
                    Inst::Alloca { dst: 0 },
                    Inst::Store { val: v as i32, dst: 0 },
                    Inst::Load { dst: 1, src: 0 },
                ],
                1,
            ),
        ),
{
    let len = s.len() as int;
    assert(is_digit(s[0]));
    assert(!crate::lexer::is_space(s[0]));
    assert(crate::lexer::skip_spaces(s, 0) == 0);
    lemma_digits_end_all(s, 0);
    let numtok = Token { kind: TokenKind::Number(v as i32), pos: 0 };
    let endtok = Token { kind: TokenKind::End, pos: s.len() as usize };
    assert(crate::lexer::spec_next_token(s, 0) == (crate::lexer::LexStep::Tok {
        token: numtok,
        next: len,
    }));
    assert(crate::lexer::skip_spaces(s, len) == len);
    assert(crate::lexer::spec_next_token(s, len) == (crate::lexer::LexStep::Tok {
        token: endtok,
        next: len,
    }));
    assert(spec_token_list(s, len) == LexedList::Toks(seq![endtok]));
    assert(spec_token_list(s, 0) == LexedList::Toks(seq![numtok] + seq![endtok]));
    let lst = seq![numtok, endtok];
    assert(seq![numtok] + seq![endtok] =~= lst);
    let lf = leaf(v as i32, 0);
    assert(crate::token_tree::sp_primary(lst, 0) == (crate::token_tree::PResult::Parsed {
        tree: lf,
        next: 1,
    }));
    assert(crate::token_tree::sp_unary(lst, 0) == (crate::token_tree::PResult::Parsed {
        tree: lf,
        next: 1,
    }));
    assert(crate::token_tree::sp_mul_tail(lst, 1, lf) == (crate::token_tree::PResult::Parsed {
        tree: lf,
        next: 1,
    }));
    assert(crate::token_tree::sp_mul(lst, 0) == (crate::token_tree::PResult::Parsed {
        tree: lf,
        next: 1,
    }));
    assert(crate::token_tree::sp_add_tail(lst, 1, lf) == (crate::token_tree::PResult::Parsed {
        tree: lf,
        next: 1,
    }));
    assert(crate::token_tree::sp_add(lst, 0) == (crate::token_tree::PResult::Parsed {
        tree: lf,
        next: 1,
    }));
    assert(crate::token_tree::sp_rel_tail(lst, 1, lf) == (crate::token_tree::PResult::Parsed {
        tree: lf,
        next: 1,
    }));
    assert(crate::token_tree::sp_relational(lst, 0) == (crate::token_tree::PResult::Parsed {
        tree: lf,
        next: 1,
    }));
    assert(crate::token_tree::sp_eq_tail(lst, 1, lf) == (crate::token_tree::PResult::Parsed {
        tree: lf,
        next: 1,
    }));
    assert(crate::token_tree::sp_equal(lst, 0) == (crate::token_tree::PResult::Parsed {
        tree: lf,
        next: 1,
    }));
    assert(crate::token_tree::sp_expr(lst, 0) == (crate::token_tree::PResult::Parsed {
        tree: lf,
        next: 1,
    }));
    assert(crate::token_tree::sp_program(lst) == ParseOutcome::Tree(lf));
    assert(sp_parse_text(s) == ParseOutcome::Tree(lf));
    assert(sp_codegen(lf, 0) == (CgResult::Emitted {
        insts: seq![
            Inst::Alloca { dst: 0 },
            Inst::Store { val: v as i32, dst: 0 },
            Inst::Load { dst: 1, src: 0 },
        ],
        reg: 1,
    }));
}

} // verus!
