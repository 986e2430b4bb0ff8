//! The virtual-register IR and its textual form.
//!
//! An [`Inst`] is one emitted instruction over numbered registers. The
//! spec functions below give the exact text of each instruction line and of
//! a whole program, and the executable renderers are proved to produce that
//! text character for character.

use vstd::prelude::*;
use vstd::string::{StrSliceExecFns, StringExecFns};

verus! {

/// Arithmetic instruction kinds: signed add, subtract, multiply, divide.
#[derive(Clone, Copy, Debug, PartialEq, Eq, Structural)]
pub enum BinOp {
    Add,
    Sub,
    Mul,
    Sdiv,
}

/// Comparison condition codes. All comparisons the generator emits are
/// unsigned, even though operands are nominally signed 32-bit values.
#[derive(Clone, Copy, Debug, PartialEq, Eq, Structural)]
pub enum CmpOp {
    Eq,
    Ne,
    Ult,
    Ule,
    Ugt,
    Uge,
}

/// One IR instruction. `dst` is always the register the instruction
/// defines; a `Store` defines none and only writes through the cell of
/// `dst`.
#[derive(Clone, Copy, Debug, PartialEq, Eq, Structural)]
pub enum Inst {
    Alloca { dst: usize },
    Store { val: i32, dst: usize },
    Load { dst: usize, src: usize },
    Bin { op: BinOp, dst: usize, a: usize, b: usize },
    Icmp { cond: CmpOp, dst: usize, a: usize, b: usize },
    Sext { dst: usize, src: usize },
}

/// The character of one decimal digit.
pub open spec fn spec_digit(d: int) -> char {
    if d == 0 {
        '0'
    } else if d == 1 {
        '1'
    } else if d == 2 {
        '2'
    } else if d == 3 {
        '3'
    } else if d == 4 {
        '4'
    } else if d == 5 {
        '5'
    } else if d == 6 {
        '6'
    } else if d == 7 {
        '7'
    } else if d == 8 {
        '8'
    } else {
        '9'
    }
}

/// The decimal digits of `n`, most significant first, without leading
/// zeros (`0` itself is the single digit `0`).
pub open spec fn spec_dec(n: nat) -> Seq<char>
    decreases n,
{
    if n < 10 {
        seq![spec_digit(n as int)]
    } else {
        spec_dec(n / 10) + seq![spec_digit((n % 10) as int)]
    }
}

/// The decimal text of a signed value: a `-` sign before the digits of its
/// magnitude when it is negative.
pub open spec fn spec_i32(v: int) -> Seq<char> {
    if v < 0 {
        seq!['-'] + spec_dec((-v) as nat)
    } else {
        spec_dec(v as nat)
    }
}

/// The mnemonic of an arithmetic instruction.
pub open spec fn spec_binop_name(op: BinOp) -> Seq<char> {
    match op {
        BinOp::Add => "add"@,
        BinOp::Sub => "sub"@,
        BinOp::Mul => "mul"@,
        BinOp::Sdiv => "sdiv"@,
    }
}

/// The condition-code text of a comparison.
pub open spec fn spec_cmp_name(c: CmpOp) -> Seq<char> {
    match c {
        CmpOp::Eq => "eq"@,
        CmpOp::Ne => "ne"@,
        CmpOp::Ult => "ult"@,
        CmpOp::Ule => "ule"@,
        CmpOp::Ugt => "ugt"@,
        CmpOp::Uge => "uge"@,
    }
}

/// The exact text of one instruction line, tab-indented and ending in a
/// line break.
pub open spec fn spec_inst_line(i: Inst) -> Seq<char> {
    match i {
        Inst::Alloca { dst } => "\t%"@ + spec_dec(dst as nat) + " = alloca i32, align 4\n"@,
        Inst::Store { val, dst } => "\tstore i32 "@ + spec_i32(val as int) + ", i32* %"@ + spec_dec(
            dst as nat,
        ) + ", align 4\n"@,
        Inst::Load { dst, src } => "\t%"@ + spec_dec(dst as nat) + " = load i32, i32* %"@
            + spec_dec(src as nat) + ", align 4\n"@,
        Inst::Bin { op, dst, a, b } => "\t%"@ + spec_dec(dst as nat) + " = "@ + spec_binop_name(op)
            + " i32 %"@ + spec_dec(a as nat) + ", %"@ + spec_dec(b as nat) + "\n"@,
        Inst::Icmp { cond, dst, a, b } => "\t%"@ + spec_dec(dst as nat) + " = icmp "@
            + spec_cmp_name(cond) + " i32 %"@ + spec_dec(a as nat) + ", %"@ + spec_dec(b as nat)
            + "\n"@,
        Inst::Sext { dst, src } => "\t%"@ + spec_dec(dst as nat) + " = sext i1 %"@ + spec_dec(
            src as nat,
        ) + " to i32\n"@,
    }
}

/// The concatenated lines of an instruction sequence, in emission order.
pub open spec fn spec_lines(insts: Seq<Inst>) -> Seq<char>
    decreases insts.len(),
{
    if insts.len() == 0 {
        Seq::empty()
    } else {
        spec_inst_line(insts[0]) + spec_lines(insts.drop_first())
    }
}

/// The whole emitted program: the fixed function header, one line per
/// instruction, and the return of the final register.
pub open spec fn spec_output(insts: Seq<Inst>, reg: int) -> Seq<char> {
    "define i32 @main() local_unnamed_addr #0 {\nentry:\n"@ + spec_lines(insts) + "\tret i32 %"@
        + spec_dec(reg as nat) + "\n}\n"@
}

/// Concatenating instruction sequences concatenates their text.
pub proof fn lemma_spec_lines_concat(a: Seq<Inst>, b: Seq<Inst>)
    ensures
        spec_lines(a + b) == spec_lines(a) + spec_lines(b),
    decreases a.len(),
{
    if a.len() == 0 {
        assert(a + b =~= b);
        assert(spec_lines(a) + spec_lines(b) =~= spec_lines(b));
    } else {
        lemma_spec_lines_concat(a.drop_first(), b);
        assert((a + b).drop_first() =~= a.drop_first() + b);
        assert((a + b)[0] == a[0]);
        assert(spec_lines(a + b) == spec_inst_line(a[0]) + (spec_lines(a.drop_first())
            + spec_lines(b)));
        assert(spec_inst_line(a[0]) + (spec_lines(a.drop_first()) + spec_lines(b))
            =~= (spec_inst_line(a[0]) + spec_lines(a.drop_first())) + spec_lines(b));
    }
}

/// One digit as text.
fn digit_str(d: u64) -> (r: &'static str)
    requires
        d < 10,
    ensures
        r@ == seq![spec_digit(d as int)],
{
    proof {
        reveal_strlit("0");
        reveal_strlit("1");
        reveal_strlit("2");
        reveal_strlit("3");
        reveal_strlit("4");
        reveal_strlit("5");
        reveal_strlit("6");
        reveal_strlit("7");
        reveal_strlit("8");
        reveal_strlit("9");
    }
    let r = if d == 0 {
        "0"
    } else if d == 1 {
        "1"
    } else if d == 2 {
        "2"
    } else if d == 3 {
        "3"
    } else if d == 4 {
        "4"
    } else if d == 5 {
        "5"
    } else if d == 6 {
        "6"
    } else if d == 7 {
        "7"
    } else if d == 8 {
        "8"
    } else {
        "9"
    };
    proof {
        assert(r@ =~= seq![spec_digit(d as int)]);
    }
    r
}

/// The decimal text of an unsigned value.
fn dec_u64(n: u64) -> (r: String)
    ensures
        r@ == spec_dec(n as nat),
    decreases n,
{
    if n < 10 {
        String::from_str(digit_str(n))
    } else {
        let mut s = dec_u64(n / 10);
        s.append(digit_str(n % 10));
        s
    }
}

/// The decimal text of a register number.
fn usize_str(n: usize) -> (r: String)
    ensures
        r@ == spec_dec(n as nat),
{
    dec_u64(n as u64)
}

/// The decimal text of a literal, sign included.
fn i32_str(v: i32) -> (r: String)
    ensures
        r@ == spec_i32(v as int),
{
    if v < 0 {
        let m = (-(v as i64)) as u64;
        let mut s = String::from_str("-");
        let digits = dec_u64(m);
        s.append(digits.as_str());
        proof {
            reveal_strlit("-");
            assert(s@ =~= seq!['-'] + spec_dec(m as nat));
        }
        s
    } else {
        dec_u64(v as u64)
    }
}

/// Renders one instruction as its exact text line.
pub fn render_inst(inst: &Inst) -> (r: String)
    ensures
        r@ == spec_inst_line(*inst),
{
    match *inst {
        Inst::Alloca { dst } => {
            let mut s = String::from_str("\t%");
            let d = usize_str(dst);
            s.append(d.as_str());
            s.append(" = alloca i32, align 4\n");
            proof {
                assert(s@ =~= spec_inst_line(*inst));
            }
            s
        },
        Inst::Store { val, dst } => {
            let mut s = String::from_str("\tstore i32 ");
            let v = i32_str(val);
            s.append(v.as_str());
            s.append(", i32* %");
            let d = usize_str(dst);
            s.append(d.as_str());
            s.append(", align 4\n");
            proof {
                assert(s@ =~= spec_inst_line(*inst));
            }
            s
        },
        Inst::Load { dst, src } => {
            let mut s = String::from_str("\t%");
            let d = usize_str(dst);
            s.append(d.as_str());
            s.append(" = load i32, i32* %");
            let c = usize_str(src);
            s.append(c.as_str());
            s.append(", align 4\n");
            proof {
                assert(s@ =~= spec_inst_line(*inst));
            }
            s
        },
        Inst::Bin { op, dst, a, b } => {
            let mut s = String::from_str("\t%");
            let d = usize_str(dst);
            s.append(d.as_str());
            s.append(" = ");
            let name = match op {
                BinOp::Add => "add",
                BinOp::Sub => "sub",
                BinOp::Mul => "mul",
                BinOp::Sdiv => "sdiv",
            };
            s.append(name);
            s.append(" i32 %");
            let x = usize_str(a);
            s.append(x.as_str());
            s.append(", %");
            let y = usize_str(b);
            s.append(y.as_str());
            s.append("\n");
            proof {
                assert(name@ == spec_binop_name(op));
                assert(s@ =~= spec_inst_line(*inst));
            }
            s
        },
        Inst::Icmp { cond, dst, a, b } => {
            let mut s = String::from_str("\t%");
            let d = usize_str(dst);
            s.append(d.as_str());
            s.append(" = icmp ");
            let name = match cond {
                CmpOp::Eq => "eq",
                CmpOp::Ne => "ne",
                CmpOp::Ult => "ult",
                CmpOp::Ule => "ule",
                CmpOp::Ugt => "ugt",
                CmpOp::Uge => "uge",
            };
            s.append(name);
            s.append(" i32 %");
            let x = usize_str(a);
            s.append(x.as_str());
            s.append(", %");
            let y = usize_str(b);
            s.append(y.as_str());
            s.append("\n");
            proof {
                assert(name@ == spec_cmp_name(cond));
                assert(s@ =~= spec_inst_line(*inst));
            }
            s
        },
        Inst::Sext { dst, src } => {
            let mut s = String::from_str("\t%");
            let d = usize_str(dst);
            s.append(d.as_str());
            s.append(" = sext i1 %");
            let c = usize_str(src);
            s.append(c.as_str());
            s.append(" to i32\n");
            proof {
                assert(s@ =~= spec_inst_line(*inst));
            }
            s
        },
    }
}

/// Renders a whole program: header, every instruction line in order, and
/// the `ret` of the final register.
pub fn render_program(insts: &Vec<Inst>, reg: usize) -> (r: String)
    ensures
        r@ == spec_output(insts@, reg as int),
{
    let ghost header = "define i32 @main() local_unnamed_addr #0 {\nentry:\n"@;
    let mut s = String::from_str("define i32 @main() local_unnamed_addr #0 {\nentry:\n");
    let mut i: usize = 0;
    while i < insts.len()
        invariant
            i <= insts@.len(),
            s@ == header + spec_lines(insts@.take(i as int)),
            header == "define i32 @main() local_unnamed_addr #0 {\nentry:\n"@,
        decreases insts@.len() - i,
    {
        let inst = insts[i];
        let line = render_inst(&inst);
        s.append(line.as_str());
        proof {
            assert(insts@.take(i + 1) =~= insts@.take(i as int) + seq![insts@[i as int]]);
            lemma_spec_lines_concat(insts@.take(i as int), seq![insts@[i as int]]);
            assert(seq![insts@[i as int]].drop_first() =~= Seq::<Inst>::empty());
            assert(seq![insts@[i as int]][0] == insts@[i as int]);
            assert(spec_lines(seq![insts@[i as int]]) == spec_inst_line(insts@[i as int])
                + spec_lines(Seq::<Inst>::empty()));
            assert(spec_inst_line(insts@[i as int]) + spec_lines(Seq::<Inst>::empty())
                =~= spec_inst_line(insts@[i as int]));
            assert(s@ =~= header + spec_lines(insts@.take(i + 1)));
        }
        i = i + 1;
    }
    proof {
        assert(insts@.take(i as int) =~= insts@);
    }
    s.append("\tret i32 %");
    let d = usize_str(reg);
    s.append(d.as_str());
    s.append("\n}\n");
    proof {
        assert(s@ =~= spec_output(insts@, reg as int));
    }
    s
}

} // verus!
