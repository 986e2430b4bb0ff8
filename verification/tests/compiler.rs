//! End-to-end tests of the compiler: exact output text, evaluation of the
//! emitted IR, operator precedence and associativity, the unsigned
//! comparison quirk, and every error path.

use qcc::compile;
use qcc::error::ErrorType;
use qcc::ir::{BinOp, CmpOp, Inst};
use qcc::lexer::literals_fit;
use qcc::parser::Parser;

/// Interprets an instruction stream: `cells` are the alloca'd memory
/// slots, `regs` the virtual registers. Comparisons are unsigned, exactly
/// as emitted; `sext` maps the 1-bit result to 0 or -1.
fn eval_ir(insts: &[Inst], ret: usize) -> i32 {
    let mut regs: Vec<Option<i32>> = vec![None; ret + 3];
    let mut cells: Vec<Option<i32>> = vec![None; ret + 3];
    for inst in insts {
        match *inst {
            Inst::Alloca { dst } => {
                cells[dst] = Some(0);
            }
            Inst::Store { val, dst } => {
                assert!(cells[dst].is_some(), "store to unallocated cell");
                cells[dst] = Some(val);
            }
            Inst::Load { dst, src } => {
                regs[dst] = Some(cells[src].expect("load from unallocated cell"));
            }
            Inst::Bin { op, dst, a, b } => {
                let x = regs[a].expect("operand not yet defined");
                let y = regs[b].expect("operand not yet defined");
                let v = match op {
                    BinOp::Add => x.wrapping_add(y),
                    BinOp::Sub => x.wrapping_sub(y),
                    BinOp::Mul => x.wrapping_mul(y),
                    BinOp::Sdiv => x.wrapping_div(y),
                };
                regs[dst] = Some(v);
            }
            Inst::Icmp { cond, dst, a, b } => {
                let x = regs[a].expect("operand not yet defined") as u32;
                let y = regs[b].expect("operand not yet defined") as u32;
                let v = match cond {
                    CmpOp::Eq => x == y,
                    CmpOp::Ne => x != y,
                    CmpOp::Ult => x < y,
                    CmpOp::Ule => x <= y,
                    CmpOp::Ugt => x > y,
                    CmpOp::Uge => x >= y,
                };
                regs[dst] = Some(if v { 1 } else { 0 });
            }
            Inst::Sext { dst, src } => {
                let bit = regs[src].expect("operand not yet defined");
                regs[dst] = Some(if bit == 0 { 0 } else { -1 });
            }
        }
    }
    regs[ret].expect("final register not defined")
}

/// Compiles to instructions and evaluates the final register.
fn eval_source(src: &str) -> i32 {
    let mut parser = Parser::new(src).expect("source should parse");
    let ret = parser.parse().expect("code generation should succeed");
    eval_ir(&parser.insts, ret)
}

#[test]
fn literal_program_text_is_exact() {
    let out = compile("42").expect("a literal compiles");
    let expected = "define i32 @main() local_unnamed_addr #0 {\n\
                    entry:\n\
                    \t%0 = alloca i32, align 4\n\
                    \tstore i32 42, i32* %0, align 4\n\
                    \t%1 = load i32, i32* %0, align 4\n\
                    \tret i32 %1\n\
                    }\n";
    assert_eq!(out, expected);
}

#[test]
fn literal_is_stored_loaded_and_returned() {
    for v in [0, 1, 7, 1000, 2147483647] {
        let text = v.to_string();
        let mut parser = Parser::new(&text).expect("a literal parses");
        let ret = parser.parse().expect("a literal generates");
        assert_eq!(
            parser.insts,
            vec![
                Inst::Alloca { dst: 0 },
                Inst::Store { val: v, dst: 0 },
                Inst::Load { dst: 1, src: 0 },
            ]
        );
        assert_eq!(ret, 1);
        assert_eq!(eval_ir(&parser.insts, ret), v);
    }
}

#[test]
fn addition_program_text_is_exact() {
    let out = compile("1+2").expect("compiles");
    let expected = "define i32 @main() local_unnamed_addr #0 {\n\
                    entry:\n\
                    \t%0 = alloca i32, align 4\n\
                    \tstore i32 1, i32* %0, align 4\n\
                    \t%1 = load i32, i32* %0, align 4\n\
                    \t%2 = alloca i32, align 4\n\
                    \tstore i32 2, i32* %2, align 4\n\
                    \t%3 = load i32, i32* %2, align 4\n\
                    \t%4 = add i32 %1, %3\n\
                    \tret i32 %4\n\
                    }\n";
    assert_eq!(out, expected);
}

#[test]
fn precedence_multiplication_binds_tighter() {
    assert_eq!(eval_source("2+3*4"), 14);
    assert_ne!(eval_source("2+3*4"), 20);
}

#[test]
fn subtraction_is_left_associative() {
    assert_eq!(eval_source("8-3-2"), 3);
    assert_ne!(eval_source("8-3-2"), 7);
}

#[test]
fn parentheses_override_precedence() {
    assert_eq!(eval_source("(2+3)*4"), 20);
}

#[test]
fn division_is_signed_truncating() {
    assert_eq!(eval_source("7/2"), 3);
    assert_eq!(eval_source("8/2/2"), 2);
}

#[test]
fn unary_signs() {
    assert_eq!(eval_source("-5"), -5);
    assert_eq!(eval_source("+5"), 5);
    assert_eq!(eval_source("-(-5)"), 5);
    assert_eq!(eval_source("3--2"), 5);
}

#[test]
fn unary_signs_do_not_nest() {
    let err = compile("- -5").unwrap_err();
    assert!(matches!(err.kind, ErrorType::UnexpectedToken));
    assert_eq!(err.message, "expected a number");
}

#[test]
fn comparison_emits_unsigned_icmp_then_sext() {
    let out = compile("1<2").expect("compiles");
    assert!(out.contains("icmp ult i32"));
    assert!(out.contains("sext i1"));
    let lines: Vec<&str> = out.lines().collect();
    // last three lines: sext, ret, closing brace
    assert!(lines[lines.len() - 3].contains("sext i1"));
    assert!(lines[lines.len() - 4].contains("icmp ult"));
    assert_eq!(eval_source("1<2"), -1);
}

#[test]
fn negative_operand_compares_unsigned() {
    // 0-1 is all-ones; under the emitted unsigned comparison it is not
    // below 0, so the result must not be true.
    assert_eq!(eval_source("0-1<0"), 0);
    assert_eq!(eval_source("0-1>0"), -1);
}

#[test]
fn comparison_operators_evaluate() {
    assert_eq!(eval_source("1==1"), -1);
    assert_eq!(eval_source("1==2"), 0);
    assert_eq!(eval_source("1=!2"), -1);
    assert_eq!(eval_source("2=!2"), 0);
    assert_eq!(eval_source("1<=1"), -1);
    assert_eq!(eval_source("2<=1"), 0);
    assert_eq!(eval_source("2>1"), -1);
    assert_eq!(eval_source("1>=2"), 0);
}

#[test]
fn equal_followed_by_other_token_is_rejected() {
    let err = compile("1=2").unwrap_err();
    assert!(matches!(err.kind, ErrorType::UnexpectedToken));
    assert_eq!(err.message, "unexpected token");
    assert_eq!(err.pos, 1);
}

#[test]
fn incomplete_sum_is_rejected() {
    let err = compile("1+").unwrap_err();
    assert!(matches!(err.kind, ErrorType::UnexpectedToken));
    assert_eq!(err.message, "expected a number");
    assert_eq!(err.pos, 2);
}

#[test]
fn unknown_character_is_rejected_at_its_offset() {
    let err = compile("@").unwrap_err();
    assert!(matches!(err.kind, ErrorType::UnexpectedChar));
    assert_eq!(err.pos, 0);
    assert_eq!(err.message, "unknown expression");

    let err = compile("1+@").unwrap_err();
    assert!(matches!(err.kind, ErrorType::UnexpectedChar));
    assert_eq!(err.pos, 2);
}

#[test]
fn unclosed_parenthesis_is_rejected() {
    let err = compile("(1+2").unwrap_err();
    assert!(matches!(err.kind, ErrorType::UnexpectedToken));
    assert_eq!(err.message, "expected )");
    assert_eq!(err.pos, 4);
}

#[test]
fn empty_input_is_rejected_at_offset_zero() {
    let err = compile("").unwrap_err();
    assert!(matches!(err.kind, ErrorType::UnexpectedToken));
    assert_eq!(err.pos, 0);
}

#[test]
fn trailing_input_is_rejected() {
    let err = compile("1 2").unwrap_err();
    assert!(matches!(err.kind, ErrorType::UnexpectedToken));
    assert_eq!(err.message, "unexpected trailing input");
    assert_eq!(err.pos, 2);

    let err = compile("(1)(2)").unwrap_err();
    assert!(matches!(err.kind, ErrorType::UnexpectedToken));
    assert_eq!(err.pos, 3);
}

#[test]
fn compiling_twice_is_byte_identical() {
    for src in ["2+3*4", "(1<2)==0", "8-3-2", "-(7/2)"] {
        let a = compile(src).expect("compiles");
        let b = compile(src).expect("compiles");
        assert_eq!(a.into_bytes(), b.into_bytes());
    }
}

#[test]
fn spaces_are_skipped_but_offsets_are_kept() {
    assert_eq!(eval_source("  1 +  2 "), 3);
    let err = compile("  @").unwrap_err();
    assert_eq!(err.pos, 2);
}

#[test]
fn registers_increase_and_never_refer_forward() {
    for src in ["2+3*4", "(2+3)*4", "1<2", "0-1<0", "((1+2)*(3+4))/5", "1==2=!0"] {
        let mut parser = Parser::new(src).expect("parses");
        let ret = parser.parse().expect("generates");
        let mut defined: Vec<usize> = Vec::new();
        for inst in &parser.insts {
            let (def, uses): (Option<usize>, Vec<usize>) = match *inst {
                Inst::Alloca { dst } => (Some(dst), vec![]),
                Inst::Store { val: _, dst } => (None, vec![dst]),
                Inst::Load { dst, src } => (Some(dst), vec![src]),
                Inst::Bin { op: _, dst, a, b } => (Some(dst), vec![a, b]),
                Inst::Icmp { cond: _, dst, a, b } => (Some(dst), vec![a, b]),
                Inst::Sext { dst, src } => (Some(dst), vec![src]),
            };
            for u in uses {
                assert!(defined.contains(&u), "forward reference to %{} in {}", u, src);
            }
            if let Some(d) = def {
                if let Some(&last) = defined.last() {
                    assert!(d > last, "register ids not increasing in {}", src);
                }
                defined.push(d);
            }
        }
        assert_eq!(defined.last(), Some(&ret), "ret target is the last defined register");
    }
}

#[test]
fn literals_fit_decides_the_i32_bound() {
    assert!(literals_fit("2147483647"));
    assert!(!literals_fit("2147483648"));
    assert!(!literals_fit("99999999999999999999"));
    assert!(literals_fit("123+456"));
    assert!(!literals_fit("1+2147483648"));
    assert!(literals_fit(""));
    assert!(literals_fit("abc"));
    assert!(literals_fit("0002147483647"));
}

#[test]
fn largest_literal_compiles() {
    assert_eq!(eval_source("2147483647"), 2147483647);
    assert_eq!(eval_source("2147483646+1"), 2147483647);
}
