//! Unit tests of the lexer, the tree builder and the diagnostics.

use qcc::error::{ErrorType, QccError};
use qcc::lexer::{Lexer, Token, TokenKind};
use qcc::parser::Parser;
use qcc::token_tree::{get_token_list, kind_convert, TokenTree, TreeKind};

fn next_ok(lexer: &mut Lexer) -> Token {
    lexer.next_token().expect("token expected")
}

#[test]
fn lexer_walks_tokens_with_offsets() {
    let mut lexer = Lexer::new("1 + (23)");
    let t = next_ok(&mut lexer);
    assert_eq!(t.kind, TokenKind::Number(1));
    assert_eq!(t.pos, 0);
    let t = next_ok(&mut lexer);
    assert_eq!(t.kind, TokenKind::Plus);
    assert_eq!(t.pos, 2);
    let t = next_ok(&mut lexer);
    assert_eq!(t.kind, TokenKind::LParen);
    assert_eq!(t.pos, 4);
    let t = next_ok(&mut lexer);
    assert_eq!(t.kind, TokenKind::Number(23));
    assert_eq!(t.pos, 5);
    let t = next_ok(&mut lexer);
    assert_eq!(t.kind, TokenKind::RParen);
    assert_eq!(t.pos, 7);
    let t = next_ok(&mut lexer);
    assert_eq!(t.kind, TokenKind::End);
    assert_eq!(t.pos, 8);
    // past the end the lexer keeps yielding End
    let t = next_ok(&mut lexer);
    assert_eq!(t.kind, TokenKind::End);
    assert_eq!(t.pos, 8);
}

#[test]
fn lexer_classifies_every_operator() {
    let mut lexer = Lexer::new("+-*/()=!<>");
    let expected = [
        TokenKind::Plus,
        TokenKind::Minus,
        TokenKind::Multiply,
        TokenKind::Devide,
        TokenKind::LParen,
        TokenKind::RParen,
        TokenKind::Equal,
        TokenKind::Not,
        TokenKind::Less,
        TokenKind::Greater,
    ];
    for (i, kind) in expected.iter().enumerate() {
        let t = next_ok(&mut lexer);
        assert_eq!(t.kind, *kind);
        assert_eq!(t.pos, i);
    }
    assert_eq!(next_ok(&mut lexer).kind, TokenKind::End);
}

#[test]
fn lexer_rejects_unknown_bytes() {
    let mut lexer = Lexer::new("  #");
    let err = lexer.next_token().unwrap_err();
    assert!(matches!(err.kind, ErrorType::UnexpectedChar));
    assert_eq!(err.pos, 2);
    assert_eq!(err.message, "unknown expression");
}

#[test]
fn token_list_ends_in_exactly_one_end() {
    let list = get_token_list("1+2").expect("lexes");
    assert_eq!(list.len(), 4);
    assert_eq!(list[3].kind, TokenKind::End);
    assert!(list[..3].iter().all(|t| t.kind != TokenKind::End));
}

#[test]
fn kind_convert_maps_operand_and_operator_tokens() {
    let ok_cases = [
        (TokenKind::Number(9), TreeKind::Number(9)),
        (TokenKind::Plus, TreeKind::Plus),
        (TokenKind::Minus, TreeKind::Minus),
        (TokenKind::Multiply, TreeKind::Multiply),
        (TokenKind::Devide, TreeKind::Devide),
        (TokenKind::Less, TreeKind::Less),
        (TokenKind::Greater, TreeKind::Greater),
    ];
    for (kind, tree_kind) in ok_cases {
        let got = kind_convert(&Token { kind, pos: 5 }).expect("converts");
        assert_eq!(got, tree_kind);
    }
    for kind in [TokenKind::LParen, TokenKind::RParen, TokenKind::Equal, TokenKind::Not, TokenKind::End] {
        let err = kind_convert(&Token { kind, pos: 5 }).unwrap_err();
        assert!(matches!(err.kind, ErrorType::UnexpectedToken));
        assert_eq!(err.pos, 5);
        assert_eq!(err.message, "unexpected token");
    }
}

#[test]
fn tree_respects_precedence() {
    let tree = TokenTree::new("1+2*3").expect("parses");
    assert_eq!(tree.kind, TreeKind::Plus);
    assert_eq!(tree.pos, 1);
    let lhs = tree.lhs.as_ref().expect("left operand");
    assert_eq!(lhs.kind, TreeKind::Number(1));
    let rhs = tree.rhs.as_ref().expect("right operand");
    assert_eq!(rhs.kind, TreeKind::Multiply);
    assert_eq!(rhs.pos, 3);
    assert_eq!(rhs.lhs.as_ref().expect("left factor").kind, TreeKind::Number(2));
    assert_eq!(rhs.rhs.as_ref().expect("right factor").kind, TreeKind::Number(3));
}

#[test]
fn tree_folds_same_level_operators_to_the_left() {
    let tree = TokenTree::new("8-3-2").expect("parses");
    assert_eq!(tree.kind, TreeKind::Minus);
    assert_eq!(tree.pos, 3);
    let lhs = tree.lhs.as_ref().expect("left operand");
    assert_eq!(lhs.kind, TreeKind::Minus);
    assert_eq!(lhs.pos, 1);
    assert_eq!(tree.rhs.as_ref().expect("right operand").kind, TreeKind::Number(2));
}

#[test]
fn leading_minus_becomes_zero_minus_primary() {
    let tree = TokenTree::new("-5").expect("parses");
    assert_eq!(tree.kind, TreeKind::Minus);
    assert_eq!(tree.pos, 0);
    let zero = tree.lhs.as_ref().expect("implicit zero");
    assert_eq!(zero.kind, TreeKind::Number(0));
    assert_eq!(zero.pos, 0);
    assert_eq!(tree.rhs.as_ref().expect("operand").kind, TreeKind::Number(5));
}

#[test]
fn relational_tokens_pair_with_equal_sign() {
    let tree = TokenTree::new("1<=2").expect("parses");
    assert_eq!(tree.kind, TreeKind::LessEqual);
    let tree = TokenTree::new("1>=2").expect("parses");
    assert_eq!(tree.kind, TreeKind::GreaterEqual);
    let tree = TokenTree::new("1=!2").expect("parses");
    assert_eq!(tree.kind, TreeKind::NotEqual);
    let tree = TokenTree::new("1==2").expect("parses");
    assert_eq!(tree.kind, TreeKind::Equal);
}

#[test]
fn parser_starts_with_no_instructions() {
    let parser = Parser::new("1+1").expect("parses");
    assert_eq!(parser.num, 0);
    assert!(parser.insts.is_empty());
}

#[test]
fn division_by_zero_is_deferred_to_the_emitted_ir() {
    let out = qcc::compile("1/0").expect("division by zero still compiles");
    assert!(out.contains("sdiv i32"));
}

#[test]
fn negative_stored_values_render_with_a_sign() {
    // Only a hand-built tree can hold a negative leaf; the lexer never
    // produces one. The renderer must still print it exactly.
    for v in [-7, -2147483648] {
        let mut parser = Parser {
            tokens: TokenTree { kind: TreeKind::Number(v), pos: 0, lhs: None, rhs: None },
            num: 0,
            insts: Vec::new(),
        };
        let ret = parser.parse().expect("a leaf generates");
        let text = qcc::ir::render_program(&parser.insts, ret);
        assert!(text.contains(&format!("store i32 {}, i32* %0", v)));
    }
}

#[test]
fn operator_node_without_children_is_rejected_in_codegen() {
    let mut parser = Parser {
        tokens: TokenTree { kind: TreeKind::Plus, pos: 9, lhs: None, rhs: None },
        num: 0,
        insts: Vec::new(),
    };
    let err = parser.parse().unwrap_err();
    assert!(matches!(err.kind, ErrorType::UnexpectedToken));
    assert_eq!(err.pos, 9);
    assert_eq!(err.message, "unexpected token");
}

#[test]
fn compile_error_renders_as_caret_diagnostic() {
    let err = qcc::compile("  @").unwrap_err();
    assert_eq!(err.render(), "  ^\nunknown expression");
}

#[test]
fn caret_diagnostic_points_at_the_offset() {
    let err = QccError {
        kind: ErrorType::UnexpectedChar,
        pos: 3,
        message: "unknown expression".to_string(),
    };
    assert_eq!(err.render(), "   ^\nunknown expression");
    let err = QccError { kind: ErrorType::UnexpectedToken, pos: 0, message: "expected )".to_string() };
    assert_eq!(err.render(), "^\nexpected )");
}
