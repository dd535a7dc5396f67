use stang::error::CompileError;
use stang::hir::{HirExpr, HirObj, HirStmt};
use stang::ops::BinOp;
use stang::parser::{infix_power, parse_file, prefix_power, ParsedProgram, Parser};
use stang::token::Token;

/// Parses an expression followed by `;`: an expression that ends the input has no token after
/// it to end its span in the same file.
fn expr(src: &str) -> HirExpr {
    let text = format!("{src};");
    let mut p = Parser::new("t.st", text.into_bytes());
    p.parse_expr().unwrap().inner
}

#[test]
fn multiplication_binds_tighter_than_addition() {
    match expr("1 + 2 * 3") {
        HirExpr::Bin { op: BinOp::Add, lhs, rhs } => {
            assert!(matches!(lhs.inner, HirExpr::Num(_)));
            assert!(matches!(rhs.inner, HirExpr::Bin { op: BinOp::Mul, .. }));
        }
        other => panic!("unexpected {other:?}"),
    }
}

#[test]
fn subtraction_is_left_associative() {
    match expr("a - b - c") {
        HirExpr::Bin { op: BinOp::Sub, lhs, rhs } => {
            assert!(matches!(lhs.inner, HirExpr::Bin { op: BinOp::Sub, .. }));
            assert!(matches!(rhs.inner, HirExpr::Ident(_)));
        }
        other => panic!("unexpected {other:?}"),
    }
}

#[test]
fn assignment_is_right_associative() {
    match expr("a = b = c") {
        HirExpr::Assign { lhs, rhs } => {
            assert!(matches!(lhs.inner, HirExpr::Ident(_)));
            assert!(matches!(rhs.inner, HirExpr::Assign { .. }));
        }
        other => panic!("unexpected {other:?}"),
    }
}

#[test]
fn calls_index_and_fields_are_postfix() {
    match expr("f(1, 2)[3].x") {
        HirExpr::Field { base, field } => {
            assert_eq!(field.as_str(), "x");
            match base.inner {
                HirExpr::Index { base, .. } => match base.inner {
                    HirExpr::Call { args, .. } => assert_eq!(args.len(), 2),
                    other => panic!("unexpected {other:?}"),
                },
                other => panic!("unexpected {other:?}"),
            }
        }
        other => panic!("unexpected {other:?}"),
    }
}

#[test]
fn prefix_operators_and_casts() {
    assert!(matches!(expr("-x"), HirExpr::Un { .. }));
    assert!(matches!(expr("*p"), HirExpr::Deref { .. }));
    assert!(matches!(expr("&x"), HirExpr::AddrOf { .. }));
    assert!(matches!(expr("@(u8) x"), HirExpr::Cast { .. }));
    assert!(matches!(expr("sizeof @(i32)"), HirExpr::SizeOfTy { .. }));
    assert!(matches!(expr("sizeof(x)"), HirExpr::SizeOfExpr { .. }));
}

#[test]
fn binding_powers() {
    assert_eq!(prefix_power(&Token::Minus), Some(90));
    assert_eq!(prefix_power(&Token::Plus), None);
    assert_eq!(infix_power(&Token::Eq), Some((21, 20)));
    assert_eq!(infix_power(&Token::Plus), Some((70, 71)));
    assert_eq!(infix_power(&Token::LParen), Some((100, 101)));
    assert_eq!(infix_power(&Token::Semi), None);
}

#[test]
fn parses_items_of_each_kind() {
    let src = "struct P { x: i32; y: *u8; }\nglobal g: i32 = 1;\nfn main(a: i32, b: u8,): i32 { return a; }\nfn f() { }";
    let items = parse_file("t.st", src.as_bytes().to_vec()).unwrap();
    assert_eq!(items.len(), 4);
    assert!(matches!(items[0].inner, HirObj::Struct(_)));
    assert!(matches!(items[1].inner, HirObj::Global(_)));
    match &items[2].inner {
        HirObj::Fn(f) => {
            assert_eq!(f.name.inner.as_str(), "main");
            assert_eq!(f.args.len(), 2);
        }
        _ => panic!("expected a function"),
    }
    match &items[3].inner {
        HirObj::Fn(f) => match &*f.return_type.inner {
            stang::raw_type::RawType::Base(n) => assert_eq!(n.as_str(), "void"),
            _ => panic!("expected void"),
        },
        _ => panic!("expected a function"),
    }
    let program = ParsedProgram::from_items(items);
    assert_eq!(program.structs.len(), 1);
    assert_eq!(program.globals.len(), 1);
    assert_eq!(program.functions.len(), 2);
}

#[test]
fn blocks_hold_statements() {
    let mut p = Parser::new("t.st", b"{ x; y = 1; }".to_vec());
    match p.parse_block().unwrap().inner {
        HirStmt::Block(stmts) => assert_eq!(stmts.len(), 2),
        other => panic!("unexpected {other:?}"),
    }
    let mut p = Parser::new("t.st", b"{ {} }".to_vec());
    assert!(matches!(p.parse_block(), Err(CompileError::ExpectedExpression { .. })));
}

#[test]
fn operator_expression_at_end_of_input_has_no_span() {
    let mut p = Parser::new("t.st", b"a + b".to_vec());
    assert!(matches!(p.parse_expr(), Err(CompileError::SpanFileMismatch { .. })));
}

#[test]
fn if_without_else_gets_an_empty_block() {
    let mut p = Parser::new("t.st", b"if c { x; } y".to_vec());
    match p.parse_stmt().unwrap().inner {
        HirStmt::If { else_, .. } => match else_.inner {
            HirStmt::Block(v) => assert!(v.is_empty()),
            other => panic!("unexpected {other:?}"),
        },
        other => panic!("unexpected {other:?}"),
    }
}

#[test]
fn item_errors() {
    assert!(matches!(
        parse_file("t.st", b"let x = 1;".to_vec()),
        Err(CompileError::ExpectedItem { .. })
    ));
    assert!(matches!(
        parse_file("t.st", b"fn f() i32 {}".to_vec()),
        Err(CompileError::ExpectedReturnTypeOrBody { .. })
    ));
    assert!(matches!(
        parse_file("t.st", b"fn f() { x }".to_vec()),
        Err(CompileError::ExpectedToken { .. })
    ));
    assert!(matches!(
        parse_file("t.st", b"fn f() { && }".to_vec()),
        Err(CompileError::ExpectedExpression { .. })
    ));
}

#[test]
fn empty_file_has_no_items() {
    assert_eq!(parse_file("t.st", Vec::new()).unwrap().len(), 0);
}
