use stang::driver::analyze;
use stang::error::CompileError;
use stang::qual_type::QualType;
use stang::tir::{TirExprKind, TirStmt};

fn check(src: &str) -> Result<usize, CompileError> {
    analyze("t.st", src.as_bytes().to_vec()).map(|(_, fs)| fs.len())
}

#[test]
fn accepts_a_well_typed_program() {
    let src = "struct P { x: i32; }\n\
               fn add(a: i32, b: i32): i32 { return a + b; }\n\
               fn main(): i32 {\n\
                 let x: i32 = 1;\n\
                 let p: *i32 = &x;\n\
                 *p = add(x, 2);\n\
                 while x < 10 { x = x + 1; if x == 5 { break; } else { continue; } }\n\
                 return x;\n\
               }";
    assert_eq!(check(src).unwrap(), 2);
}

#[test]
fn functions_may_call_functions_defined_later() {
    assert_eq!(check("fn a(): i32 { return b(); } fn b(): i32 { return 1; }").unwrap(), 2);
}

#[test]
fn locals_and_parameters_are_recorded() {
    let (_, fs) = analyze("t.st", b"fn f(a: i32) { let x: u8 = 3; let y: bool = true; }".to_vec()).unwrap();
    let f = &fs[0];
    assert_eq!(f.local_symbols.len(), 3);
    assert_eq!(f.local_symbols[0].0.as_str(), "a");
    assert_eq!(f.local_symbols[1].0.as_str(), "x");
    assert!(matches!(*f.return_type, QualType::Void));
}

#[test]
fn literal_takes_the_declared_type() {
    let (_, fs) = analyze("t.st", b"fn f() { let x: u8 = 255; }".to_vec()).unwrap();
    match fs[0].body.as_ref().unwrap() {
        TirStmt::Block(stmts) => match &stmts[0] {
            TirStmt::Expr(e) => match &e.kind {
                TirExprKind::Store { val, .. } => {
                    assert!(matches!(*val.ty, QualType::U8));
                    assert!(matches!(val.kind, TirExprKind::Num(255)));
                }
                _ => panic!("expected a store"),
            },
            _ => panic!("expected an expression"),
        },
        _ => panic!("expected a block"),
    }
}

#[test]
fn out_of_range_literal_is_rejected() {
    assert!(matches!(check("fn f() { let x: u8 = 256; }"), Err(CompileError::BadLiteral { .. })));
    assert!(matches!(check("fn f() { let x: i8 = -129; }"), Err(CompileError::BadLiteral { .. })));
    assert!(matches!(check("fn f() { let x: i8 = -128; }"), Err(CompileError::BadLiteral { .. })));
    assert!(check("fn f() { let x: i8 = 127; }").is_ok());
}

#[test]
fn undefined_variable_is_rejected() {
    assert!(matches!(check("fn f() { y; }"), Err(CompileError::UndefinedVariable { .. })));
}

#[test]
fn mismatched_declaration_is_rejected() {
    assert!(matches!(check("fn f() { let x: bool = 1 < 2; let y: i32 = x; }"), Err(CompileError::TypeMismatch { .. })));
}

#[test]
fn break_outside_loop_is_rejected() {
    assert!(matches!(check("fn f() { break; }"), Err(CompileError::NotInLoop { .. })));
    assert!(matches!(check("fn f() { continue; }"), Err(CompileError::NotInLoop { .. })));
    assert!(check("fn f() { while true { break; } }").is_ok());
}

#[test]
fn return_type_is_checked() {
    assert!(matches!(check("fn f(): i32 { return true; }"), Err(CompileError::ReturnTypeMismatch { .. })));
    assert!(matches!(check("fn f(): i32 { return; }"), Err(CompileError::ReturnTypeMismatch { .. })));
    assert!(check("fn f() { return; }").is_ok());
}

#[test]
fn condition_must_be_bool() {
    assert!(matches!(check("fn f() { if 1 { } }"), Err(CompileError::TypeMismatch { .. })));
}

#[test]
fn operators_need_matching_operands() {
    assert!(matches!(check("fn f() { true + false; }"), Err(CompileError::UnsupportedOperation { .. })));
    assert!(matches!(check("fn f() { !1; }"), Err(CompileError::BadUnaryOperand { .. })));
    assert!(matches!(check("fn f(x: u32) { -x; }"), Err(CompileError::BadUnaryOperand { .. })));
}

#[test]
fn pointer_arithmetic_keeps_the_pointer_type() {
    let (_, fs) = analyze("t.st", b"fn f(p: *i32) { let i: i32 = 1; p + i; }".to_vec()).unwrap();
    match fs[0].body.as_ref().unwrap() {
        TirStmt::Block(stmts) => match &stmts[1] {
            TirStmt::Expr(e) => {
                assert!(matches!(*e.ty, QualType::Pointer(_)));
                assert!(matches!(e.kind, TirExprKind::Bin { op: stang::ops::BinOp::PtrAdd, .. }));
            }
            _ => panic!("expected an expression"),
        },
        _ => panic!("expected a block"),
    }
}

#[test]
fn a_pointer_literal_must_be_zero() {
    assert!(matches!(check("fn f(p: *i32) { p + 1; }"), Err(CompileError::BadLiteral { .. })));
    assert!(check("fn f(p: *i32) { p = 0; }").is_ok());
}

#[test]
fn calls_check_their_arguments() {
    assert!(matches!(
        check("fn g(a: i32) { } fn f() { g(true); }"),
        Err(CompileError::ArgumentMismatch { .. })
    ));
    assert!(matches!(check("fn f(x: i32) { x(); }"), Err(CompileError::NotCallable { .. })));
}

#[test]
fn unknown_types_are_rejected() {
    assert!(matches!(check("fn f(x: Foo) { }"), Err(CompileError::UnknownType { .. })));
    assert!(matches!(check("struct S { a: Nope; }"), Err(CompileError::UnknownType { .. })));
}

#[test]
fn declaration_needs_a_value() {
    assert!(matches!(check("fn f() { let x; }"), Err(CompileError::ExpectedToken { .. })));
}

#[test]
fn assignment_needs_a_location() {
    assert!(matches!(check("fn f() { 1 = 2; }"), Err(CompileError::InvalidLvalue { .. })));
}

#[test]
fn sizeof_is_a_u64_count_of_bytes() {
    let (_, fs) = analyze("t.st", b"fn f() { sizeof @(i16); }".to_vec()).unwrap();
    match fs[0].body.as_ref().unwrap() {
        TirStmt::Block(stmts) => match &stmts[0] {
            TirStmt::Expr(e) => {
                assert!(matches!(*e.ty, QualType::U64));
                assert!(matches!(e.kind, TirExprKind::Num(2)));
            }
            _ => panic!("expected an expression"),
        },
        _ => panic!("expected a block"),
    }
}

#[test]
fn parse_errors_come_first() {
    assert!(matches!(check("fn"), Err(CompileError::ExpectedIdent { .. })));
}

#[test]
fn block_declarations_do_not_outlive_the_block() {
    assert!(matches!(
        check("fn f() { if true { let x: i32 = 1; } else { } x; }"),
        Err(CompileError::UndefinedVariable { .. })
    ));
    assert!(check("fn f() { let x: i32 = 1; if true { x; } else { x; } x; }").is_ok());
}

#[test]
fn inner_declarations_shadow_outer_ones() {
    assert!(check("fn f() { let x: i32 = 1; if true { let x: bool = true; let y: bool = x; } else { } let z: i32 = x; }").is_ok());
}

#[test]
fn untyped_literal_is_i32() {
    let (_, fs) = analyze("t.st", b"fn f() { let x = 5; }".to_vec()).unwrap();
    match fs[0].body.as_ref().unwrap() {
        TirStmt::Block(stmts) => match &stmts[0] {
            TirStmt::Expr(e) => assert!(matches!(*e.ty, QualType::I32)),
            _ => panic!("expected an expression"),
        },
        _ => panic!("expected a block"),
    }
}

#[test]
fn symbols_are_numbered_in_order() {
    let (ctx, fs) = analyze("t.st", b"fn a() { } fn b(x: i32) { let y: i32 = x; }".to_vec()).unwrap();
    assert_eq!(fs[0].symbol.1, 0);
    assert_eq!(fs[1].symbol.1, 1);
    assert_eq!(fs[1].local_symbols[0].1, 2);
    assert_eq!(fs[1].local_symbols[1].1, 3);
    assert_eq!(ctx.state.symbol_counter, 4);
    assert_eq!(ctx.module.symbols.len(), 4);
}

#[test]
fn structs_may_name_structs_declared_later() {
    assert_eq!(check("struct A { b: B; p: *B; }\nstruct B { x: i32; }\nfn f() { }").unwrap(), 1);
    assert!(matches!(check("struct A { b: B; }\nstruct B { a: A; }"), Err(CompileError::UnknownType { .. })));
}

#[test]
fn globals_are_registered_at_the_top_level() {
    let (ctx, fs) = analyze("t.st", b"global g: i32 = 1;\nfn f(): i32 { return g; }".to_vec()).unwrap();
    assert_eq!(fs.len(), 1);
    let g = ctx.resolve_ident(&std::rc::Rc::new("g".to_string())).unwrap();
    let info = ctx.lookup_symbol(&g);
    assert!(matches!(info.kind, stang::translation_unit::SymbolKind::Global));
    assert!(matches!(*info.ty, QualType::I32));
    assert!(matches!(check("global g: Nope = 1;"), Err(CompileError::UnknownType { .. })));
}

#[test]
fn bindings_inside_a_block_do_not_escape_it() {
    let src = "fn f() { let x: i32 = 1; if true { let x: bool = true; } else { } let y: i32 = x; }";
    let (_, fs) = analyze("t.st", src.as_bytes().to_vec()).unwrap();
    let syms = &fs[0].local_symbols;
    assert_eq!(syms.len(), 3);
    assert_eq!(syms[0].0.as_str(), "x");
    assert_eq!(syms[1].0.as_str(), "x");
    assert_ne!(syms[0].1, syms[1].1);
    assert!(matches!(check("fn f() { if true { let z: i32 = 1; } else { } let y: i32 = z; }"), Err(CompileError::UndefinedVariable { .. })));
}
