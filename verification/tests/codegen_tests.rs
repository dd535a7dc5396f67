use stang::codegen::codegen_function;
use stang::driver::analyze;
use stang::error::CompileError;
use stang::label::Label;
use stang::stir::IRInstr;

fn lower(src: &str) -> Vec<Result<stang::function::FunctionBuilder<IRInstr, stang::ir_types::IRValue, stang::ir_types::IRType>, CompileError>> {
    let (ctx, fs) = analyze("t.st", src.as_bytes().to_vec()).unwrap();
    fs.iter().map(|tf| codegen_function(tf, &ctx)).collect()
}

fn text(i: &IRInstr) -> String {
    format!("{i:?}")
}

#[test]
fn codegen_stores_arguments_and_returns() {
    let fs = lower("fn f(a: i32): i32 { return a + 1; }");
    let f = fs[0].as_ref().unwrap();
    let entry = f.getEntryPoint();
    let ins: Vec<String> = f.block(entry).instructions.iter().map(text).collect();
    assert_eq!(
        ins,
        vec![
            "Alloca(I32, Ptr(1, Ptr))",
            "Store(I32, Ptr(1, Ptr), Reg(0, I32))",
            "Load(I32, Ptr(1, Ptr), Reg(2, I32))",
            "Add(I32, Reg(3, I32), Reg(2, I32), Imm(1, I32))",
            "Ret(I32, Reg(3, I32))",
        ]
    );
}

#[test]
fn codegen_lowers_loops_into_blocks() {
    let fs = lower("fn f() { let x: i32 = 0; while x < 3 { x = x + 1; } }");
    let f = fs[0].as_ref().unwrap();
    let entry = f.getEntryPoint();
    let cond: Label<IRInstr> = Label::new("loopcond", 1);
    let body: Label<IRInstr> = Label::new("loopbody", 2);
    let end: Label<IRInstr> = Label::new("loopend", 3);
    assert!(matches!(f.block(entry).instructions.last(), Some(IRInstr::Jmp(l)) if *l == cond));
    assert!(matches!(f.block(cond).instructions.last(), Some(IRInstr::Br(_, a, b)) if *a == body && *b == end));
    assert!(matches!(f.block(body).instructions.last(), Some(IRInstr::Jmp(l)) if *l == cond));
    // The function returns nothing, so the end block gets `Retv`.
    assert!(matches!(f.block(end).instructions.last(), Some(IRInstr::Retv)));
    assert!(f.block(cond).predecessors == vec![entry, body]);
    assert!(f.block(cond).successors == vec![body, end]);
}

#[test]
fn codegen_joins_branches() {
    let fs = lower("fn f(a: bool): i32 { if a { return 1; } else { } return 2; }");
    let f = fs[0].as_ref().unwrap();
    let then_: Label<IRInstr> = Label::new("then", 1);
    let else_: Label<IRInstr> = Label::new("else", 2);
    let endif: Label<IRInstr> = Label::new("endif", 3);
    // The then branch returns, so only the else branch jumps to the join block.
    assert!(matches!(f.block(then_).instructions.last(), Some(IRInstr::Ret(..))));
    assert!(matches!(f.block(else_).instructions.last(), Some(IRInstr::Jmp(l)) if *l == endif));
    assert!(f.block(endif).predecessors == vec![else_]);
}

#[test]
fn codegen_refuses_a_missing_return() {
    let fs = lower("fn f(a: bool): i32 { if a { return 1; } else { } }");
    assert!(matches!(fs[0], Err(CompileError::MissingReturn { .. })));
}

#[test]
fn codegen_calls_by_module_symbol() {
    let fs = lower("fn g(x: i32): i32 { return x; } fn f(): i32 { return g(2); }");
    let f = fs[1].as_ref().unwrap();
    let entry = f.getEntryPoint();
    let call = f.block(entry).instructions.iter().find(|i| matches!(i, IRInstr::Call(..))).unwrap();
    match call {
        IRInstr::Call(_, _, callee, args) => {
            assert!(matches!(callee, stang::ir_types::IRValue::Sym(s) if s.0 == "g"));
            assert_eq!(args.len(), 1);
        }
        _ => unreachable!(),
    }
}

#[test]
fn module_keeps_functions_by_symbol() {
    let (mut ctx, fs) = analyze("t.st", b"fn g(): i32 { return 1; } fn f(): i32 { return g(); }".to_vec()).unwrap();
    for tf in fs.iter() {
        let ir = codegen_function(tf, &ctx).unwrap();
        assert!(ctx.module.symbol_of(ir.getName()).is_some());
        ctx.module.add_function(ir);
    }
    let again = codegen_function(&fs[0], &ctx).unwrap();
    ctx.module.add_function(again);
    let names: Vec<&str> = ctx.module.functions().iter().map(|(s, _)| s.0).collect();
    assert_eq!(names, vec!["f", "g"]);
}
