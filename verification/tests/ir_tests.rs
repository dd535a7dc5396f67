use stang::basicblock::{BasicBlock, InstructionTrait, RewriteAction};
use stang::function::FunctionBuilder;
use stang::driver::{init_state, new_context};
use stang::interner::Pool;
use stang::ir_types::IRType;
use stang::label::Label;
use stang::module::ModuleBuilder;
use stang::qual_type::QualType;
use stang::registry::Registry;
use stang::translation_unit::{next_symbol, qualify_raw_type, GlobalState};
use stang::raw_type::RawType;
use stang::types::Type;
use std::rc::Rc;

#[derive(Debug, Clone, PartialEq)]
enum Ins {
    Add(u32),
    Ret,
}

impl InstructionTrait for Ins {
    type Val = u32;
    fn is_terminator_v(&self) -> bool {
        matches!(self, Ins::Ret)
    }
    fn is_terminator(&self) -> bool {
        matches!(self, Ins::Ret)
    }
    fn copy_instr(&self) -> Ins {
        self.clone()
    }
    fn defs_v(&self) -> Vec<u32> {
        self.defs()
    }
    fn uses_v(&self) -> Vec<u32> {
        self.uses()
    }
    fn defs(&self) -> Vec<u32> {
        match self {
            Ins::Add(v) => vec![*v],
            Ins::Ret => vec![],
        }
    }
    fn uses(&self) -> Vec<u32> {
        match self {
            Ins::Add(v) => vec![*v, *v],
            Ins::Ret => vec![],
        }
    }
}

#[test]
fn basic_block_terminators() {
    let mut b: BasicBlock<Ins> = BasicBlock::new(Label::new("entry", 0));
    assert!(b.terminator().is_none());
    b.instructions.push(Ins::Add(1));
    assert!(b.terminator().is_none());
    assert!(b.delete_terminator().is_none());
    b.instructions.push(Ins::Ret);
    assert_eq!(b.terminator(), Some(&Ins::Ret));
    assert_eq!(b.delete_terminator(), Some(Ins::Ret));
    assert_eq!(b.instructions, vec![Ins::Add(1)]);
    assert_eq!(b.live_in.size(), 0);
    assert_eq!(Ins::Add(7).values(), vec![7, 7, 7]);
}

#[test]
fn basic_block_rewrite() {
    let mut b: BasicBlock<Ins> = BasicBlock::new(Label::new("", 3));
    b.instructions = vec![Ins::Add(1), Ins::Add(2), Ins::Add(3), Ins::Add(4), Ins::Ret];
    b.rewrite(|i| match i {
        Ins::Add(1) => RewriteAction::Skip,
        Ins::Add(2) => RewriteAction::Replace(vec![Ins::Add(20), Ins::Add(21)]),
        Ins::Add(3) => RewriteAction::InsertBefore(vec![Ins::Add(30)]),
        Ins::Add(4) => RewriteAction::InsertAfter(vec![Ins::Add(40)]),
        _ => RewriteAction::Keep,
    });
    assert_eq!(
        b.instructions,
        vec![Ins::Add(20), Ins::Add(21), Ins::Add(30), Ins::Add(3), Ins::Add(4), Ins::Add(40), Ins::Ret]
    );
    assert_eq!(b.label.name(), "");
}

#[test]
fn labels_compare_by_name_and_number() {
    let a: Label<Ins> = Label::new("loop", 1);
    let b: Label<Ins> = Label::new("loop", 1);
    let c: Label<Ins> = Label::new("loop", 2);
    assert!(a == b);
    assert!(a != c);
    assert_eq!(a.name(), "loop");
    assert_eq!(a.partial_cmp(&b), Some(std::cmp::Ordering::Equal));
    assert!(a < c);
    let d: Label<Ins> = Label::new("a", 9);
    assert!(d < a);
    assert!(c > d);
    let e: Label<Ins> = Label::new("", 5);
    assert!(e < Label::new("a", 0));
    assert!(Label::<Ins>::new("lo", 3) < a);
}

#[test]
fn module_symbols() {
    let mut m = ModuleBuilder::new();
    let s = m.add_symbol("main".to_string());
    assert_eq!(s.0, "main");
    assert_eq!(m.symbols.len(), 1);
}

#[test]
fn qualified_type_queries() {
    assert!(QualType::U16.is_integral());
    assert!(!QualType::Bool.is_integral());
    assert!(QualType::Bool.is_primitive());
    assert!(QualType::I64.is_signed());
    assert_eq!(QualType::Bool.bytes(), 1);
    assert_eq!(QualType::I32.bits(), 32);
    assert_eq!(QualType::Void.toIRType(), IRType::I32);
    let mut pool: Pool<QualType> = Pool::new();
    let p = QualType::I8.create_pointer(&mut pool);
    assert!(p.is_pointer());
    assert!(matches!(*p.get_pointee().unwrap(), QualType::I8));
    assert!(QualType::I8.get_pointee().is_none());
    assert_eq!(p.bytes(), 8);
}

#[test]
fn registered_types() {
    let mut reg: Registry<Type> = Registry::new();
    let f = reg.add(Type::Function { arg_types: vec![], return_type: stang::registry::Id::new(0) });
    let i = reg.add(Type::I32);
    assert_eq!(Type::Pointer(i).get_pointee(&mut reg).map(|x| x.index()), Some(i.index()));
    let fp = Type::Pointer(f);
    let own = fp.get_pointee(&mut reg).unwrap();
    assert!(matches!(reg.lookup(own), Type::Pointer(_)));
    assert!(Type::I8.get_pointee(&mut reg).is_none());
    assert_eq!(Type::U16.bytes(), 2);
    assert_eq!(Type::Bool.bits(), 1);
    assert!(Type::Base { name: "s", fields: vec![] }.is_pointer());
    assert_eq!(Type::Pointer(i).toIRType(), IRType::Ptr);
}

#[test]
fn builtin_types_and_symbols() {
    let mut st = GlobalState::new();
    init_state(&mut st);
    assert_eq!(st.type_names.len(), 10);
    let raw = RawType::Pointer(Rc::new(RawType::Base(Rc::new("u8".to_string()))));
    let q = qualify_raw_type(&mut st, &raw).unwrap();
    assert!(matches!(&*q, QualType::Pointer(inner) if matches!(**inner, QualType::U8)));
    assert!(qualify_raw_type(&mut st, &RawType::Base(Rc::new("nope".to_string()))).is_none());
    let a = next_symbol(&mut st, "x");
    let b = next_symbol(&mut st, "x");
    assert_eq!((a.1, b.1), (0, 1));
    assert_eq!(st.symbol_counter, 2);
    let ctx = new_context();
    assert_eq!(ctx.scopes.depth(), 1);
}

#[test]
fn function_builder_edges() {
    let mut f: FunctionBuilder<Ins, u32, u8> = FunctionBuilder::new("f".to_string(), 7);
    assert_eq!(*f.getReturnType(), 7);
    let entry = f.getEntryPoint();
    assert_eq!(entry.name(), "entrypoint");
    assert_eq!(entry.1, 0);
    assert!(f.getInsertPoint() == entry);
    let a = f.newBlock();
    let b = f.newNamedBlock("exit");
    assert_eq!(a.1, 1);
    assert_eq!(b.1, 2);
    assert_eq!(b.name(), "exit");
    f.addFallthrough(a);
    assert!(f.block(entry).fallthrough == Some(a));
    assert!(f.block(entry).successors == vec![a]);
    assert!(f.block(a).predecessors == vec![entry]);
    f.addSuccessorsTo(a, &[b, b]);
    assert!(f.block(a).successors == vec![b]);
    assert!(f.block(b).predecessors == vec![a]);
    f.addPredecessorsTo(b, &[b]);
    assert!(f.block(b).predecessors == vec![a, b]);
    assert!(f.block(b).successors == vec![b]);
    assert!(f.removeFallthrough() == Some(a));
    assert!(f.block(entry).fallthrough.is_none());
    assert!(f.block(entry).successors == vec![a]);
    assert!(f.removeFallthroughFrom(a).is_none());
    f.setInsertPoint(b);
    f.addSuccessors(&[entry]);
    assert!(f.block(b).successors == vec![entry, b]);
    assert!(f.setEntryPoint(a) == entry);
    assert!(f.getEntryPoint() == a);
    assert!(f.setEntryPoint(entry) == a);
    assert!(f.getEntryPoint() == entry);
    f.addArg(3, 4);
    f.setRegCount(9);
    assert_eq!(f.getRegCount(), 9);
}

#[test]
fn function_builder_emit_stops_at_terminator() {
    let mut f: FunctionBuilder<Ins, u32, u8> = FunctionBuilder::new("g".to_string(), 0);
    let entry = f.getEntryPoint();
    assert!(!f.isCurrentTerminated());
    f.emit(Ins::Add(1));
    assert!(!f.isTerminated(entry));
    f.emit(Ins::Ret);
    assert!(f.isCurrentTerminated());
    f.emit(Ins::Add(2));
    assert_eq!(f.block(entry).instructions, vec![Ins::Add(1), Ins::Ret]);
}

#[test]
fn function_builder_verify() {
    let mut f: FunctionBuilder<Ins, u32, u8> = FunctionBuilder::new("h".to_string(), 0);
    let entry = f.getEntryPoint();
    let body = f.newBlock();
    let unreachable = f.newBlock();
    f.addFallthrough(body);
    f.emit(Ins::Add(1));
    // Neither the entry nor its fallthrough ends with a terminator.
    assert!(!f.verify(None));
    assert_eq!(f.block(entry).instructions, vec![Ins::Add(1)]);
    assert!(f.verify(Some(Ins::Ret)));
    assert_eq!(f.block(entry).instructions, vec![Ins::Add(1), Ins::Ret]);
    assert_eq!(f.block(body).instructions, vec![Ins::Ret]);
    // A block that nothing reaches is left alone.
    assert!(f.block(unreachable).instructions.is_empty());
    assert!(f.verify(None));
    // A terminated block gets nothing more.
    assert!(f.verify(Some(Ins::Ret)));
    assert_eq!(f.block(body).instructions, vec![Ins::Ret]);
}
