use stang::config::{default_output_for, validate_config, Action, Args, ConfigError, Target};
use stang::env::Scopes;
use stang::interner::Pool;
use stang::literal::parse_int;
use stang::registry::Registry;
use stang::span::{Span, Spanned};
use stang::text::{decimal, repeat_str};
use std::rc::Rc;

fn s(x: &str) -> Rc<String> {
    Rc::new(x.to_string())
}

fn args(input: &str) -> Args {
    Args {
        target: None,
        input: input.to_string(),
        output: None,
        verbose: false,
        emit_ir: false,
        emit_asm: false,
        compile_only: false,
        no_regalloc: false,
    }
}

#[test]
fn pool_hands_out_one_copy() {
    let mut p: Pool<String> = Pool::new();
    let a = p.get(&"x".to_string());
    let b = p.get(&"x".to_string());
    let c = p.get(&"y".to_string());
    assert!(Rc::ptr_eq(&a, &b));
    assert_eq!(c.as_str(), "y");
    assert_eq!(p.len(), 2);
}

#[test]
fn registry_gives_one_id_per_value() {
    let mut r: Registry<String> = Registry::new();
    let a = r.add("a".to_string());
    let b = r.add("b".to_string());
    let a2 = r.add("a".to_string());
    assert_eq!(a.index(), a2.index());
    assert_ne!(a.index(), b.index());
    assert_eq!(r.lookup(b), "b");
    assert_eq!(r.get(&"b".to_string()).map(|i| i.index()), Some(b.index()));
    assert!(r.get(&"c".to_string()).is_none());
    assert_eq!(r.len(), 2);
}

#[test]
fn scopes_shadow_and_restore() {
    let mut sc: Scopes<Rc<String>, Rc<String>> = Scopes::new();
    assert!(sc.insert(s("x"), s("outer")).is_none());
    sc.push_scope();
    assert!(sc.insert(s("x"), s("inner")).is_none());
    assert_eq!(sc.get(&s("x")).unwrap().as_str(), "inner");
    assert_eq!(sc.insert(s("x"), s("again")).unwrap().as_str(), "inner");
    sc.pop_scope();
    assert_eq!(sc.get(&s("x")).unwrap().as_str(), "outer");
    sc.pop_scope();
    assert_eq!(sc.depth(), 1);
    assert!(sc.get(&s("y")).is_none());
}

#[test]
fn filled_scopes() {
    let mut sc: Scopes<Rc<String>, Rc<String>> = Scopes::with_base(vec![(s("a"), s("1"))]);
    sc.push_filled_scope(vec![(s("b"), s("2"))]);
    assert_eq!(sc.get(&s("a")).unwrap().as_str(), "1");
    assert_eq!(sc.get(&s("b")).unwrap().as_str(), "2");
    assert_eq!(sc.depth(), 2);
}

#[test]
fn integer_literals_follow_str_parse() {
    assert_eq!(parse_int("127", -128, 127), Some(127));
    assert_eq!(parse_int("128", -128, 127), None);
    assert_eq!(parse_int("-128", -128, 127), Some(-128));
    assert_eq!(parse_int("+5", 0, 255), Some(5));
    assert_eq!(parse_int("-1", 0, 255), None);
    assert_eq!(parse_int("", 0, 255), None);
    assert_eq!(parse_int("-", -128, 127), None);
    assert_eq!(parse_int("1a", 0, 255), None);
    assert_eq!(parse_int("007", 0, 255), Some(7));
    assert_eq!(parse_int("18446744073709551615", 0, 0xffff_ffff_ffff_ffff), Some(0xffff_ffff_ffff_ffff));
    assert_eq!(parse_int("18446744073709551616", 0, 0xffff_ffff_ffff_ffff), None);
}

#[test]
fn span_merge_and_content() {
    let a = Span::new("f.st", 4, 6, 1, 0);
    let b = Span::new("f.st", 2, 3, 0, 2);
    let m = a.merge(b);
    assert_eq!((m.lo, m.hi, m.row, m.col), (2, 6, 0, 2));
    let src = b"ab\ncdef\ngh".to_vec();
    let sp = Span::new("f.st", 4, 6, 1, 1);
    assert_eq!(sp.content(&src), "\n\nf.st:2:1:\ncdef\n ^^\n");
    let long = Span::new("f.st", 4, 9, 1, 1);
    assert_eq!(long.content(&src), "\n\nf.st:2:1:\ncdef\n ^^^...\n");
    let x = Spanned::new((), Span::new("f.st", 3, 7, 1, 0));
    assert_eq!(x.source_string(&src), "cdef");
    let w = Span::default_span().wrap(5);
    assert_eq!(w.inner, 5);
}

#[test]
fn text_helpers() {
    assert_eq!(decimal(0), "0");
    assert_eq!(decimal(1203), "1203");
    assert_eq!(repeat_str("ab", 3), "ababab");
}

#[test]
fn config_defaults_and_outputs() {
    let c = validate_config(args("dir/prog.st")).unwrap();
    assert_eq!(c.action, Action::AssembleAndLink);
    assert_eq!(c.target, Target::x86);
    assert_eq!(c.output, "dir/prog");
    let mut a = args("prog.st");
    a.emit_ir = true;
    assert_eq!(validate_config(a).unwrap().output, "prog.ir");
    let mut a = args("prog");
    a.emit_asm = true;
    a.no_regalloc = true;
    let c = validate_config(a).unwrap();
    assert_eq!(c.output, "prog.s");
    assert!(c.no_regalloc);
    assert_eq!(default_output_for("a.b.c", Action::CompileOnly), "a.b.o");
}

#[test]
fn config_errors() {
    let mut a = args("p.st");
    a.emit_ir = true;
    a.compile_only = true;
    assert_eq!(validate_config(a).err(), Some(ConfigError::MultipleActions));
    let mut a = args("p.st");
    a.no_regalloc = true;
    assert_eq!(validate_config(a).err(), Some(ConfigError::NoRegallocWithoutAsm));
    let mut a = args("p.st");
    a.output = Some("out".to_string());
    assert_eq!(validate_config(a).unwrap().output, "out");
}

#[test]
fn merging_is_associative_and_covers_both() {
    let a = Span::new("f", 5, 9, 2, 1);
    let b = Span::new("f", 1, 3, 0, 1);
    let c = Span::new("f", 4, 12, 1, 4);
    let l = a.merge(b).merge(c);
    let r = a.merge(b.merge(c));
    assert_eq!((l.lo, l.hi, l.row, l.col), (r.lo, r.hi, r.row, r.col));
    assert_eq!((l.lo, l.hi), (1, 12));
    let m = a.merge(a);
    assert_eq!((m.lo, m.hi, m.row, m.col), (5, 9, 2, 1));
}
