//! The front end as a whole: the built-in types, then parsing, resolving the top level and type
//! checking every function of a source file.
use crate::env::{assoc_insert, Scopes};
use crate::error::CompileError;
use crate::hir::{sstmt_v, sstmts_v, lemma_sstmts_v, DeclsV, HirFunction, HirObjV, HirStmt};
use crate::module::ModuleBuilder;
use crate::parser::{functions_as_objs, of_kind, parse_file, parse_result, ParsedProgram};
use crate::qual_type::{bits_v, is_integral_v, is_signed_v, QualType, QualTypeV};
use crate::sema::{ctx_wf, decl_count, decl_counts, loop_nesting, loop_nestings, tc_function, CompilerContext, StV, TcCtx};
use crate::raw_type::RawTypeV;
use crate::span::{Spanned, SpannedV};
use crate::tir::{TirFunction, TirFunctionV};
use crate::translation_unit::{add_str, first_fn_error, fn_entry, fn_names, fn_sigs, global_sigs, resolve_structs, globals_after, qtype, struct_sigs, top_after, GlobalState, SymbolInfoV, SymbolV};
use vstd::prelude::*;

verus! {

/// `types` with the built-in types added under their names.
pub open spec fn builtins_v(types: Map<Seq<char>, QualTypeV>) -> Map<Seq<char>, QualTypeV> {
    types.insert(seq!['i', '8'], QualTypeV::I8).insert(seq!['u', '8'], QualTypeV::U8).insert(
        seq!['i', '1', '6'],
        QualTypeV::I16,
    ).insert(seq!['u', '1', '6'], QualTypeV::U16).insert(seq!['i', '3', '2'], QualTypeV::I32).insert(
        seq!['u', '3', '2'],
        QualTypeV::U32,
    ).insert(seq!['i', '6', '4'], QualTypeV::I64).insert(seq!['u', '6', '4'], QualTypeV::U64).insert(
        seq!['b', 'o', 'o', 'l'],
        QualTypeV::Bool,
    ).insert(seq!['v', 'o', 'i', 'd'], QualTypeV::Void)
}

/// The name of the integer type of width `w`: `i` (signed) or `u` (unsigned), then the width
/// in decimal.
pub open spec fn int_type_name(signed: bool, w: nat) -> Seq<char> {
    seq![if signed { 'i' } else { 'u' }] + if w == 8 {
        seq!['8']
    } else if w == 16 {
        seq!['1', '6']
    } else if w == 32 {
        seq!['3', '2']
    } else {
        seq!['6', '4']
    }
}

/// Each built-in type name stands for the type it spells: `i` or `u` followed by a width names
/// the signed or unsigned integer type of that width, `bool` names `bool` and `void` names
/// `void`.
pub proof fn law_builtin_names(types: Map<Seq<char>, QualTypeV>, signed: bool, w: nat)
    requires
        w == 8 || w == 16 || w == 32 || w == 64,
    ensures
        builtins_v(types).contains_key(int_type_name(signed, w)),
        is_integral_v(builtins_v(types)[int_type_name(signed, w)]),
        is_signed_v(builtins_v(types)[int_type_name(signed, w)]) == signed,
        bits_v(builtins_v(types)[int_type_name(signed, w)]) == w,
        builtins_v(types)[seq!['b', 'o', 'o', 'l']] == QualTypeV::Bool,
        builtins_v(types)[seq!['v', 'o', 'i', 'd']] == QualTypeV::Void,
{
    let n = int_type_name(signed, w);
    let names = seq![
        seq!['i', '8'], seq!['u', '8'], seq!['i', '1', '6'], seq!['u', '1', '6'], seq!['i', '3', '2'],
        seq!['u', '3', '2'], seq!['i', '6', '4'], seq!['u', '6', '4'], seq!['b', 'o', 'o', 'l'],
        seq!['v', 'o', 'i', 'd'],
    ];
    assert forall|a: int, b: int| 0 <= a < b < 10 implies names[a] != names[b] by {
        if names[a].len() == names[b].len() {
            assert(names[a][0] != names[b][0] || names[a][1] != names[b][1]);
        }
    }
    let k: int = (if signed { 0int } else { 1int }) + if w == 8 { 0int } else if w == 16 { 2int } else if w == 32 { 4int } else { 6int };
    assert(n =~= names[k]);
    assert(names[0] == seq!['i', '8']);
    assert(names[1] == seq!['u', '8']);
    assert(names[2] == seq!['i', '1', '6']);
    assert(names[3] == seq!['u', '1', '6']);
    assert(names[4] == seq!['i', '3', '2']);
    assert(names[5] == seq!['u', '3', '2']);
    assert(names[6] == seq!['i', '6', '4']);
    assert(names[7] == seq!['u', '6', '4']);
    assert(names[8] == seq!['b', 'o', 'o', 'l']);
    assert(names[9] == seq!['v', 'o', 'i', 'd']);
}

fn register_builtin(state: &mut GlobalState, name: &str, ty: QualType) -> (r: ())
    ensures
        final(state).types_v() == old(state).types_v().insert(name@, ty@),
        final(state).symbol_counter == old(state).symbol_counter,
{
    let n = add_str(state, name);
    let t = qtype(state, &ty);
    assoc_insert(&mut state.type_names, n, t);
}

/// Makes the built-in types known by their names: the integer types, `bool` and `void`.
pub fn init_state(state: &mut GlobalState)
    ensures
        final(state).types_v() == builtins_v(old(state).types_v()),
        final(state).symbol_counter == old(state).symbol_counter,
{
    proof {
        reveal_strlit("i8");
        reveal_strlit("u8");
        reveal_strlit("i16");
        reveal_strlit("u16");
        reveal_strlit("i32");
        reveal_strlit("u32");
        reveal_strlit("i64");
        reveal_strlit("u64");
        reveal_strlit("bool");
        reveal_strlit("void");
    }
    register_builtin(state, "i8", QualType::I8);
    register_builtin(state, "u8", QualType::U8);
    register_builtin(state, "i16", QualType::I16);
    register_builtin(state, "u16", QualType::U16);
    register_builtin(state, "i32", QualType::I32);
    register_builtin(state, "u32", QualType::U32);
    register_builtin(state, "i64", QualType::I64);
    register_builtin(state, "u64", QualType::U64);
    register_builtin(state, "bool", QualType::Bool);
    register_builtin(state, "void", QualType::Void);
    proof {
        assert("i8"@ =~= seq!['i', '8']);
        assert("u8"@ =~= seq!['u', '8']);
        assert("i16"@ =~= seq!['i', '1', '6']);
        assert("u16"@ =~= seq!['u', '1', '6']);
        assert("i32"@ =~= seq!['i', '3', '2']);
        assert("u32"@ =~= seq!['u', '3', '2']);
        assert("i64"@ =~= seq!['i', '6', '4']);
        assert("u64"@ =~= seq!['u', '6', '4']);
        assert("bool"@ =~= seq!['b', 'o', 'o', 'l']);
        assert("void"@ =~= seq!['v', 'o', 'i', 'd']);
    }
}

/// The number of declarations in a statement (see `decl_count`), or `usize::MAX` if it is at
/// least that.
fn count_decls(s: &Spanned<HirStmt>) -> (r: usize)
    ensures
        r == if decl_count(sstmt_v(*s)) < usize::MAX { decl_count(sstmt_v(*s)) } else { usize::MAX as nat },
    decreases *s,
{
    match &s.inner {
        HirStmt::LetDecl { .. } | HirStmt::LetAssign { .. } => 1,
        HirStmt::While { body, .. } => count_decls(body),
        HirStmt::If { then_, else_, .. } => count_decls(then_).saturating_add(count_decls(else_)),
        HirStmt::Block(stmts) => {
            let ghost ss = sstmts_v(stmts@);
            proof {
                lemma_sstmts_v(stmts@);
            }
            let mut total: usize = 0;
            let mut i = stmts.len();
            proof {
                assert(ss.subrange(ss.len() as int, ss.len() as int) =~= Seq::empty());
            }
            #[verifier::loop_isolation(false)]
            while i > 0
                invariant
                    i <= stmts@.len(),
                    ss == sstmts_v(stmts@),
                    ss.len() == stmts@.len(),
                    total == if decl_counts(ss.subrange(i as int, ss.len() as int)) < usize::MAX {
                        decl_counts(ss.subrange(i as int, ss.len() as int))
                    } else {
                        usize::MAX as nat
                    },
                decreases i,
            {
                let j = i - 1;
                proof {
                    let sj = ss.subrange(j as int, ss.len() as int);
                    assert(sj[0] == ss[j as int]);
                    assert(sj.subrange(1, sj.len() as int) =~= ss.subrange(i as int, ss.len() as int));
                    broadcast use vstd::std_specs::vec::axiom_vec_index_decreases;
                    assert(decreases_to!(stmts => stmts@[j as int]));
                }
                total = count_decls(&stmts[j]).saturating_add(total);
                i = j;
            }
            proof {
                assert(ss.subrange(0, ss.len() as int) =~= ss);
            }
            total
        },
        _ => 0,
    }
}

/// How deeply loops nest in a statement (see `loop_nesting`), or `usize::MAX` if at least that.
fn count_nesting(s: &Spanned<HirStmt>) -> (r: usize)
    ensures
        r == if loop_nesting(sstmt_v(*s)) < usize::MAX { loop_nesting(sstmt_v(*s)) } else { usize::MAX as nat },
    decreases *s,
{
    match &s.inner {
        HirStmt::While { body, .. } => 1usize.saturating_add(count_nesting(body)),
        HirStmt::If { then_, else_, .. } => {
            let a = count_nesting(then_);
            let b = count_nesting(else_);
            if a >= b {
                a
            } else {
                b
            }
        },
        HirStmt::Block(stmts) => {
            let ghost ss = sstmts_v(stmts@);
            proof {
                lemma_sstmts_v(stmts@);
            }
            let mut deepest: usize = 0;
            let mut i = stmts.len();
            proof {
                assert(ss.subrange(ss.len() as int, ss.len() as int) =~= Seq::empty());
            }
            #[verifier::loop_isolation(false)]
            while i > 0
                invariant
                    i <= stmts@.len(),
                    ss == sstmts_v(stmts@),
                    ss.len() == stmts@.len(),
                    deepest == if loop_nestings(ss.subrange(i as int, ss.len() as int)) < usize::MAX {
                        loop_nestings(ss.subrange(i as int, ss.len() as int))
                    } else {
                        usize::MAX as nat
                    },
                decreases i,
            {
                let j = i - 1;
                proof {
                    let sj = ss.subrange(j as int, ss.len() as int);
                    assert(sj[0] == ss[j as int]);
                    assert(sj.subrange(1, sj.len() as int) =~= ss.subrange(i as int, ss.len() as int));
                    broadcast use vstd::std_specs::vec::axiom_vec_index_decreases;
                    assert(decreases_to!(stmts => stmts@[j as int]));
                }
                let d = count_nesting(&stmts[j]);
                if d >= deepest {
                    deepest = d;
                }
                i = j;
            }
            proof {
                assert(ss.subrange(0, ss.len() as int) =~= ss);
            }
            deepest
        },
        _ => 0,
    }
}

/// An empty type-checking state that knows the built-in types.
pub fn new_context() -> (r: CompilerContext)
    ensures
        ctx_wf(r.tc()),
        r.tc().types == builtins_v(Map::empty()),
        r.tc().scopes == seq![Map::<Seq<char>, (Seq<char>, usize)>::empty()],
        r.tc().top == Map::<Seq<char>, (Seq<char>, usize)>::empty(),
        r.tc().table == Map::<(Seq<char>, usize), crate::translation_unit::SymbolInfoV>::empty(),
        r.tc().counter == 0,
        r.tc().loop_depth == 0,
{
    let mut state = GlobalState::new();
    init_state(&mut state);
    let ctx = CompilerContext {
        symbol_table: Vec::new(),
        scopes: Scopes::new(),
        top_level_scope: Vec::new(),
        loop_labels: Vec::new(),
        loop_depth: 0,
        module: ModuleBuilder::new(),
        state,
    };
    proof {
        assert(crate::env::pairs_v(ctx.symbol_table@) =~= Seq::empty());
        assert(crate::env::pairs_v(ctx.top_level_scope@) =~= Seq::empty());
    }
    ctx
}

/// The state that type checking starts from: the built-in types, one empty scope, nothing else.
pub open spec fn start_ctx() -> TcCtx {
    TcCtx {
        scopes: seq![Map::<Seq<char>, SymbolV>::empty()],
        top: Map::<Seq<char>, SymbolV>::empty(),
        table: Map::<SymbolV, SymbolInfoV>::empty(),
        types: builtins_v(Map::empty()),
        counter: 0,
        loop_depth: 0,
    }
}

/// The name and fields of each struct item.
pub open spec fn struct_sigs_v(objs: Seq<SpannedV<HirObjV>>) -> Seq<(Seq<char>, DeclsV)> {
    objs.map_values(|o: SpannedV<HirObjV>| (o.inner->Struct_name.inner, o.inner->Struct_fields))
}

/// The name and declared type of each global item.
pub open spec fn global_sigs_v(objs: Seq<SpannedV<HirObjV>>) -> Seq<(SpannedV<Seq<char>>, SpannedV<RawTypeV>)> {
    objs.map_values(|o: SpannedV<HirObjV>| (o.inner->Global_name, o.inner->Global_ty))
}

/// Items of each kind together are no more than all the items.
proof fn lemma_of_kind_len(objs: Seq<SpannedV<HirObjV>>)
    ensures
        of_kind(objs, 0).len() + of_kind(objs, 1).len() <= objs.len(),
    decreases objs.len(),
{
    if objs.len() > 0 {
        lemma_of_kind_len(objs.drop_last());
    }
}

/// The parameters and return type of each function item.
pub open spec fn fn_sigs_v(objs: Seq<SpannedV<HirObjV>>) -> Seq<(DeclsV, SpannedV<RawTypeV>)> {
    objs.map_values(|o: SpannedV<HirObjV>| (o.inner->Fn_args, o.inner->Fn_return_type))
}

/// The name of each function item.
pub open spec fn fn_names_v(objs: Seq<SpannedV<HirObjV>>) -> Seq<SpannedV<Seq<char>>> {
    objs.map_values(|o: SpannedV<HirObjV>| o.inner->Fn_name)
}

/// State `c1` is what registering the function items `fns` at the top level makes of `c0`,
/// with the types `types` known (see `CompilerContext::resolve_top_level`).
pub open spec fn resolved(c0: TcCtx, fns: Seq<SpannedV<HirObjV>>, types: Map<Seq<char>, QualTypeV>, c1: TcCtx) -> bool {
    let n = fns.len();
    &&& ctx_wf(c1)
    &&& c1.types == types
    &&& c1.scopes == c0.scopes
    &&& c1.loop_depth == c0.loop_depth
    &&& c1.counter == c0.counter + n
    &&& c1.top == top_after(c0.top, fn_names_v(fns), c0.counter, 0)
    &&& forall|j: int| 0 <= j < n ==> #[trigger] fn_entry(c0, c1, types, fn_names_v(fns), fn_sigs_v(fns), j)
    &&& forall|k: SymbolV| !(c0.counter <= k.1 < c0.counter + n) ==> (#[trigger] c1.table.contains_key(k)
        == c0.table.contains_key(k) && (c0.table.contains_key(k) ==> c1.table[k] == c0.table[k]))
}

/// A function item needs more symbols, or nests loops more deeply, than a `usize` counts from
/// the symbol counter of `c` on.
pub open spec fn over_limit(c: TcCtx, args: DeclsV, body: StV) -> bool {
    let d = if args.len() + decl_count(body) < usize::MAX {
        args.len() + decl_count(body)
    } else {
        usize::MAX as nat
    };
    c.counter + d > usize::MAX || d == usize::MAX || loop_nesting(body) >= usize::MAX
}

/// Type checking the function items from the `i`-th on, in order, each from the state the one
/// before left, with no loop open.
pub open spec fn run_functions(c: TcCtx, fns: Seq<SpannedV<HirObjV>>, i: nat) -> Result<Seq<TirFunctionV>, CompileError>
    decreases fns.len() - i,
{
    if i >= fns.len() {
        Ok(Seq::empty())
    } else {
        let f = fns[i as int];
        if over_limit(c, f.inner->Fn_args, f.inner->Fn_body) {
            Err(CompileError::LimitExceeded { at: f.span })
        } else {
            match tc_function(
                TcCtx { loop_depth: 0, ..c },
                f.inner->Fn_name,
                f.inner->Fn_return_type,
                f.inner->Fn_args,
                f.inner->Fn_body,
            ) {
                Err(e) => Err(e),
                Ok((tf, c2)) => match run_functions(c2, fns, i + 1) {
                    Err(e) => Err(e),
                    Ok(rest) => Ok(seq![tf] + rest),
                },
            }
        }
    }
}

/// The values of a list of checked functions.
pub open spec fn tfuns_v(v: Seq<TirFunction>) -> Seq<TirFunctionV> {
    v.map_values(|f: TirFunction| f@)
}

/// Runs the front end on `source`, the content of the file named `filename`: parses it,
/// registers its structs and then its functions at the top level, then type checks each
/// function in order (its loops forgotten before it), and adds a module symbol for each checked
/// function. Gives the state and the checked functions, or the first error. A function that
/// needs more symbols, or nests loops more deeply, than a `usize` counts is refused with
/// `LimitExceeded`.
/// What the front end gives for `source`, the content of the file named `filename` (see
/// `analyze`).
pub open spec fn analysis(source: Seq<u8>, filename: &'static str, r: Result<(CompilerContext, Vec<TirFunction>), CompileError>) -> bool {
    match parse_result(source, filename) {
        Err(e) => r == Err::<(CompilerContext, Vec<TirFunction>), CompileError>(e),
        Ok(items) => match resolve_structs(start_ctx().types, struct_sigs_v(of_kind(items, 2))) {
            Err(e) => r == Err::<(CompilerContext, Vec<TirFunction>), CompileError>(e),
            Ok(types) => match globals_after(TcCtx { types, ..start_ctx() }, global_sigs_v(of_kind(items, 1)), 0) {
                Err(e) => r == Err::<(CompilerContext, Vec<TirFunction>), CompileError>(e),
                Ok(cg) => match first_fn_error(types, fn_sigs_v(of_kind(items, 0)), 0) {
                    Some(e) => r == Err::<(CompilerContext, Vec<TirFunction>), CompileError>(e),
                    None => exists|c1: TcCtx|
                        #[trigger] resolved(cg, of_kind(items, 0), types, c1) && match run_functions(
                            c1,
                            of_kind(items, 0),
                            0,
                        ) {
                            Err(e) => r == Err::<(CompilerContext, Vec<TirFunction>), CompileError>(e),
                            Ok(fs) => r matches Ok((ctx, v)) && tfuns_v(v@) == fs && ctx_wf(ctx.tc()),
                        },
                },
            },
        },
    }
}

/// The front end fails with `e` where the items parse, the structs, globals and function types
/// resolve, and checking the functions from the resolved state fails with `e`.
proof fn lemma_analysis_err(source: Seq<u8>, filename: &'static str, parsed: Seq<SpannedV<HirObjV>>, types: Map<Seq<char>, QualTypeV>, cg: TcCtx, c1: TcCtx, e: CompileError)
    requires
        parse_result(source, filename) == Ok::<Seq<SpannedV<HirObjV>>, CompileError>(parsed),
        resolve_structs(start_ctx().types, struct_sigs_v(of_kind(parsed, 2))) == Ok::<Map<Seq<char>, QualTypeV>, CompileError>(types),
        globals_after(TcCtx { types, ..start_ctx() }, global_sigs_v(of_kind(parsed, 1)), 0) == Ok::<TcCtx, CompileError>(cg),
        first_fn_error(types, fn_sigs_v(of_kind(parsed, 0)), 0) is None,
        resolved(cg, of_kind(parsed, 0), types, c1),
        run_functions(c1, of_kind(parsed, 0), 0) == Err::<Seq<TirFunctionV>, CompileError>(e),
    ensures
        analysis(source, filename, Err(e)),
{
    let r = Err::<(CompilerContext, Vec<TirFunction>), CompileError>(e);
    assert(exists|c: TcCtx|
        #[trigger] resolved(cg, of_kind(parsed, 0), types, c) && match run_functions(c, of_kind(parsed, 0), 0) {
            Err(e) => r == Err::<(CompilerContext, Vec<TirFunction>), CompileError>(e),
            Ok(fs) => r matches Ok((ctx, v)) && tfuns_v(v@) == fs && ctx_wf(ctx.tc()),
        });
    let items = parse_result(source, filename)->Ok_0;
    assert(items == parsed);
    let t2 = resolve_structs(start_ctx().types, struct_sigs_v(of_kind(items, 2)))->Ok_0;
    assert(t2 == types);
    let cg2 = globals_after(TcCtx { types: t2, ..start_ctx() }, global_sigs_v(of_kind(items, 1)), 0)->Ok_0;
    assert(cg2 == cg);
}

pub fn analyze(filename: &'static str, source: Vec<u8>) -> (r: Result<(CompilerContext, Vec<TirFunction>), CompileError>)
    ensures
        analysis(source@, filename, r),
{
    let mut ctx = new_context();
    let items = parse_file(filename, source)?;
    let ghost parsed = crate::parser::objs_v(items@);
    proof {
        lemma_of_kind_len(parsed);
        assert(parsed.len() == items@.len());
    }
    let nitems = items.len();
    proof {
        assert(parsed.len() == nitems);
    }
    let program = ParsedProgram::from_items(items);
    let ghost fobjs = of_kind(parsed, 0);
    let nfns = program.functions.len();
    let ghost c0 = ctx.tc();
    proof {
        assert(c0 == start_ctx());
        let sobjs = of_kind(parsed, 2);
        assert(struct_sigs(program.structs@) =~= struct_sigs_v(sobjs)) by {
            assert forall|j: int| 0 <= j < program.structs@.len() implies struct_sigs(program.structs@)[j] == struct_sigs_v(sobjs)[j] by {
                assert(crate::parser::structs_as_objs(program.structs@)[j] == sobjs[j]);
            }
        }
        assert(fn_sigs(program.functions@) =~= fn_sigs_v(fobjs)) by {
            assert forall|j: int| 0 <= j < program.functions@.len() implies fn_sigs(program.functions@)[j] == fn_sigs_v(fobjs)[j] by {
                assert(functions_as_objs(program.functions@)[j] == fobjs[j]);
            }
        }
        let gobjs = of_kind(parsed, 1);
        assert(crate::parser::globals_as_objs(program.globals@).len() == program.globals@.len());
        assert(functions_as_objs(program.functions@).len() == program.functions@.len());
        assert(global_sigs(program.globals@) =~= global_sigs_v(gobjs)) by {
            assert forall|j: int| 0 <= j < program.globals@.len() implies global_sigs(program.globals@)[j] == global_sigs_v(gobjs)[j] by {
                assert(crate::parser::globals_as_objs(program.globals@)[j] == gobjs[j]);
            }
        }
        assert(fn_names(program.functions@) =~= fn_names_v(fobjs)) by {
            assert forall|j: int| 0 <= j < program.functions@.len() implies fn_names(program.functions@)[j] == fn_names_v(fobjs)[j] by {
                assert(functions_as_objs(program.functions@)[j] == fobjs[j]);
            }
        }
    }
    ctx.resolve_top_level(&program)?;
    let ghost c1 = ctx.tc();
    let ghost types = c1.types;
    let ghost cg = globals_after(TcCtx { types, ..start_ctx() }, global_sigs_v(of_kind(parsed, 1)), 0)->Ok_0;
    proof {
        assert(resolved(cg, fobjs, types, c1));
        assert forall|j: int| 0 <= j < program.functions@.len() implies c1.top.contains_key(
            #[trigger] program.functions@[j].inner.name.inner@,
        ) by {
            let names = fn_names(program.functions@);
            assert(names[j].inner == program.functions@[j].inner.name.inner@);
            crate::translation_unit::lemma_top_after_contains(cg.top, names, cg.counter, 0, j);
        }
    }
    let mut functions = program.functions;
    let ghost all = functions@;
    let mut tir_functions: Vec<TirFunction> = Vec::new();
    proof {
        assert(tfuns_v(tir_functions@) + Seq::<TirFunctionV>::empty() =~= Seq::<TirFunctionV>::empty());
    }
    while functions.len() > 0
        invariant
            ctx_wf(ctx.tc()),
            parse_result(source@, filename) == Ok::<Seq<SpannedV<HirObjV>>, CompileError>(parsed),
            fobjs == of_kind(parsed, 0),
            fobjs == functions_as_objs(all),
            resolved(cg, fobjs, types, c1),
            resolve_structs(start_ctx().types, struct_sigs_v(of_kind(parsed, 2))) == Ok::<Map<Seq<char>, QualTypeV>, CompileError>(types),
            globals_after(TcCtx { types, ..start_ctx() }, global_sigs_v(of_kind(parsed, 1)), 0) == Ok::<TcCtx, CompileError>(cg),
            first_fn_error(types, fn_sigs_v(fobjs), 0) is None,
            all.len() >= functions@.len(),
            functions@ == all.subrange(all.len() - functions@.len(), all.len() as int),
            tir_functions@.len() == all.len() - functions@.len(),
            ctx.tc().top == c1.top,
            forall|j: int| 0 <= j < all.len() ==> c1.top.contains_key(#[trigger] all[j].inner.name.inner@),
            match run_functions(ctx.tc(), fobjs, (all.len() - functions@.len()) as nat) {
                Err(e) => run_functions(c1, fobjs, 0) == Err::<Seq<TirFunctionV>, CompileError>(e),
                Ok(rest) => run_functions(c1, fobjs, 0) == Ok::<Seq<TirFunctionV>, CompileError>(tfuns_v(tir_functions@) + rest),
            },
        decreases functions@.len(),
    {
        let ghost before = functions@;
        let ghost i = all.len() - before.len();
        let f = functions.remove(0);
        proof {
            assert(f == all[i]);
            assert(fobjs[i] == functions_as_objs(all)[i]);
            assert(functions@ =~= all.subrange(all.len() - functions@.len(), all.len() as int));
        }
        let d = f.inner.args.len().saturating_add(count_decls(&f.inner.body));
        let depth = count_nesting(&f.inner.body);
        if ctx.state.symbol_counter.checked_add(d).is_none() || d == usize::MAX || depth == usize::MAX {
            proof {
                assert(run_functions(ctx.tc(), fobjs, i as nat) == Err::<Seq<TirFunctionV>, CompileError>(CompileError::LimitExceeded { at: f.span }));
                lemma_analysis_err(source@, filename, parsed, types, cg, c1, CompileError::LimitExceeded { at: f.span });
            }
            return Err(CompileError::LimitExceeded { at: f.span });
        }
        ctx.reset();
        proof {
            let name = f.inner.name.inner@;
            assert(c1.top.contains_key(name));
            if crate::env::scopes_get(ctx.tc().scopes, name) is None {
                assert(ctx.tc().top.contains_key(name));
            }
        }
        let tf = match f.inner.type_check(&mut ctx) {
            Ok(tf) => tf,
            Err(e) => {
                proof {
                    lemma_analysis_err(source@, filename, parsed, types, cg, c1, e);
                }
                return Err(e);
            },
        };
        proof {
            let ghost rest = run_functions(ctx.tc(), fobjs, (i + 1) as nat);
            match rest {
                Ok(fs) => {
                    assert(tfuns_v(tir_functions@.push(tf)) + fs =~= tfuns_v(tir_functions@) + (seq![tf@] + fs));
                },
                Err(_) => {},
            }
        }
        tir_functions.push(tf);
    }
    let ghost old_tc = ctx.tc();
    let mut k: usize = 0;
    while k < tir_functions.len()
        invariant
            k <= tir_functions@.len(),
            ctx_wf(ctx.tc()),
            ctx.tc() == old_tc,
        decreases tir_functions@.len() - k,
    {
        ctx.module.add_symbol((*tir_functions[k].name.inner).clone());
        k += 1;
    }
    proof {
        assert(tfuns_v(tir_functions@) + Seq::<TirFunctionV>::empty() =~= tfuns_v(tir_functions@));
    }
    Ok((ctx, tir_functions))
}

} // verus!
