//! State shared by the whole compilation: interning pools, the names of types, symbols, and the
//! resolution of the top-level items of a program.
use crate::env::{assoc_get, assoc_insert, assoc_v, pairs_v};
use crate::error::CompileError;
use crate::hir::{decls_v, DeclsV, HirFunction, HirGlobal, HirStruct};
use crate::parser::ParsedProgram;
use crate::sema::{ctx_wf, new_info, CompilerContext, TcCtx};
use crate::qual_type::{share_all, strs_view};
use crate::interner::{rc_share, Internable, Pool};
use crate::ir_types::IRValue;
use crate::label::Label;
use crate::qual_type::{QualType, QualTypeV, RcString};
use crate::raw_type::{RawType, RawTypeV};
use crate::span::{Spanned, SpannedV};
use crate::tir::{TirExpr, TirExprKind};
use std::rc::Rc;
use vstd::prelude::*;

verus! {

/// What a compilation shares: the types known by name, the pools that intern types and strings,
/// the counter that numbers symbols, and the source text.
pub struct GlobalState {
    pub type_names: Vec<(RcString, Rc<QualType>)>,
    pub qualified_types: Pool<QualType>,
    pub raw_types: Pool<RawType>,
    pub symbols: Pool<String>,
    pub symbol_counter: usize,
    pub source: Vec<u8>,
}

impl GlobalState {
    /// A state that knows no type and has numbered no symbol.
    pub fn new() -> (r: Self)
        ensures
            assoc_v(r.type_names@) == Map::<Seq<char>, QualTypeV>::empty(),
            r.type_names@.len() == 0,
            r.symbol_counter == 0,
            r.source@.len() == 0,
            r.qualified_types@ == Seq::<QualTypeV>::empty(),
            r.raw_types@ == Seq::<RawTypeV>::empty(),
            r.symbols@ == Seq::<Seq<char>>::empty(),
    {
        let r = GlobalState {
            type_names: Vec::new(),
            qualified_types: Pool::new(),
            raw_types: Pool::new(),
            symbols: Pool::new(),
            symbol_counter: 0,
            source: Vec::new(),
        };
        proof {
            assert(crate::env::pairs_v(r.type_names@) =~= Seq::empty());
        }
        r
    }

    /// The types known by name.
    pub open spec fn types_v(&self) -> Map<Seq<char>, QualTypeV> {
        assoc_v(self.type_names@)
    }
}

/// The source text being compiled.
pub fn source(state: &GlobalState) -> (r: &Vec<u8>)
    ensures
        r@ == state.source@,
{
    &state.source
}

/// A resolved name: the name as written and a number that no other symbol of the compilation
/// has.
#[derive(Debug)]
pub struct Symbol(pub Rc<String>, pub usize);

/// The value of a symbol: its name and its number.
pub type SymbolV = (Seq<char>, usize);

impl View for Symbol {
    type V = SymbolV;

    open spec fn view(&self) -> SymbolV {
        ((*self.0)@, self.1)
    }
}

impl Clone for Symbol {
    fn clone(&self) -> (r: Self)
        ensures
            r@ == self@,
    {
        Symbol(rc_share(&self.0), self.1)
    }
}

impl Symbol {
    /// How the symbol is written: its name, a dot, and its number.
    pub fn to_text(&self) -> (r: String)
        ensures
            r@ == (*self.0)@ + seq!['.'] + crate::text::decimal_v(self.1 as nat),
    {
        proof {
            reveal_strlit(".");
        }
        let s = crate::text::join_str((*self.0).as_str(), ".");
        crate::text::join_str(s.as_str(), crate::text::decimal(self.1).as_str())
    }
}

impl Internable for Symbol {
    fn same(&self, other: &Self) -> (r: bool) {
        self.1 == other.1 && (*self.0).eq(&*other.0)
    }

    fn duplicate(&self) -> (r: Self) {
        self.clone()
    }
}

/// The shared copy of the string `value`.
pub fn add_str(state: &mut GlobalState, value: &str) -> (r: Rc<String>)
    ensures
        r@ == value@,
        final(state).symbols@ == crate::interner::interned(old(state).symbols@, value@),
        final(state).type_names == old(state).type_names,
        final(state).symbol_counter == old(state).symbol_counter,
        final(state).source == old(state).source,
{
    state.symbols.get(&value.to_owned())
}

/// A fresh symbol for `name`: numbered by the counter, which moves on.
pub fn next_symbol(state: &mut GlobalState, name: &str) -> (r: Symbol)
    requires
        old(state).symbol_counter < usize::MAX,
    ensures
        r@ == (name@, old(state).symbol_counter),
        final(state).symbol_counter == old(state).symbol_counter + 1,
        final(state).type_names == old(state).type_names,
        final(state).source == old(state).source,
{
    let s = add_str(state, name);
    state.symbol_counter += 1;
    Symbol(s, state.symbol_counter - 1)
}

/// Symbols handed out one after the other differ, whatever their names: each call numbers its
/// symbol with the counter, which moves on.
pub proof fn law_next_symbols_differ(counter: nat, n1: Seq<char>, n2: Seq<char>)
    requires
        counter + 1 < usize::MAX,
    ensures
        (n1, counter as usize) != (n2, (counter + 1) as usize),
{
}

/// The interned copy of a raw type.
pub fn rtype(state: &mut GlobalState, ty: &RawType) -> (r: Rc<RawType>)
    ensures
        r@ == ty@,
        final(state).raw_types@ == crate::interner::interned(old(state).raw_types@, ty@),
        final(state).type_names == old(state).type_names,
        final(state).symbol_counter == old(state).symbol_counter,
        final(state).source == old(state).source,
{
    state.raw_types.get(ty)
}

/// The interned copy of a qualified type.
pub fn qtype(state: &mut GlobalState, ty: &QualType) -> (r: Rc<QualType>)
    ensures
        r@ == ty@,
        final(state).qualified_types@ == crate::interner::interned(old(state).qualified_types@, ty@),
        final(state).type_names == old(state).type_names,
        final(state).symbol_counter == old(state).symbol_counter,
        final(state).source == old(state).source,
{
    state.qualified_types.get(ty)
}

/// The qualified type that a raw type stands for, if every name in it names a known type.
pub open spec fn q_type(types: Map<Seq<char>, QualTypeV>, t: RawTypeV) -> Option<QualTypeV>
    decreases t,
{
    match t {
        RawTypeV::Base(n) => if types.contains_key(n) {
            Some(types[n])
        } else {
            None
        },
        RawTypeV::Pointer(inner) => match q_type(types, *inner) {
            Some(q) => Some(QualTypeV::Pointer(Box::new(q))),
            None => None,
        },
        RawTypeV::Function { arg_types, return_type } => match q_types(types, arg_types) {
            Some(args) => match q_type(types, *return_type) {
                Some(ret) => Some(QualTypeV::Function { arg_types: args, return_type: Box::new(ret) }),
                None => None,
            },
            None => None,
        },
    }
}

/// `q_type` of each raw type of a list, if each has one.
pub open spec fn q_types(types: Map<Seq<char>, QualTypeV>, s: Seq<RawTypeV>) -> Option<Seq<QualTypeV>>
    decreases s,
{
    if s.len() == 0 {
        Some(Seq::empty())
    } else {
        match q_types(types, s.subrange(0, s.len() - 1)) {
            Some(front) => match q_type(types, s[s.len() - 1]) {
                Some(q) => Some(front.push(q)),
                None => None,
            },
            None => None,
        }
    }
}

/// Once a prefix of a list has no qualified types, the whole list has none.
proof fn lemma_q_types_prefix(types: Map<Seq<char>, QualTypeV>, s: Seq<RawTypeV>, i: int)
    requires
        0 <= i <= s.len(),
        q_types(types, s.subrange(0, i)) is None,
    ensures
        q_types(types, s) is None,
    decreases s.len() - i,
{
    if i < s.len() {
        assert(s.subrange(0, i + 1).subrange(0, i) =~= s.subrange(0, i));
        lemma_q_types_prefix(types, s, i + 1);
    } else {
        assert(s.subrange(0, i) =~= s);
    }
}

/// The values of a list of shared qualified types.
pub open spec fn rcs_v(s: Seq<Rc<QualType>>) -> Seq<QualTypeV> {
    s.map_values(|r: Rc<QualType>| (*r)@)
}

/// The values of the argument types of a raw function type.
pub open spec fn raw_args_v(s: Seq<Rc<RawType>>) -> Seq<RawTypeV> {
    s.map_values(|r: Rc<RawType>| (*r)@)
}

/// The qualified type that `ty` stands for, interned, with every type name looked up in the
/// types known by name; `None` if a name names no type.
pub fn qualify_raw_type(state: &mut GlobalState, ty: &RawType) -> (r: Option<Rc<QualType>>)
    ensures
        match q_type(old(state).types_v(), ty@) {
            Some(q) => r matches Some(x) && x@ == q,
            None => r is None,
        },
        final(state).type_names == old(state).type_names,
        final(state).symbol_counter == old(state).symbol_counter,
        final(state).source == old(state).source,
    decreases ty,
{
    match ty {
        RawType::Base(name) => assoc_get(&state.type_names, name),
        RawType::Pointer(inner) => {
            let inner_ty = qualify_raw_type(state, inner)?;
            Some(qtype(state, &QualType::Pointer(inner_ty)))
        },
        RawType::Function { arg_types, return_type } => {
            let ghost types = state.types_v();
            let ghost raw = raw_args_v(arg_types@);
            assert(raw =~= ty@->Function_arg_types);
            let mut args: Vec<Rc<QualType>> = Vec::new();
            let mut i: usize = 0;
            proof {
                assert(raw.subrange(0, 0) =~= Seq::<RawTypeV>::empty());
                assert(rcs_v(args@) =~= Seq::<QualTypeV>::empty());
            }
            #[verifier::loop_isolation(false)]
            while i < arg_types.len()
                invariant
                    i <= arg_types@.len(),
                    raw == raw_args_v(arg_types@),
                    raw == ty@->Function_arg_types,
                    types == old(state).types_v(),
                    types == state.types_v(),
                    state.type_names == old(state).type_names,
                    state.symbol_counter == old(state).symbol_counter,
                    state.source == old(state).source,
                    q_types(types, raw.subrange(0, i as int)) == Some(rcs_v(args@)),
                decreases arg_types@.len() - i,
            {
                proof {
                    assert(raw.subrange(0, i + 1).subrange(0, i as int) =~= raw.subrange(0, i as int));
                    assert(raw.subrange(0, i + 1)[i as int] == raw[i as int]);
                }
                proof {
                    broadcast use vstd::std_specs::vec::axiom_vec_index_decreases;
                    assert(decreases_to!(arg_types => arg_types@[i as int]));
                }
                match qualify_raw_type(state, &arg_types[i]) {
                    Some(q) => {
                        proof {
                            assert(rcs_v(args@.push(q)) =~= rcs_v(args@).push(q@));
                        }
                        args.push(q);
                    },
                    None => {
                        proof {
                            lemma_q_types_prefix(types, raw, i + 1);
                        }
                        return None;
                    },
                }
                i += 1;
            }
            proof {
                assert(raw.subrange(0, i as int) =~= raw);
            }
            let ret = qualify_raw_type(state, return_type)?;
            let f = QualType::Function { arg_types: args, return_type: ret };
            proof {
                assert(f@->Function_arg_types =~= rcs_v(args@));
            }
            Some(qtype(state, &f))
        },
    }
}

/// The labels that `continue` and `break` jump to in the loop being compiled: `continue` goes
/// to `cond_block` and `break` to `end_block`.
#[derive(Debug, Clone, Copy)]
pub struct LoopLabels {
    pub cond_block: Label<()>,
    pub end_block: Label<()>,
}

/// What a symbol names.
#[derive(Debug, PartialEq, Eq, Clone, Copy, Structural)]
pub enum SymbolKind {
    Local,
    Arg(usize),
    Global,
    Function,
}

/// What the compiler knows of a symbol.
#[derive(Debug)]
pub struct SymbolInfo {
    pub symbol: Symbol,
    pub raw_name: Spanned<RcString>,
    pub ty: Rc<QualType>,
    pub kind: SymbolKind,
    /// Whether the program takes the address of this variable with `&`; such a variable keeps
    /// its storage slot.
    pub address_taken: bool,
    pub value: Option<IRValue>,
}

/// The value of what the compiler knows of a symbol.
pub struct SymbolInfoV {
    pub symbol: SymbolV,
    pub raw_name: SpannedV<Seq<char>>,
    pub ty: QualTypeV,
    pub kind: SymbolKind,
    pub address_taken: bool,
    pub value: Option<IRValue>,
}

impl View for SymbolInfo {
    type V = SymbolInfoV;

    open spec fn view(&self) -> SymbolInfoV {
        SymbolInfoV {
            symbol: self.symbol@,
            raw_name: self.raw_name@,
            ty: (*self.ty)@,
            kind: self.kind,
            address_taken: self.address_taken,
            value: self.value,
        }
    }
}

impl SymbolInfo {
    /// The address of this symbol's storage, as a typed expression of the symbol's type.
    pub fn create_addr_of(&self) -> (r: TirExpr)
        ensures
            r@.kind == crate::tir::TirKindV::AddrOf(self.symbol@),
            r@.ty == (*self.ty)@,
    {
        let ty = rc_share(&self.ty);
        let kind = TirExprKind::AddrOf(self.symbol.clone());
        TirExpr::new(kind, ty)
    }
}

/// The qualified types of declarations from the `i`-th on, in order; the first one whose type
/// names an unknown type is an error at that type.
pub open spec fn q_decl_types(types: Map<Seq<char>, QualTypeV>, decls: DeclsV, i: nat) -> Result<
    Seq<QualTypeV>,
    CompileError,
>
    decreases decls.len() - i,
{
    if i >= decls.len() {
        Ok(Seq::empty())
    } else {
        match q_type(types, decls[i as int].1.inner) {
            None => Err(CompileError::UnknownType { at: decls[i as int].1.span }),
            Some(q) => match q_decl_types(types, decls, i + 1) {
                Err(e) => Err(e),
                Ok(rest) => Ok(seq![q] + rest),
            },
        }
    }
}

/// The type of the struct `name` with fields `fields`.
pub open spec fn struct_type_v(types: Map<Seq<char>, QualTypeV>, name: Seq<char>, fields: DeclsV) -> Result<
    QualTypeV,
    CompileError,
> {
    match q_decl_types(types, fields, 0) {
        Err(e) => Err(e),
        Ok(qs) => Ok(
            QualTypeV::Struct {
                name,
                field_names: fields.map_values(|f: (SpannedV<Seq<char>>, SpannedV<RawTypeV>)| f.0.inner),
                field_types: qs,
            },
        ),
    }
}

/// The type of a function with parameters `args` and return type `ret`.
pub open spec fn fn_type_v(types: Map<Seq<char>, QualTypeV>, args: DeclsV, ret: SpannedV<RawTypeV>) -> Result<
    QualTypeV,
    CompileError,
> {
    match q_decl_types(types, args, 0) {
        Err(e) => Err(e),
        Ok(qs) => match q_type(types, ret.inner) {
            None => Err(CompileError::UnknownType { at: ret.span }),
            Some(r) => Ok(QualTypeV::Function { arg_types: qs, return_type: Box::new(r) }),
        },
    }
}

/// State `c1` is state `c0` with the function `name` of type `fty` registered at the top level:
/// a fresh symbol, bound at the top level, whose table entry has the function's type and the
/// module symbol of its name as its value.
pub open spec fn registered_fn(c0: TcCtx, c1: TcCtx, name: SpannedV<Seq<char>>, fty: QualTypeV) -> bool {
    let sym = (name.inner, c0.counter as usize);
    let info = c1.table[sym];
    &&& c1.top == c0.top.insert(name.inner, sym)
    &&& c1.table.contains_key(sym)
    &&& c1.table == c0.table.insert(sym, info)
    &&& info.symbol == sym
    &&& info.raw_name == name
    &&& info.ty == fty
    &&& info.kind == SymbolKind::Function
    &&& !info.address_taken
    &&& info.value matches Some(IRValue::Sym(m)) && m.0@ == name.inner
    &&& c1.scopes == c0.scopes
    &&& c1.types == c0.types
    &&& c1.counter == c0.counter + 1
    &&& c1.loop_depth == c0.loop_depth
}

/// The shared names of a list of declarations.
fn decl_names(decls: &Vec<(Spanned<RcString>, Spanned<Rc<RawType>>)>) -> (r: Vec<RcString>)
    ensures
        strs_view(r@) == decls_v(decls@).map_values(|f: (SpannedV<Seq<char>>, SpannedV<RawTypeV>)| f.0.inner),
{
    let mut out: Vec<RcString> = Vec::new();
    let mut i: usize = 0;
    while i < decls.len()
        invariant
            i <= decls@.len(),
            out@.len() == i,
            strs_view(out@) == decls_v(decls@).subrange(0, i as int).map_values(
                |f: (SpannedV<Seq<char>>, SpannedV<RawTypeV>)| f.0.inner,
            ),
        decreases decls@.len() - i,
    {
        let ghost before = out@;
        out.push(rc_share(&decls[i].0.inner));
        proof {
            let want = decls_v(decls@).subrange(0, i + 1).map_values(
                |f: (SpannedV<Seq<char>>, SpannedV<RawTypeV>)| f.0.inner,
            );
            let prev = decls_v(decls@).subrange(0, i as int).map_values(
                |f: (SpannedV<Seq<char>>, SpannedV<RawTypeV>)| f.0.inner,
            );
            assert forall|j: int| 0 <= j < out@.len() implies strs_view(out@)[j] == want[j] by {
                assert(decls_v(decls@)[j] == (decls@[j].0@, decls@[j].1@));
                if j < i {
                    assert(out@[j] == before[j]);
                    assert(strs_view(before)[j] == prev[j]);
                }
            }
            assert(strs_view(out@) =~= want);
        }
        i += 1;
    }
    proof {
        assert(decls_v(decls@).subrange(0, i as int) =~= decls_v(decls@));
    }
    out
}

impl CompilerContext {
    /// The qualified types of declarations, in order (see `q_decl_types`).
    fn qualify_decls(&mut self, decls: &Vec<(Spanned<RcString>, Spanned<Rc<RawType>>)>) -> (r: Result<Vec<Rc<QualType>>, CompileError>)
        ensures
            match q_decl_types(old(self).tc().types, decls_v(decls@), 0) {
                Ok(qs) => r matches Ok(x) && rcs_v(x@) == qs,
                Err(e) => r matches Err(e2) && e2 == e,
            },
            final(self).tc() == old(self).tc(),
    {
        let ghost c0 = self.tc();
        let ghost d = decls_v(decls@);
        let mut out: Vec<Rc<QualType>> = Vec::new();
        let mut i: usize = 0;
        proof {
            assert(rcs_v(out@) + Seq::<QualTypeV>::empty() =~= Seq::<QualTypeV>::empty());
        }
        while i < decls.len()
            invariant
                i <= decls@.len(),
                d == decls_v(decls@),
                c0 == old(self).tc(),
                self.tc() == c0,
                match q_decl_types(c0.types, d, i as nat) {
                    Ok(rest) => q_decl_types(c0.types, d, 0) == Ok::<Seq<QualTypeV>, CompileError>(rcs_v(out@) + rest),
                    Err(e) => q_decl_types(c0.types, d, 0) == Err::<Seq<QualTypeV>, CompileError>(e),
                },
            decreases decls@.len() - i,
        {
            proof {
                assert(d[i as int] == (decls@[i as int].0@, decls@[i as int].1@));
            }
            let q = match self.qualify_type(&decls[i].1.inner) {
                Some(q) => q,
                None => {
                    return Err(CompileError::UnknownType { at: decls[i].1.span });
                },
            };
            proof {
                match q_decl_types(c0.types, d, (i + 1) as nat) {
                    Ok(rest) => {
                        assert(rcs_v(out@.push(q)) + rest =~= rcs_v(out@) + (seq![q@] + rest));
                    },
                    Err(_) => {},
                }
            }
            out.push(q);
            i += 1;
        }
        proof {
            assert(rcs_v(out@) + Seq::<QualTypeV>::empty() =~= rcs_v(out@));
        }
        Ok(out)
    }

    /// Registers a struct's type under its name, so that later types can name it.
    pub fn resolve_global_types(&mut self, s: &Spanned<HirStruct>) -> (r: Result<(), CompileError>)
        ensures
            match struct_type_v(old(self).tc().types, s.inner.name.inner@, decls_v(s.inner.fields@)) {
                Ok(t) => r is Ok && final(self).tc() == (TcCtx {
                    types: old(self).tc().types.insert(s.inner.name.inner@, t),
                    ..old(self).tc()
                }),
                Err(e) => r matches Err(e2) && e2 == e && final(self).tc() == old(self).tc(),
            },
    {
        let name = &s.inner.name;
        let fields = &s.inner.fields;
        let field_types = self.qualify_decls(fields)?;
        let field_names = decl_names(fields);
        let st = QualType::Struct { name: rc_share(&name.inner), field_names, field_types };
        let ghost c0 = self.tc();
        let t = qtype(&mut self.state, &st);
        proof {
            assert(st@->Struct_field_types =~= rcs_v(st->Struct_field_types@));
        }
        assoc_insert(&mut self.state.type_names, rc_share(&name.inner), t);
        Ok(())
    }

    /// Registers a function at the top level: its symbol, its type and its module symbol.
    pub fn resolve_global_functions(&mut self, f: &Spanned<HirFunction>) -> (r: Result<(), CompileError>)
        requires
            old(self).tc().counter < usize::MAX,
        ensures
            match fn_type_v(old(self).tc().types, decls_v(f.inner.args@), f.inner.return_type@) {
                Ok(t) => r is Ok && registered_fn(old(self).tc(), final(self).tc(), f.inner.name@, t),
                Err(e) => r matches Err(e2) && e2 == e,
            },
    {
        let name = &f.inner.name;
        let arg_types = self.qualify_decls(&f.inner.args)?;
        let return_ty = match self.qualify_type(&f.inner.return_type.inner) {
            Some(t) => t,
            None => {
                return Err(CompileError::UnknownType { at: f.inner.return_type.span });
            },
        };
        let function_ty = QualType::Function { arg_types, return_type: return_ty };
        proof {
            assert(function_ty@->Function_arg_types =~= rcs_v(function_ty->Function_arg_types@));
        }
        let ty = qtype(&mut self.state, &function_ty);
        let symbol = next_symbol(&mut self.state, (*name.inner).as_str());
        let module_symbol = self.module.add_symbol((*name.inner).clone());
        assoc_insert(&mut self.top_level_scope, rc_share(&name.inner), symbol.clone());
        let info = SymbolInfo {
            symbol: symbol.clone(),
            raw_name: Spanned::new(rc_share(&name.inner), name.span),
            ty,
            kind: SymbolKind::Function,
            address_taken: false,
            value: Some(IRValue::Sym(module_symbol)),
        };
        assoc_insert(&mut self.symbol_table, symbol, info);
        Ok(())
    }

    /// Registers a global variable at the top level: a fresh symbol of kind `Global` with the
    /// variable's declared type, bound to its name.
    pub fn resolve_global_variables(&mut self, variable: &Spanned<HirGlobal>) -> (r: Result<(), CompileError>)
        requires
            old(self).tc().counter < usize::MAX,
        ensures
            match q_type(old(self).tc().types, variable.inner.ty@.inner) {
                None => r == Err::<(), CompileError>(CompileError::UnknownType { at: variable.inner.ty.span }),
                Some(t) => r is Ok && final(self).tc() == with_global(old(self).tc(), variable.inner.name@, t),
            },
    {
        let name = &variable.inner.name;
        let ty = match self.qualify_type(&variable.inner.ty.inner) {
            Some(t) => t,
            None => {
                return Err(CompileError::UnknownType { at: variable.inner.ty.span });
            },
        };
        let ghost c0 = self.tc();
        let symbol = next_symbol(&mut self.state, (*name.inner).as_str());
        assoc_insert(&mut self.top_level_scope, rc_share(&name.inner), symbol.clone());
        let info = SymbolInfo {
            symbol: symbol.clone(),
            raw_name: Spanned::new(rc_share(&name.inner), name.span),
            ty,
            kind: SymbolKind::Global,
            address_taken: false,
            value: None,
        };
        assoc_insert(&mut self.symbol_table, symbol, info);
        proof {
            let want = with_global(c0, name@, ty@);
            assert(self.tc().top =~= want.top);
            assert(self.tc().table =~= want.table);
        }
        Ok(())
    }
}

/// State `c` with the global `name` of type `ty` registered at the top level: a fresh symbol of
/// kind `Global`, numbered by the counter and bound to the name.
pub open spec fn with_global(c: TcCtx, name: SpannedV<Seq<char>>, ty: QualTypeV) -> TcCtx {
    let sym = (name.inner, c.counter as usize);
    TcCtx {
        top: c.top.insert(name.inner, sym),
        table: c.table.insert(sym, new_info(sym, name, ty, SymbolKind::Global)),
        counter: c.counter + 1,
        ..c
    }
}

/// Registering a global keeps a state well-formed.
pub proof fn lemma_with_global_wf(c: TcCtx, name: SpannedV<Seq<char>>, ty: QualTypeV)
    requires
        ctx_wf(c),
    ensures
        ctx_wf(with_global(c, name, ty)),
{
    let c2 = with_global(c, name, ty);
    assert forall|i: int, k: Seq<char>|
        0 <= i < c2.scopes.len() && #[trigger] c2.scopes[i].contains_key(k) implies c2.table.contains_key(
        c2.scopes[i][k],
    ) by {
        assert(c.scopes[i].contains_key(k));
    }
    assert forall|k: Seq<char>| #[trigger] c2.top.contains_key(k) implies c2.table.contains_key(c2.top[k]) by {
        if k != name.inner {
            assert(c.top.contains_key(k));
        }
    }
}

/// The name and declared type of each global of a program.
pub open spec fn global_sigs(v: Seq<Spanned<HirGlobal>>) -> Seq<(SpannedV<Seq<char>>, SpannedV<RawTypeV>)> {
    v.map_values(|g: Spanned<HirGlobal>| (g.inner.name@, g.inner.ty@))
}

/// The state after registering the globals from the `i`-th on, in order; the first unknown type
/// if one has one.
pub open spec fn globals_after(c: TcCtx, gs: Seq<(SpannedV<Seq<char>>, SpannedV<RawTypeV>)>, i: nat) -> Result<
    TcCtx,
    CompileError,
>
    decreases gs.len() - i,
{
    if i >= gs.len() {
        Ok(c)
    } else {
        match q_type(c.types, gs[i as int].1.inner) {
            None => Err(CompileError::UnknownType { at: gs[i as int].1.span }),
            Some(t) => globals_after(with_global(c, gs[i as int].0, t), gs, i + 1),
        }
    }
}

/// Registering globals keeps the types, scopes and loop depth, keeps a state well-formed, and
/// counts one symbol per global.
pub proof fn lemma_globals_after(c: TcCtx, gs: Seq<(SpannedV<Seq<char>>, SpannedV<RawTypeV>)>, i: nat)
    requires
        ctx_wf(c),
        i <= gs.len(),
    ensures
        globals_after(c, gs, i) matches Ok(cg) ==> {
            &&& ctx_wf(cg)
            &&& cg.types == c.types
            &&& cg.scopes == c.scopes
            &&& cg.loop_depth == c.loop_depth
            &&& cg.counter == c.counter + gs.len() - i
        },
    decreases gs.len() - i,
{
    if i < gs.len() {
        match q_type(c.types, gs[i as int].1.inner) {
            None => {},
            Some(t) => {
                lemma_with_global_wf(c, gs[i as int].0, t);
                lemma_globals_after(with_global(c, gs[i as int].0, t), gs, i + 1);
            },
        }
    }
}

/// The structs at positions `ix` of `ss`, in that order.
pub open spec fn pending_sigs(ss: Seq<(Seq<char>, DeclsV)>, ix: Seq<usize>) -> Seq<(Seq<char>, DeclsV)> {
    ix.map_values(|i: usize| ss[i as int])
}

/// One pass over the structs still to register, in order: each whose fields all have known
/// types is registered, and the others stay for the next pass. Gives the types known then and
/// the structs left.
pub open spec fn struct_pass(types: Map<Seq<char>, QualTypeV>, ps: Seq<(Seq<char>, DeclsV)>) -> (
    Map<Seq<char>, QualTypeV>,
    Seq<(Seq<char>, DeclsV)>,
)
    decreases ps.len(),
{
    if ps.len() == 0 {
        (types, Seq::empty())
    } else {
        let (t1, rest) = struct_pass(types, ps.drop_last());
        match struct_type_v(t1, ps.last().0, ps.last().1) {
            Ok(t) => (t1.insert(ps.last().0, t), rest),
            Err(_) => (t1, rest.push(ps.last())),
        }
    }
}

/// A pass leaves no more structs than it was given; one that registers none changes nothing.
pub proof fn lemma_struct_pass(types: Map<Seq<char>, QualTypeV>, ps: Seq<(Seq<char>, DeclsV)>)
    ensures
        struct_pass(types, ps).1.len() <= ps.len(),
        struct_pass(types, ps).1.len() == ps.len() ==> struct_pass(types, ps).0 == types && struct_pass(types, ps).1 == ps,
    decreases ps.len(),
{
    if ps.len() > 0 {
        lemma_struct_pass(types, ps.drop_last());
        let (t1, rest) = struct_pass(types, ps.drop_last());
        if struct_pass(types, ps).1.len() == ps.len() {
            assert(struct_type_v(t1, ps.last().0, ps.last().1) is Err);
            assert(rest.push(ps.last()) =~= ps);
        }
    }
}

/// A pass whose first struct can be registered registers at least one.
pub proof fn lemma_struct_pass_first(types: Map<Seq<char>, QualTypeV>, ps: Seq<(Seq<char>, DeclsV)>)
    requires
        ps.len() > 0,
        struct_type_v(types, ps[0].0, ps[0].1) is Ok,
    ensures
        struct_pass(types, ps).1.len() < ps.len(),
    decreases ps.len(),
{
    if ps.len() == 1 {
        assert(ps.drop_last() =~= Seq::<(Seq<char>, DeclsV)>::empty());
        assert(struct_pass(types, ps.drop_last()) == (types, Seq::<(Seq<char>, DeclsV)>::empty()));
        assert(ps.last() == ps[0]);
    } else {
        assert(ps.drop_last()[0] == ps[0]);
        lemma_struct_pass_first(types, ps.drop_last());
        let (t1, rest) = struct_pass(types, ps.drop_last());
        assert(rest.len() < ps.len() - 1);
    }
}

/// The types known by name once the structs `ps` are registered: passes are made over the
/// structs left until none is left, so that a struct may name one declared after it. When a
/// pass registers none, the first struct left gives the error.
pub open spec fn resolve_structs(types: Map<Seq<char>, QualTypeV>, ps: Seq<(Seq<char>, DeclsV)>) -> Result<
    Map<Seq<char>, QualTypeV>,
    CompileError,
>
    decreases ps.len(),
{
    if ps.len() == 0 {
        Ok(types)
    } else {
        let (t1, rest) = struct_pass(types, ps);
        if rest.len() < ps.len() {
            resolve_structs(t1, rest)
        } else {
            match struct_type_v(types, ps[0].0, ps[0].1) {
                Err(e) => Err(e),
                Ok(_) => Ok(types),
            }
        }
    }
}

/// The first error among the types of the functions from the `i`-th on.
pub open spec fn first_fn_error(types: Map<Seq<char>, QualTypeV>, fs: Seq<(DeclsV, SpannedV<RawTypeV>)>, i: nat) -> Option<
    CompileError,
>
    decreases fs.len() - i,
{
    if i >= fs.len() {
        None
    } else {
        match fn_type_v(types, fs[i as int].0, fs[i as int].1) {
            Err(e) => Some(e),
            Ok(_) => first_fn_error(types, fs, i + 1),
        }
    }
}

/// The top-level bindings after binding the functions from the `i`-th on, each to a symbol
/// numbered from `base` by its position.
pub open spec fn top_after(
    top: Map<Seq<char>, SymbolV>,
    names: Seq<SpannedV<Seq<char>>>,
    base: nat,
    i: nat,
) -> Map<Seq<char>, SymbolV>
    decreases names.len() - i,
{
    if i >= names.len() {
        top
    } else {
        top_after(top.insert(names[i as int].inner, (names[i as int].inner, (base + i) as usize)), names, base, i + 1)
    }
}

/// A name bound before binding more functions stays bound.
pub proof fn lemma_top_after_keeps(top: Map<Seq<char>, SymbolV>, names: Seq<SpannedV<Seq<char>>>, base: nat, i: nat, k: Seq<char>)
    requires
        top.contains_key(k),
    ensures
        top_after(top, names, base, i).contains_key(k),
    decreases names.len() - i,
{
    if i < names.len() {
        lemma_top_after_keeps(top.insert(names[i as int].inner, (names[i as int].inner, (base + i) as usize)), names, base, i + 1, k);
    }
}

/// Every function bound from the `i`-th on is bound afterwards.
pub proof fn lemma_top_after_contains(top: Map<Seq<char>, SymbolV>, names: Seq<SpannedV<Seq<char>>>, base: nat, i: nat, j: int)
    requires
        i <= j < names.len(),
    ensures
        top_after(top, names, base, i).contains_key(names[j].inner),
    decreases names.len() - i,
{
    let top2 = top.insert(names[i as int].inner, (names[i as int].inner, (base + i) as usize));
    if j == i {
        lemma_top_after_keeps(top2, names, base, i + 1, names[j].inner);
    } else {
        lemma_top_after_contains(top2, names, base, i + 1, j);
    }
}

/// The name and fields of each struct of a program.
pub open spec fn struct_sigs(v: Seq<Spanned<HirStruct>>) -> Seq<(Seq<char>, DeclsV)> {
    v.map_values(|s: Spanned<HirStruct>| (s.inner.name.inner@, decls_v(s.inner.fields@)))
}

/// The parameters and return type of each function of a program.
pub open spec fn fn_sigs(v: Seq<Spanned<HirFunction>>) -> Seq<(DeclsV, SpannedV<RawTypeV>)> {
    v.map_values(|f: Spanned<HirFunction>| (decls_v(f.inner.args@), f.inner.return_type@))
}

/// The name of each function of a program.
pub open spec fn fn_names(v: Seq<Spanned<HirFunction>>) -> Seq<SpannedV<Seq<char>>> {
    v.map_values(|f: Spanned<HirFunction>| f.inner.name@)
}

/// The table entry of the `j`-th function registered from state `c0`: its symbol, numbered
/// by its position, has the function's type.
pub open spec fn fn_entry(c0: TcCtx, c: TcCtx, types: Map<Seq<char>, QualTypeV>, names: Seq<SpannedV<Seq<char>>>, sigs: Seq<(DeclsV, SpannedV<RawTypeV>)>, j: int) -> bool {
    let sym = (names[j].inner, (c0.counter + j) as usize);
    let info = c.table[sym];
    &&& c.table.contains_key(sym)
    &&& info.symbol == sym
    &&& info.raw_name == names[j]
    &&& fn_type_v(types, sigs[j].0, sigs[j].1) matches Ok(t) && info.ty == t
    &&& info.kind == SymbolKind::Function
    &&& !info.address_taken
    &&& info.value matches Some(IRValue::Sym(m)) && m.0@ == names[j].inner
}

/// State `c` is state `cg` with the functions `names`, of signatures `sigs`, registered at
/// the top level, the types `types` known: each gets a fresh symbol numbered from the counter
/// of `cg` by its position, bound to its name, with its type in the table.
pub open spec fn fns_registered(
    cg: TcCtx,
    c: TcCtx,
    types: Map<Seq<char>, QualTypeV>,
    names: Seq<SpannedV<Seq<char>>>,
    sigs: Seq<(DeclsV, SpannedV<RawTypeV>)>,
) -> bool {
    let n = names.len();
    &&& ctx_wf(c)
    &&& c.types == types
    &&& c.scopes == cg.scopes
    &&& c.loop_depth == cg.loop_depth
    &&& c.counter == cg.counter + n
    &&& c.top == top_after(cg.top, names, cg.counter, 0)
    &&& forall|j: int| 0 <= j < n ==> #[trigger] fn_entry(cg, c, types, names, sigs, j)
    &&& forall|k: SymbolV| !(cg.counter <= k.1 < cg.counter + n) ==> (#[trigger] c.table.contains_key(k)
        == cg.table.contains_key(k) && (cg.table.contains_key(k) ==> c.table[k] == cg.table[k]))
}

/// What registering a program's top-level items from state `c0` gives: the struct types (see
/// `resolve_structs`), then the globals in order (see `globals_after`), then the functions;
/// the first error met, else `c`, which holds all of them (see `fns_registered`).
pub open spec fn top_level_resolved(
    c0: TcCtx,
    ss: Seq<(Seq<char>, DeclsV)>,
    gs: Seq<(SpannedV<Seq<char>>, SpannedV<RawTypeV>)>,
    names: Seq<SpannedV<Seq<char>>>,
    sigs: Seq<(DeclsV, SpannedV<RawTypeV>)>,
    c: TcCtx,
    r: Result<(), CompileError>,
) -> bool {
    match resolve_structs(c0.types, ss) {
        Err(e) => r == Err::<(), CompileError>(e),
        Ok(types) => match globals_after(TcCtx { types, ..c0 }, gs, 0) {
            Err(e) => r == Err::<(), CompileError>(e),
            Ok(cg) => match first_fn_error(types, sigs, 0) {
                Some(e) => r == Err::<(), CompileError>(e),
                None => r is Ok && fns_registered(cg, c, types, names, sigs),
            },
        },
    }
}

proof fn lemma_top_level_ok(
    c0: TcCtx,
    ss: Seq<(Seq<char>, DeclsV)>,
    gs: Seq<(SpannedV<Seq<char>>, SpannedV<RawTypeV>)>,
    names: Seq<SpannedV<Seq<char>>>,
    sigs: Seq<(DeclsV, SpannedV<RawTypeV>)>,
    types: Map<Seq<char>, QualTypeV>,
    cg: TcCtx,
    c: TcCtx,
)
    requires
        resolve_structs(c0.types, ss) == Ok::<Map<Seq<char>, QualTypeV>, CompileError>(types),
        globals_after(TcCtx { types, ..c0 }, gs, 0) == Ok::<TcCtx, CompileError>(cg),
        first_fn_error(types, sigs, 0) is None,
        fns_registered(cg, c, types, names, sigs),
    ensures
        top_level_resolved(c0, ss, gs, names, sigs, c, Ok(())),
{
}

impl CompilerContext {
    /// Registers the top-level items of a program: first every struct type, then every global
    /// variable, then every function, so that code may refer to items defined further down the
    /// file.
    #[verifier::spinoff_prover]
    pub fn resolve_top_level(&mut self, program: &ParsedProgram) -> (r: Result<(), CompileError>)
        requires
            ctx_wf(old(self).tc()),
            old(self).tc().counter + program.globals@.len() + program.functions@.len() <= usize::MAX,
        ensures
            top_level_resolved(
                old(self).tc(),
                struct_sigs(program.structs@),
                global_sigs(program.globals@),
                fn_names(program.functions@),
                fn_sigs(program.functions@),
                final(self).tc(),
                r,
            ),
    {
        let ghost c0 = self.tc();
        let ghost ss = struct_sigs(program.structs@);
        let n = program.structs.len();
        let mut pending: Vec<usize> = Vec::new();
        while pending.len() < n
            invariant
                pending@.len() <= n,
                n == program.structs@.len(),
                forall|k: int| 0 <= k < pending@.len() ==> pending@[k] == k,
            decreases n - pending@.len(),
        {
            pending.push(pending.len());
        }
        proof {
            assert(pending_sigs(ss, pending@) =~= ss);
        }
        while pending.len() > 0
            invariant
                n == program.structs@.len(),
                ss == struct_sigs(program.structs@),
                c0 == old(self).tc(),
                forall|k: int| 0 <= k < pending@.len() ==> pending@[k] < n,
                resolve_structs(c0.types, ss) == resolve_structs(self.tc().types, pending_sigs(ss, pending@)),
                self.tc() == (TcCtx { types: self.tc().types, ..c0 }),
            decreases pending@.len(),
        {
            let ghost t0 = self.tc().types;
            let ghost ps = pending_sigs(ss, pending@);
            let mut next: Vec<usize> = Vec::new();
            let mut k: usize = 0;
            while k < pending.len()
                invariant
                    n == program.structs@.len(),
                    ss == struct_sigs(program.structs@),
                    c0 == old(self).tc(),
                    ps == pending_sigs(ss, pending@),
                    forall|q: int| 0 <= q < pending@.len() ==> pending@[q] < n,
                    forall|q: int| 0 <= q < next@.len() ==> next@[q] < n,
                    k <= pending@.len(),
                    next@.len() <= k,
                    struct_pass(t0, ps.take(k as int)) == (self.tc().types, pending_sigs(ss, next@)),
                    self.tc() == (TcCtx { types: self.tc().types, ..c0 }),
                decreases pending@.len() - k,
            {
                let idx = pending[k];
                proof {
                    assert(ps.take(k + 1).drop_last() =~= ps.take(k as int));
                    assert(ps.take(k + 1).last() == ss[idx as int]);
                    assert(ss[idx as int] == (program.structs@[idx as int].inner.name.inner@, decls_v(program.structs@[idx as int].inner.fields@)));
                }
                match self.resolve_global_types(&program.structs[idx]) {
                    Ok(()) => {},
                    Err(_) => {
                        proof {
                            assert(pending_sigs(ss, next@.push(idx)) =~= pending_sigs(ss, next@).push(ss[idx as int]));
                        }
                        next.push(idx);
                    },
                }
                k += 1;
            }
            proof {
                assert(ps.take(pending@.len() as int) =~= ps);
                lemma_struct_pass(t0, ps);
            }
            if next.len() == pending.len() {
                let first = pending[0];
                proof {
                    assert(ss[first as int] == (program.structs@[first as int].inner.name.inner@, decls_v(program.structs@[first as int].inner.fields@)));
                }
                proof {
                    if struct_type_v(t0, ps[0].0, ps[0].1) is Ok {
                        lemma_struct_pass_first(t0, ps);
                    }
                }
                match self.resolve_global_types(&program.structs[first]) {
                    Ok(()) => {
                        return Ok(());
                    },
                    Err(e) => {
                        return Err(e);
                    },
                }
            }
            pending = next;
        }
        proof {
            assert(pending_sigs(ss, pending@) =~= Seq::<(Seq<char>, DeclsV)>::empty());
        }
        let ghost types = self.tc().types;
        let ghost cs = self.tc();
        let ghost gs = global_sigs(program.globals@);
        let mut g: usize = 0;
        while g < program.globals.len()
            invariant
                g <= program.globals@.len(),
                c0 == old(self).tc(),
                ctx_wf(self.tc()),
                ss == struct_sigs(program.structs@),
                gs == global_sigs(program.globals@),
                resolve_structs(c0.types, ss) == Ok::<Map<Seq<char>, QualTypeV>, CompileError>(types),
                cs == (TcCtx { types, ..c0 }),
                globals_after(cs, gs, 0) == globals_after(self.tc(), gs, g as nat),
                self.tc().types == types,
                self.tc().counter == c0.counter + g,
                c0.counter + program.globals@.len() + program.functions@.len() <= usize::MAX,
            decreases program.globals@.len() - g,
        {
            proof {
                assert(gs[g as int] == (program.globals@[g as int].inner.name@, program.globals@[g as int].inner.ty@));
            }
            let ghost cb = self.tc();
            match self.resolve_global_variables(&program.globals[g]) {
                Ok(()) => {},
                Err(e) => {
                    return Err(e);
                },
            }
            proof {
                if let Some(t) = q_type(cb.types, gs[g as int].1.inner) {
                    lemma_with_global_wf(cb, gs[g as int].0, t);
                }
            }
            g += 1;
        }
        let ghost cg = self.tc();
        proof {
            lemma_globals_after(cs, gs, 0);
        }
        let ghost names = fn_names(program.functions@);
        let ghost sigs = fn_sigs(program.functions@);
        let mut j: usize = 0;
        while j < program.functions.len()
            invariant
                j <= program.functions@.len(),
                c0 == old(self).tc(),
                cg.counter + program.functions@.len() <= usize::MAX,
                ctx_wf(cg),
                ctx_wf(self.tc()),
                names == fn_names(program.functions@),
                sigs == fn_sigs(program.functions@),
                ss == struct_sigs(program.structs@),
                gs == global_sigs(program.globals@),
                resolve_structs(c0.types, ss) == Ok::<Map<Seq<char>, QualTypeV>, CompileError>(types),
                globals_after(TcCtx { types, ..c0 }, gs, 0) == Ok::<TcCtx, CompileError>(cg),
                cg.types == types,
                first_fn_error(types, sigs, 0) == first_fn_error(types, sigs, j as nat),
                self.tc().types == types,
                self.tc().scopes == cg.scopes,
                self.tc().loop_depth == cg.loop_depth,
                self.tc().counter == cg.counter + j,
                top_after(cg.top, names, cg.counter, 0) == top_after(self.tc().top, names, cg.counter, j as nat),
                forall|jj: int| 0 <= jj < j ==> #[trigger] fn_entry(cg, self.tc(), types, names, sigs, jj),
                forall|k: SymbolV| !(cg.counter <= k.1 < cg.counter + j) ==> (#[trigger] self.tc().table.contains_key(k) == cg.table.contains_key(k) && (cg.table.contains_key(k) ==> self.tc().table[k] == cg.table[k])),
            decreases program.functions@.len() - j,
        {
            let ghost c1 = self.tc();
            proof {
                assert(names[j as int] == program.functions@[j as int].inner.name@);
                assert(sigs[j as int] == (decls_v(program.functions@[j as int].inner.args@), program.functions@[j as int].inner.return_type@));
            }
            match self.resolve_global_functions(&program.functions[j]) {
                Ok(()) => {},
                Err(e) => {
                    proof {
                        assert(first_fn_error(types, sigs, j as nat) == Some(e));
                    }
                    return Err(e);
                },
            }
            proof {
                let c2 = self.tc();
                let sym = (names[j as int].inner, c1.counter as usize);
                assert forall|k: SymbolV| !(cg.counter <= k.1 < cg.counter + j + 1) implies (#[trigger] c2.table.contains_key(k) == cg.table.contains_key(k) && (cg.table.contains_key(k) ==> c2.table[k] == cg.table[k])) by {
                    assert(k != sym);
                    assert(c1.table.contains_key(k) == cg.table.contains_key(k));
                }
                assert forall|jj: int| 0 <= jj < j + 1 implies #[trigger] fn_entry(cg, c2, types, names, sigs, jj) by {
                    if jj < j {
                        assert(fn_entry(cg, c1, types, names, sigs, jj));
                        let symj = (names[jj].inner, (cg.counter + jj) as usize);
                        assert(symj != sym);
                    }
                }
                assert forall|k: Seq<char>| #[trigger] c2.top.contains_key(k) implies c2.table.contains_key(c2.top[k]) by {
                    if k != names[j as int].inner {
                        assert(c1.top.contains_key(k));
                    }
                }
                assert forall|ii: int, k: Seq<char>|
                    0 <= ii < c2.scopes.len() && #[trigger] c2.scopes[ii].contains_key(k) implies c2.table.contains_key(
                    c2.scopes[ii][k],
                ) by {
                    assert(c1.scopes[ii].contains_key(k));
                }
            }
            j += 1;
        }
        proof {
            lemma_top_level_ok(c0, ss, gs, names, sigs, types, cg, self.tc());
        }
        Ok(())
    }
}

} // verus!
