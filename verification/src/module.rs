//! The symbols of the module being compiled.
use crate::function::FunctionBuilder;
use crate::ir_types::{IRType, IRValue, ModuleSymbol};
use crate::label::{str_less, str_lt};
use crate::stir::IRInstr;
use vstd::prelude::*;
use vstd::string::StringSliceAdditionalSpecFns;

verus! {

/// Gives up ownership of a string for the rest of the run (`String::leak`): the text stays
/// allocated and is returned as a `'static` slice with the same characters.
#[verifier::external_body]
fn leak_string(s: String) -> (r: &'static str)
    ensures
        r@ == s@,
{
    s.leak()
}

/// The layout of a structure: its size and alignment, and the types of its fields.
#[derive(Debug)]
pub struct StructDef {
    pub size: usize,
    pub alignment: usize,
    pub fields: Vec<IRType>,
}

/// The symbols that a module defines, each with the name it was added under.
pub struct ModuleBuilder {
    pub symbols: Vec<(String, ModuleSymbol)>,
    /// The lowered functions, each with its module symbol, ordered by symbol.
    pub functions: Vec<(ModuleSymbol, FunctionBuilder<IRInstr, IRValue, IRType>)>,
    pub reg_count: usize,
    pub block_count: usize,
}

impl ModuleBuilder {
    /// A module with no symbols.
    pub fn new() -> (r: Self)
        ensures
            r.symbols@.len() == 0,
            r.functions@.len() == 0,
            r.reg_count == 0,
            r.block_count == 0,
    {
        ModuleBuilder { symbols: Vec::new(), functions: Vec::new(), reg_count: 0, block_count: 0 }
    }

    /// Adds a symbol named `name` and returns it.
    pub fn add_symbol(&mut self, name: String) -> (r: ModuleSymbol)
        ensures
            r.0@ == name@,
            final(self).symbols@.len() == old(self).symbols@.len() + 1,
            final(self).symbols@.last().0@ == name@,
            final(self).symbols@.last().1 == r,
            final(self).symbols@.drop_last() == old(self).symbols@,
            final(self).reg_count == old(self).reg_count,
            final(self).block_count == old(self).block_count,
            final(self).functions == old(self).functions,
    {
        let symbol = ModuleSymbol(leak_string(name.clone()));
        self.symbols.push((name, symbol));
        proof {
            assert(self.symbols@.drop_last() =~= old(self).symbols@);
        }
        symbol
    }
}

/// The symbol added last under the name `name`.
pub open spec fn symbol_named(syms: Seq<(String, ModuleSymbol)>, name: Seq<char>) -> Option<ModuleSymbol>
    decreases syms.len(),
{
    if syms.len() == 0 {
        None
    } else if syms.last().0@ == name {
        Some(syms.last().1)
    } else {
        symbol_named(syms.drop_last(), name)
    }
}

/// The bytes of a module symbol's name.
pub open spec fn sym_key(s: ModuleSymbol) -> Seq<u8> {
    s.0.spec_bytes()
}

/// `fs`, ordered by symbol, with `e` added in its place, or in place of the entry whose symbol
/// neither comes before nor after its own.
pub open spec fn insert_by_symbol<F>(fs: Seq<(ModuleSymbol, F)>, e: (ModuleSymbol, F)) -> Seq<(ModuleSymbol, F)>
    decreases fs.len(),
{
    if fs.len() == 0 {
        seq![e]
    } else if str_lt(sym_key(fs[0].0), sym_key(e.0)) {
        seq![fs[0]] + insert_by_symbol(fs.drop_first(), e)
    } else if str_lt(sym_key(e.0), sym_key(fs[0].0)) {
        seq![e] + fs
    } else {
        seq![e] + fs.drop_first()
    }
}

proof fn lemma_insert_skip<F>(fs: Seq<(ModuleSymbol, F)>, e: (ModuleSymbol, F), i: int)
    requires
        0 <= i <= fs.len(),
        forall|j: int| 0 <= j < i ==> str_lt(sym_key(#[trigger] fs[j].0), sym_key(e.0)),
    ensures
        insert_by_symbol(fs, e) == fs.subrange(0, i) + insert_by_symbol(fs.subrange(i, fs.len() as int), e),
    decreases i,
{
    if i == 0 {
        assert(fs.subrange(0, 0) + insert_by_symbol(fs.subrange(0, fs.len() as int), e) =~= insert_by_symbol(fs, e)) by {
            assert(fs.subrange(0, fs.len() as int) =~= fs);
        }
    } else {
        let rest = fs.drop_first();
        assert forall|j: int| 0 <= j < i - 1 implies str_lt(sym_key(#[trigger] rest[j].0), sym_key(e.0)) by {
            assert(rest[j] == fs[j + 1]);
        }
        lemma_insert_skip(rest, e, i - 1);
        assert(rest.subrange(i - 1, rest.len() as int) =~= fs.subrange(i, fs.len() as int));
        assert(seq![fs[0]] + rest.subrange(0, i - 1) =~= fs.subrange(0, i));
        assert(str_lt(sym_key(fs[0].0), sym_key(e.0)));
        assert(insert_by_symbol(fs, e) == seq![fs[0]] + insert_by_symbol(rest, e));
        assert(seq![fs[0]] + (rest.subrange(0, i - 1) + insert_by_symbol(rest.subrange(i - 1, rest.len() as int), e))
            =~= fs.subrange(0, i) + insert_by_symbol(fs.subrange(i, fs.len() as int), e));
    }
}

impl ModuleBuilder {
    /// The symbol added last under `name`, if any.
    pub fn symbol_of(&self, name: &String) -> (r: Option<ModuleSymbol>)
        ensures
            r == symbol_named(self.symbols@, name@),
    {
        let mut i: usize = self.symbols.len();
        proof {
            assert(self.symbols@.subrange(0, i as int) =~= self.symbols@);
        }
        while i > 0
            invariant
                i <= self.symbols@.len(),
                symbol_named(self.symbols@, name@) == symbol_named(self.symbols@.subrange(0, i as int), name@),
            decreases i,
        {
            let ghost pre = self.symbols@.subrange(0, i as int);
            proof {
                assert(pre.drop_last() =~= self.symbols@.subrange(0, i - 1));
                assert(pre.last() == self.symbols@[i - 1]);
            }
            if self.symbols[i - 1].0.eq(name) {
                return Some(self.symbols[i - 1].1);
            }
            i -= 1;
        }
        None
    }

    /// Adds a lowered function under the module symbol of its name, in its place by symbol; a
    /// function already there under the same symbol is replaced.
    pub fn add_function(&mut self, function: FunctionBuilder<IRInstr, IRValue, IRType>)
        requires
            symbol_named(old(self).symbols@, function.name_v()) is Some,
        ensures
            final(self).functions@ == insert_by_symbol(
                old(self).functions@,
                (symbol_named(old(self).symbols@, function.name_v())->Some_0, function),
            ),
            final(self).symbols == old(self).symbols,
            final(self).reg_count == old(self).reg_count,
            final(self).block_count == old(self).block_count,
    {
        let symbol = match self.symbol_of(function.getName()) {
            Some(s) => s,
            None => {
                return;
            },
        };
        let ghost e = (symbol, function);
        let ghost fs = self.functions@;
        let mut i: usize = 0;
        while i < self.functions.len() && str_less(self.functions[i].0.0, symbol.0)
            invariant
                fs == self.functions@,
                i <= fs.len(),
                forall|j: int| 0 <= j < i ==> str_lt(sym_key(#[trigger] fs[j].0), sym_key(symbol)),
            decreases fs.len() - i,
        {
            i += 1;
        }
        proof {
            lemma_insert_skip(fs, e, i as int);
            let tail = fs.subrange(i as int, fs.len() as int);
            if (i as int) < fs.len() {
                assert(tail[0] == fs[i as int]);
                assert(tail.drop_first() =~= fs.subrange(i + 1, fs.len() as int));
            }
        }
        if i < self.functions.len() && !str_less(symbol.0, self.functions[i].0.0) {
            let mut fsv: Vec<(ModuleSymbol, FunctionBuilder<IRInstr, IRValue, IRType>)> = Vec::new();
            std::mem::swap(&mut fsv, &mut self.functions);
            fsv.set(i, (symbol, function));
            self.functions = fsv;
            proof {
                assert(self.functions@ =~= fs.subrange(0, i as int) + (seq![e] + fs.subrange(i + 1, fs.len() as int)));
            }
        } else {
            self.functions.insert(i, (symbol, function));
            proof {
                assert(self.functions@ =~= fs.subrange(0, i as int) + (seq![e] + fs.subrange(i as int, fs.len() as int)));
            }
        }
    }

    /// The lowered functions, ordered by symbol.
    pub fn functions(&self) -> (r: &Vec<(ModuleSymbol, FunctionBuilder<IRInstr, IRValue, IRType>)>)
        ensures
            *r == self.functions,
    {
        &self.functions
    }
}

} // verus!
