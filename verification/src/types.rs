//! Types held in a registry and named by id, with the names of unresolved types kept as text.
use crate::interner::{distinct, Internable};
use crate::ir_types::IRType;
use crate::registry::{Id, Registry};
use crate::span::str_eq;
use vstd::prelude::*;

verus! {

pub type TypeId = Id<Type>;

#[derive(Debug)]
pub enum Type {
    Unresolved(&'static str),
    I8,
    I16,
    I32,
    I64,
    U8,
    U16,
    U32,
    U64,
    Bool,
    Void,
    Base { name: &'static str, fields: Vec<(&'static str, TypeId)> },
    Function { arg_types: Vec<TypeId>, return_type: TypeId },
    Pointer(TypeId),
}

/// The value of a type: names as text, type ids as positions in the registry.
pub enum TypeV {
    Unresolved(Seq<char>),
    I8,
    I16,
    I32,
    I64,
    U8,
    U16,
    U32,
    U64,
    Bool,
    Void,
    Base { name: Seq<char>, fields: Seq<(Seq<char>, nat)> },
    Function { arg_types: Seq<nat>, return_type: nat },
    Pointer(nat),
}

impl View for Type {
    type V = TypeV;

    open spec fn view(&self) -> TypeV {
        match self {
            Type::Unresolved(s) => TypeV::Unresolved(s@),
            Type::I8 => TypeV::I8,
            Type::I16 => TypeV::I16,
            Type::I32 => TypeV::I32,
            Type::I64 => TypeV::I64,
            Type::U8 => TypeV::U8,
            Type::U16 => TypeV::U16,
            Type::U32 => TypeV::U32,
            Type::U64 => TypeV::U64,
            Type::Bool => TypeV::Bool,
            Type::Void => TypeV::Void,
            Type::Base { name, fields } => TypeV::Base {
                name: name@,
                fields: fields@.map_values(|f: (&'static str, TypeId)| (f.0@, f.1.idx())),
            },
            Type::Function { arg_types, return_type } => TypeV::Function {
                arg_types: arg_types@.map_values(|t: TypeId| t.idx()),
                return_type: return_type.idx(),
            },
            Type::Pointer(p) => TypeV::Pointer(p.idx()),
        }
    }
}

pub open spec fn type_is_integral(t: TypeV) -> bool {
    t is I8 || t is U8 || t is I16 || t is U16 || t is I32 || t is U32 || t is I64 || t is U64
}

pub open spec fn type_bits(t: TypeV) -> nat {
    match t {
        TypeV::I8 | TypeV::U8 => 8,
        TypeV::I16 | TypeV::U16 => 16,
        TypeV::I32 | TypeV::U32 => 32,
        TypeV::I64 | TypeV::U64 => 64,
        TypeV::Bool => 1,
        TypeV::Void => 0,
        TypeV::Function { .. } | TypeV::Pointer(_) => 64,
        _ => 0,
    }
}

impl Type {
    pub fn is_integral(&self) -> (r: bool)
        ensures
            r == type_is_integral(self@),
    {
        matches!(
            self,
            Type::I8 | Type::U8 | Type::I16 | Type::U16 | Type::I32 | Type::U32 | Type::I64 | Type::U64
        )
    }

    pub fn is_primitive(&self) -> (r: bool)
        ensures
            r == (type_is_integral(self@) || self@ is Bool),
    {
        matches!(
            self,
            Type::I8 | Type::U8 | Type::I16 | Type::U16 | Type::I32 | Type::U32 | Type::I64 | Type::U64
                | Type::Bool
        )
    }

    pub fn is_signed(&self) -> (r: bool)
        ensures
            r == (self@ is I8 || self@ is I16 || self@ is I32 || self@ is I64),
    {
        matches!(self, Type::I8 | Type::I16 | Type::I32 | Type::I64)
    }

    /// Pointers, and named structures (handled by address), behave as pointers.
    pub fn is_pointer(&self) -> (r: bool)
        ensures
            r == (self@ is Pointer || self@ is Base),
    {
        matches!(self, Type::Pointer(..) | Type::Base { .. })
    }

    /// What a pointer type points to. A pointer to a function type is its own pointee: its id
    /// in `registry` is returned, added if needed. `None` for a type that is no pointer.
    pub fn get_pointee(&self, registry: &mut Registry<Type>) -> (r: Option<TypeId>)
        requires
            self@ is Pointer ==> (self@->Pointer_0) < old(registry)@.len(),
            old(registry)@.len() < usize::MAX,
        ensures
            distinct(final(registry)@),
            match self@ {
                TypeV::Pointer(p) => if old(registry)@[p as int] is Function {
                    r matches Some(id) && id.idx() < final(registry)@.len() && final(registry)@[id.idx() as int] == self@
                        && (forall|j: int| 0 <= j < old(registry)@.len() && old(registry)@[j] == self@ ==> id.idx() == j)
                        && (!old(registry)@.contains(self@) ==> id.idx() == old(registry)@.len())
                        && (old(registry)@.contains(self@) ==> final(registry)@ == old(registry)@)
                        && (!old(registry)@.contains(self@) ==> final(registry)@ == old(registry)@.push(self@))
                } else {
                    r matches Some(id) && id.idx() == p && final(registry)@ == old(registry)@
                },
                _ => r is None && final(registry)@ == old(registry)@,
            },
    {
        proof {
            use_type_invariant(&*registry);
        }
        match self {
            Type::Pointer(p) => {
                if matches!(registry.lookup(*p), Type::Function { .. }) {
                    Some(registry.add(self.duplicate()))
                } else {
                    Some(*p)
                }
            },
            _ => None,
        }
    }

    /// Alignment, which is the width in bits; structures are not supported.
    pub fn alignment(&self) -> (r: usize)
        requires
            !(self@ is Base),
            !(self@ is Unresolved),
        ensures
            r == type_bits(self@),
    {
        self.bits()
    }

    pub fn bits(&self) -> (r: usize)
        requires
            !(self@ is Base),
            !(self@ is Unresolved),
        ensures
            r == type_bits(self@),
    {
        match self {
            Type::I8 | Type::U8 => 8,
            Type::I16 | Type::U16 => 16,
            Type::I32 | Type::U32 => 32,
            Type::I64 | Type::U64 => 64,
            Type::Bool => 1,
            Type::Void => 0,
            _ => 64,
        }
    }

    /// Width in bytes, rounded up.
    pub fn bytes(&self) -> (r: usize)
        requires
            !(self@ is Base),
            !(self@ is Unresolved),
        ensures
            r == (type_bits(self@) + 7) / 8,
    {
        let b = self.bits();
        b / 8 + if b % 8 == 0 {
            0
        } else {
            1
        }
    }

    #[allow(non_snake_case)]
    pub fn toIRType(&self) -> (r: IRType)
        requires
            !(self@ is Unresolved),
        ensures
            r == match self@ {
                TypeV::I8 | TypeV::U8 | TypeV::Bool => IRType::I8,
                TypeV::I16 | TypeV::U16 => IRType::I16,
                TypeV::I32 | TypeV::U32 | TypeV::Void => IRType::I32,
                TypeV::I64 | TypeV::U64 => IRType::I64,
                _ => IRType::Ptr,
            },
    {
        match self {
            Type::I8 | Type::U8 => IRType::I8,
            Type::I16 | Type::U16 => IRType::I16,
            Type::I32 | Type::U32 | Type::Void => IRType::I32,
            Type::I64 | Type::U64 => IRType::I64,
            Type::Bool => IRType::I8,
            _ => IRType::Ptr,
        }
    }
}

fn ids_eq(a: &Vec<TypeId>, b: &Vec<TypeId>) -> (r: bool)
    ensures
        r == (a@.map_values(|t: TypeId| t.idx()) == b@.map_values(|t: TypeId| t.idx())),
{
    if a.len() != b.len() {
        return false;
    }
    let mut i: usize = 0;
    while i < a.len()
        invariant
            a@.len() == b@.len(),
            i <= a@.len(),
            forall|j: int| 0 <= j < i ==> a@[j].idx() == b@[j].idx(),
        decreases a@.len() - i,
    {
        if a[i].index() != b[i].index() {
            assert(a@.map_values(|t: TypeId| t.idx())[i as int] != b@.map_values(|t: TypeId| t.idx())[i as int]);
            return false;
        }
        i += 1;
    }
    assert(a@.map_values(|t: TypeId| t.idx()) =~= b@.map_values(|t: TypeId| t.idx()));
    true
}

fn fields_eq(a: &Vec<(&'static str, TypeId)>, b: &Vec<(&'static str, TypeId)>) -> (r: bool)
    ensures
        r == (a@.map_values(|f: (&'static str, TypeId)| (f.0@, f.1.idx())) == b@.map_values(
            |f: (&'static str, TypeId)| (f.0@, f.1.idx()),
        )),
{
    let ghost av = a@.map_values(|f: (&'static str, TypeId)| (f.0@, f.1.idx()));
    let ghost bv = b@.map_values(|f: (&'static str, TypeId)| (f.0@, f.1.idx()));
    if a.len() != b.len() {
        assert(av.len() != bv.len());
        return false;
    }
    let mut i: usize = 0;
    while i < a.len()
        invariant
            a@.len() == b@.len(),
            i <= a@.len(),
            av == a@.map_values(|f: (&'static str, TypeId)| (f.0@, f.1.idx())),
            bv == b@.map_values(|f: (&'static str, TypeId)| (f.0@, f.1.idx())),
            forall|j: int| 0 <= j < i ==> av[j] == bv[j],
        decreases a@.len() - i,
    {
        if !str_eq(a[i].0, b[i].0) || a[i].1.index() != b[i].1.index() {
            assert(av[i as int] != bv[i as int]);
            return false;
        }
        i += 1;
    }
    assert(av =~= bv);
    true
}

impl Internable for Type {
    fn same(&self, other: &Self) -> (r: bool) {
        match (self, other) {
            (Type::Unresolved(a), Type::Unresolved(b)) => str_eq(a, b),
            (Type::I8, Type::I8) => true,
            (Type::I16, Type::I16) => true,
            (Type::I32, Type::I32) => true,
            (Type::I64, Type::I64) => true,
            (Type::U8, Type::U8) => true,
            (Type::U16, Type::U16) => true,
            (Type::U32, Type::U32) => true,
            (Type::U64, Type::U64) => true,
            (Type::Bool, Type::Bool) => true,
            (Type::Void, Type::Void) => true,
            (Type::Base { name: na, fields: fa }, Type::Base { name: nb, fields: fb }) => str_eq(na, nb)
                && fields_eq(fa, fb),
            (
                Type::Function { arg_types: aa, return_type: ra },
                Type::Function { arg_types: ab, return_type: rb },
            ) => ra.index() == rb.index() && ids_eq(aa, ab),
            (Type::Pointer(a), Type::Pointer(b)) => a.index() == b.index(),
            _ => false,
        }
    }

    fn duplicate(&self) -> (r: Self) {
        match self {
            Type::Unresolved(s) => Type::Unresolved(s),
            Type::I8 => Type::I8,
            Type::I16 => Type::I16,
            Type::I32 => Type::I32,
            Type::I64 => Type::I64,
            Type::U8 => Type::U8,
            Type::U16 => Type::U16,
            Type::U32 => Type::U32,
            Type::U64 => Type::U64,
            Type::Bool => Type::Bool,
            Type::Void => Type::Void,
            Type::Base { name, fields } => {
                let mut v: Vec<(&'static str, TypeId)> = Vec::new();
                let mut i: usize = 0;
                while i < fields.len()
                    invariant
                        i <= fields@.len(),
                        v@ == fields@.subrange(0, i as int),
                    decreases fields@.len() - i,
                {
                    v.push((fields[i].0, fields[i].1));
                    proof {
                        assert(v@ =~= fields@.subrange(0, i + 1));
                    }
                    i += 1;
                }
                proof {
                    assert(v@ =~= fields@);
                }
                Type::Base { name, fields: v }
            },
            Type::Function { arg_types, return_type } => {
                let mut v: Vec<TypeId> = Vec::new();
                let mut i: usize = 0;
                while i < arg_types.len()
                    invariant
                        i <= arg_types@.len(),
                        v@ == arg_types@.subrange(0, i as int),
                    decreases arg_types@.len() - i,
                {
                    v.push(arg_types[i]);
                    proof {
                        assert(v@ =~= arg_types@.subrange(0, i + 1));
                    }
                    i += 1;
                }
                proof {
                    assert(v@ =~= arg_types@);
                }
                Type::Function { arg_types: v, return_type: *return_type }
            },
            Type::Pointer(p) => Type::Pointer(*p),
        }
    }
}

} // verus!
