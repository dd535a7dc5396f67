//! Fully resolved ("qualified") types of the source language.
use crate::interner::{rc_share, Internable, Pool};
use crate::ir_types::IRType;
use std::rc::Rc;
use vstd::prelude::*;

verus! {

/// A shared, interned string.
pub type RcString = Rc<String>;

#[derive(Debug)]
pub enum QualType {
    I8,
    I16,
    I32,
    I64,
    U8,
    U16,
    U32,
    U64,
    Bool,
    Void,
    Struct { name: RcString, field_names: Vec<RcString>, field_types: Vec<Rc<QualType>> },
    Function { arg_types: Vec<Rc<QualType>>, return_type: Rc<QualType> },
    Pointer(Rc<QualType>),
}

/// The mathematical value of a `QualType`: sharing is forgotten, names become character sequences.
pub enum QualTypeV {
    I8,
    I16,
    I32,
    I64,
    U8,
    U16,
    U32,
    U64,
    Bool,
    Void,
    Struct { name: Seq<char>, field_names: Seq<Seq<char>>, field_types: Seq<QualTypeV> },
    Function { arg_types: Seq<QualTypeV>, return_type: Box<QualTypeV> },
    Pointer(Box<QualTypeV>),
}

impl View for QualType {
    type V = QualTypeV;

    open spec fn view(&self) -> QualTypeV
        decreases self,
    {
        match self {
            QualType::I8 => QualTypeV::I8,
            QualType::I16 => QualTypeV::I16,
            QualType::I32 => QualTypeV::I32,
            QualType::I64 => QualTypeV::I64,
            QualType::U8 => QualTypeV::U8,
            QualType::U16 => QualTypeV::U16,
            QualType::U32 => QualTypeV::U32,
            QualType::U64 => QualTypeV::U64,
            QualType::Bool => QualTypeV::Bool,
            QualType::Void => QualTypeV::Void,
            QualType::Struct { name, field_names, field_types } => QualTypeV::Struct {
                name: (**name)@,
                field_names: strs_view(field_names@),
                field_types: Seq::new(
                    field_types@.len(),
                    |i: int|
                        if 0 <= i < field_types@.len() {
                            (*field_types@[i])@
                        } else {
                            QualTypeV::Void
                        },
                ),
            },
            QualType::Function { arg_types, return_type } => QualTypeV::Function {
                arg_types: Seq::new(
                    arg_types@.len(),
                    |i: int|
                        if 0 <= i < arg_types@.len() {
                            (*arg_types@[i])@
                        } else {
                            QualTypeV::Void
                        },
                ),
                return_type: Box::new((**return_type)@),
            },
            QualType::Pointer(p) => QualTypeV::Pointer(Box::new((**p)@)),
        }
    }
}

pub open spec fn is_integral_v(t: QualTypeV) -> bool {
    t is I8 || t is U8 || t is I16 || t is U16 || t is I32 || t is U32 || t is I64 || t is U64
}

pub open spec fn is_primitive_v(t: QualTypeV) -> bool {
    is_integral_v(t) || t is Bool
}

pub open spec fn is_signed_v(t: QualTypeV) -> bool {
    t is I8 || t is I16 || t is I32 || t is I64
}

/// Pointers, and structs (which are handled by address), behave as pointers.
pub open spec fn is_pointer_v(t: QualTypeV) -> bool {
    t is Pointer || t is Struct
}

/// Width in bits of a non-struct type.
pub open spec fn bits_v(t: QualTypeV) -> nat {
    match t {
        QualTypeV::I8 | QualTypeV::U8 => 8,
        QualTypeV::I16 | QualTypeV::U16 => 16,
        QualTypeV::I32 | QualTypeV::U32 => 32,
        QualTypeV::I64 | QualTypeV::U64 => 64,
        QualTypeV::Bool => 1,
        QualTypeV::Void => 0,
        QualTypeV::Function { .. } => 64,
        QualTypeV::Pointer(_) => 64,
        QualTypeV::Struct { .. } => 0,
    }
}

/// Width in bytes, rounded up.
pub open spec fn bytes_v(t: QualTypeV) -> nat {
    (bits_v(t) + 7) / 8
}

pub open spec fn ir_type_v(t: QualTypeV) -> IRType {
    match t {
        QualTypeV::I8 | QualTypeV::U8 => IRType::I8,
        QualTypeV::I16 | QualTypeV::U16 => IRType::I16,
        QualTypeV::I32 | QualTypeV::U32 | QualTypeV::Void => IRType::I32,
        QualTypeV::I64 | QualTypeV::U64 => IRType::I64,
        QualTypeV::Bool => IRType::I8,
        QualTypeV::Pointer(..) | QualTypeV::Struct { .. } | QualTypeV::Function { .. } => IRType::Ptr,
    }
}

/// A pointer to `t`; a function type is already used by address and stays as it is.
pub open spec fn pointer_to_v(t: QualTypeV) -> QualTypeV {
    match t {
        QualTypeV::Function { .. } => t,
        _ => QualTypeV::Pointer(Box::new(t)),
    }
}

impl QualType {
    pub fn is_integral(&self) -> (r: bool)
        ensures
            r == is_integral_v(self@),
    {
        matches!(
            self,
            QualType::I8 | QualType::U8 | QualType::I16 | QualType::U16 | QualType::I32
                | QualType::U32 | QualType::I64 | QualType::U64
        )
    }

    pub fn is_primitive(&self) -> (r: bool)
        ensures
            r == is_primitive_v(self@),
    {
        matches!(
            self,
            QualType::I8 | QualType::U8 | QualType::I16 | QualType::U16 | QualType::I32
                | QualType::U32 | QualType::I64 | QualType::U64 | QualType::Bool
        )
    }

    pub fn is_signed(&self) -> (r: bool)
        ensures
            r == is_signed_v(self@),
    {
        matches!(self, QualType::I8 | QualType::I16 | QualType::I32 | QualType::I64)
    }

    pub fn is_pointer(&self) -> (r: bool)
        ensures
            r == is_pointer_v(self@),
    {
        matches!(self, QualType::Pointer(..) | QualType::Struct { .. })
    }

    /// The type a pointer points to; `None` for any other type.
    pub fn get_pointee(&self) -> (r: Option<Rc<QualType>>)
        ensures
            match self@ {
                QualTypeV::Pointer(p) => r is Some && r->0@ == *p,
                _ => r is None,
            },
    {
        match self {
            QualType::Pointer(p) => Some(rc_share(p)),
            _ => None,
        }
    }

    /// The interned pointer-to-`self` type (function types are returned as they are).
    pub fn create_pointer(&self, pool: &mut Pool<QualType>) -> (r: Rc<QualType>)
        ensures
            r@ == pointer_to_v(self@),
    {
        match self {
            QualType::Function { .. } => pool.get(self),
            _ => {
                let inner = pool.get(self);
                pool.get(&QualType::Pointer(inner))
            },
        }
    }

    /// Alignment, which is the width in bits; struct layout is not supported.
    pub fn alignment(&self) -> (r: usize)
        requires
            !(self@ is Struct),
        ensures
            r == bits_v(self@),
    {
        self.bits()
    }

    pub fn bits(&self) -> (r: usize)
        requires
            !(self@ is Struct),
        ensures
            r == bits_v(self@),
    {
        match self {
            QualType::I8 | QualType::U8 => 8,
            QualType::I16 | QualType::U16 => 16,
            QualType::I32 | QualType::U32 => 32,
            QualType::I64 | QualType::U64 => 64,
            QualType::Bool => 1,
            QualType::Void => 0,
            QualType::Function { .. } => 64,
            QualType::Pointer(_) => 64,
            QualType::Struct { .. } => 0,
        }
    }

    pub fn bytes(&self) -> (r: usize)
        requires
            !(self@ is Struct),
        ensures
            r == bytes_v(self@),
    {
        let b = self.bits();
        b / 8 + if b % 8 == 0 { 0 } else { 1 }
    }

    #[allow(non_snake_case)]
    pub fn toIRType(&self) -> (r: IRType)
        ensures
            r == ir_type_v(self@),
    {
        match self {
            QualType::I8 | QualType::U8 => IRType::I8,
            QualType::I16 | QualType::U16 => IRType::I16,
            QualType::I32 | QualType::U32 | QualType::Void => IRType::I32,
            QualType::I64 | QualType::U64 => IRType::I64,
            QualType::Bool => IRType::I8,
            QualType::Pointer(..) => IRType::Ptr,
            QualType::Struct { .. } => IRType::Ptr,
            QualType::Function { .. } => IRType::Ptr,
        }
    }
}


/// Equality of two shared strings by content.
pub fn rc_str_eq(a: &RcString, b: &RcString) -> (r: bool)
    ensures
        r == ((**a)@ == (**b)@),
{
    let x: &String = &**a;
    let y: &String = &**b;
    x.eq(y)
}


/// Shares every element of `v`.
pub fn share_all<T>(v: &Vec<Rc<T>>) -> (r: Vec<Rc<T>>)
    ensures
        r@ == v@,
{
    let mut out: Vec<Rc<T>> = Vec::new();
    let mut i: usize = 0;
    while i < v.len()
        invariant
            0 <= i <= v.len(),
            out@ == v@.subrange(0, i as int),
        decreases v.len() - i,
    {
        out.push(rc_share(&v[i]));
        i += 1;
        proof {
            assert(out@ =~= v@.subrange(0, i as int));
        }
    }
    proof {
        assert(v@.subrange(0, v@.len() as int) =~= v@);
    }
    out
}

/// Shares every string of `v`.
pub fn share_all_str(v: &Vec<RcString>) -> (r: Vec<RcString>)
    ensures
        r@ == v@,
{
    share_all(v)
}

/// The contents of a sequence of shared strings.
pub open spec fn strs_view(v: Seq<RcString>) -> Seq<Seq<char>> {
    Seq::new(v.len(), |i: int| (*v[i])@)
}

/// Equality of two lists of shared strings by content.
pub fn rc_strs_eq(a: &Vec<RcString>, b: &Vec<RcString>) -> (r: bool)
    ensures
        r == (strs_view(a@) == strs_view(b@)),
{
    if a.len() != b.len() {
        assert(strs_view(a@).len() != strs_view(b@).len());
        return false;
    }
    let mut i: usize = 0;
    while i < a.len()
        invariant
            a.len() == b.len(),
            0 <= i <= a.len(),
            forall|j: int| 0 <= j < i ==> (*a@[j])@ == (*b@[j])@,
        decreases a.len() - i,
    {
        if !rc_str_eq(&a[i], &b[i]) {
            assert(strs_view(a@)[i as int] != strs_view(b@)[i as int]);
            return false;
        }
        i += 1;
    }
    assert(strs_view(a@) =~= strs_view(b@));
    true
}

impl QualType {
    /// Copies the outermost node, sharing the children.
    fn shallow_copy(&self) -> (r: QualType)
        ensures
            r@ == self@,
    {
        match self {
            QualType::I8 => QualType::I8,
            QualType::I16 => QualType::I16,
            QualType::I32 => QualType::I32,
            QualType::I64 => QualType::I64,
            QualType::U8 => QualType::U8,
            QualType::U16 => QualType::U16,
            QualType::U32 => QualType::U32,
            QualType::U64 => QualType::U64,
            QualType::Bool => QualType::Bool,
            QualType::Void => QualType::Void,
            QualType::Struct { name, field_names, field_types } => {
                let names = share_all_str(field_names);
                let types = share_all(field_types);
                let r = QualType::Struct { name: rc_share(name), field_names: names, field_types: types };
                proof {
                    assert(r@->Struct_field_names =~= self@->Struct_field_names);
                    assert(r@->Struct_field_types =~= self@->Struct_field_types);
                }
                r
            },
            QualType::Function { arg_types, return_type } => {
                let v = share_all(arg_types);
                let r = QualType::Function { arg_types: v, return_type: rc_share(return_type) };
                proof {
                    assert(r@->Function_arg_types =~= self@->Function_arg_types);
                }
                r
            },
            QualType::Pointer(p) => QualType::Pointer(rc_share(p)),
        }
    }

    /// Structural equality.
    pub fn deep_eq(&self, other: &QualType) -> (r: bool)
        ensures
            r == (self@ == other@),
        decreases self,
    {
        match (self, other) {
            (QualType::I8, QualType::I8) => true,
            (QualType::I16, QualType::I16) => true,
            (QualType::I32, QualType::I32) => true,
            (QualType::I64, QualType::I64) => true,
            (QualType::U8, QualType::U8) => true,
            (QualType::U16, QualType::U16) => true,
            (QualType::U32, QualType::U32) => true,
            (QualType::U64, QualType::U64) => true,
            (QualType::Bool, QualType::Bool) => true,
            (QualType::Void, QualType::Void) => true,
            (QualType::Pointer(a), QualType::Pointer(b)) => a.deep_eq(b),
            (
                QualType::Struct { name: na, field_names: fna, field_types: fta },
                QualType::Struct { name: nb, field_names: fnb, field_types: ftb },
            ) => {
                if !rc_str_eq(na, nb) {
                    return false;
                }
                if !rc_strs_eq(fna, fnb) {
                    assert(self@->Struct_field_names != other@->Struct_field_names);
                    return false;
                }
                if fta.len() != ftb.len() {
                    assert(self@->Struct_field_types.len() != other@->Struct_field_types.len());
                    return false;
                }
                let mut i: usize = 0;
                #[verifier::loop_isolation(false)]
                while i < fta.len()
                    invariant
                        0 <= i <= fta.len(),
                        forall|j: int|
                            0 <= j < i ==> self@->Struct_field_types[j]
                                == other@->Struct_field_types[j],
                    decreases fta.len() - i,
                {
                    proof {
                        broadcast use vstd::std_specs::vec::axiom_vec_index_decreases;
                        assert(decreases_to!(fta => fta@[i as int]));
                    }
                    if !fta[i].deep_eq(&ftb[i]) {
                        assert(self@->Struct_field_types[i as int]
                            != other@->Struct_field_types[i as int]);
                        return false;
                    }
                    i += 1;
                }
                assert(self@->Struct_field_types =~= other@->Struct_field_types);
                true
            },
            (
                QualType::Function { arg_types: aa, return_type: ra },
                QualType::Function { arg_types: ab, return_type: rb },
            ) => {
                if aa.len() != ab.len() {
                    assert(self@->Function_arg_types.len() != other@->Function_arg_types.len());
                    return false;
                }
                let mut i: usize = 0;
                #[verifier::loop_isolation(false)]
                while i < aa.len()
                    invariant
                        0 <= i <= aa.len(),
                        forall|j: int|
                            0 <= j < i ==> self@->Function_arg_types[j]
                                == other@->Function_arg_types[j],
                    decreases aa.len() - i,
                {
                    proof {
                        broadcast use vstd::std_specs::vec::axiom_vec_index_decreases;
                        assert(decreases_to!(aa => aa@[i as int]));
                    }
                    if !aa[i].deep_eq(&ab[i]) {
                        assert(self@->Function_arg_types[i as int]
                            != other@->Function_arg_types[i as int]);
                        return false;
                    }
                    i += 1;
                }
                assert(self@->Function_arg_types =~= other@->Function_arg_types);
                ra.deep_eq(rb)
            },
            _ => false,
        }
    }
}

impl Internable for QualType {
    fn same(&self, other: &Self) -> (r: bool) {
        self.deep_eq(other)
    }

    fn duplicate(&self) -> (r: Self) {
        self.shallow_copy()
    }
}

/// How a qualified type is written: primitives by their names, structures by theirs,
/// `*` before a pointee, and `fn(a, b):r` for functions.
pub open spec fn qual_text(t: QualTypeV) -> Seq<char>
    decreases t,
{
    match t {
        QualTypeV::I8 => seq!['i', '8'],
        QualTypeV::I16 => seq!['i', '1', '6'],
        QualTypeV::I32 => seq!['i', '3', '2'],
        QualTypeV::I64 => seq!['i', '6', '4'],
        QualTypeV::U8 => seq!['u', '8'],
        QualTypeV::U16 => seq!['u', '1', '6'],
        QualTypeV::U32 => seq!['u', '3', '2'],
        QualTypeV::U64 => seq!['u', '6', '4'],
        QualTypeV::Bool => seq!['b', 'o', 'o', 'l'],
        QualTypeV::Void => seq!['v', 'o', 'i', 'd'],
        QualTypeV::Struct { name, .. } => name,
        QualTypeV::Function { arg_types, return_type } => seq!['f', 'n', '('] + qual_texts(arg_types)
            + seq![')', ':'] + qual_text(*return_type),
        QualTypeV::Pointer(p) => seq!['*'] + qual_text(*p),
    }
}

/// The texts of a list of types, separated by `, `.
pub open spec fn qual_texts(s: Seq<QualTypeV>) -> Seq<char>
    decreases s,
{
    if s.len() == 0 {
        Seq::empty()
    } else if s.len() == 1 {
        qual_text(s[0])
    } else {
        qual_texts(s.subrange(0, s.len() - 1)) + seq![',', ' '] + qual_text(s[s.len() - 1])
    }
}

impl QualType {
    /// How the type is written (see `qual_text`).
    pub fn to_text(&self) -> (r: String)
        ensures
            r@ == qual_text(self@),
        decreases self,
    {
        let r = match self {
            QualType::I8 => "i8".to_owned(),
            QualType::I16 => "i16".to_owned(),
            QualType::I32 => "i32".to_owned(),
            QualType::I64 => "i64".to_owned(),
            QualType::U8 => "u8".to_owned(),
            QualType::U16 => "u16".to_owned(),
            QualType::U32 => "u32".to_owned(),
            QualType::U64 => "u64".to_owned(),
            QualType::Bool => "bool".to_owned(),
            QualType::Void => "void".to_owned(),
            QualType::Struct { name, .. } => (**name).clone(),
            QualType::Pointer(p) => {
                let inner = p.to_text();
                proof {
                    reveal_strlit("*");
                }
                crate::text::join_str("*", inner.as_str())
            },
            QualType::Function { arg_types, return_type } => {
                let ghost args = self@->Function_arg_types;
                let mut out = "fn(".to_owned();
                proof {
                    reveal_strlit("fn(");
                    reveal_strlit(", ");
                    assert(args.subrange(0, 0) =~= Seq::<QualTypeV>::empty());
                    assert(out@ =~= seq!['f', 'n', '('] + qual_texts(args.subrange(0, 0)));
                }
                let mut i: usize = 0;
                #[verifier::loop_isolation(false)]
                while i < arg_types.len()
                    invariant
                        i <= arg_types@.len(),
                        args.len() == arg_types@.len(),
                        out@ == seq!['f', 'n', '('] + qual_texts(args.subrange(0, i as int)),
                    decreases arg_types@.len() - i,
                {
                    proof {
                        broadcast use vstd::std_specs::vec::axiom_vec_index_decreases;
                        assert(decreases_to!(arg_types => arg_types@[i as int]));
                        assert(args[i as int] == (*arg_types@[i as int])@);
                        let p = args.subrange(0, i + 1);
                        assert(p.subrange(0, i as int) =~= args.subrange(0, i as int));
                        assert(p[i as int] == args[i as int]);
                    }
                    let t = arg_types[i].to_text();
                    if i > 0 {
                        out = crate::text::join_str(out.as_str(), ", ");
                    }
                    out = crate::text::join_str(out.as_str(), t.as_str());
                    proof {
                        if i == 0 {
                            assert(args.subrange(0, 1).len() == 1);
                        }
                        assert(out@ =~= seq!['f', 'n', '('] + qual_texts(args.subrange(0, i + 1)));
                    }
                    i += 1;
                }
                proof {
                    assert(args.subrange(0, i as int) =~= args);
                    reveal_strlit("):");
                }
                out = crate::text::join_str(out.as_str(), "):");
                let ret = return_type.to_text();
                out = crate::text::join_str(out.as_str(), ret.as_str());
                proof {
                    assert(out@ =~= qual_text(self@));
                }
                out
            },
        };
        proof {
            reveal_strlit("i8");
            reveal_strlit("i16");
            reveal_strlit("i32");
            reveal_strlit("i64");
            reveal_strlit("u8");
            reveal_strlit("u16");
            reveal_strlit("u32");
            reveal_strlit("u64");
            reveal_strlit("bool");
            reveal_strlit("void");
            assert(r@ =~= qual_text(self@));
        }
        r
    }
}

} // verus!
