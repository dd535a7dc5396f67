//! Types as the user wrote them, before names are resolved.
use crate::interner::{rc_share, Internable};
use crate::qual_type::{rc_str_eq, share_all, RcString};
use std::rc::Rc;
use vstd::prelude::*;

verus! {

#[derive(Debug)]
pub enum RawType {
    Base(RcString),
    Pointer(Rc<RawType>),
    Function { arg_types: Vec<Rc<RawType>>, return_type: Rc<RawType> },
}

pub enum RawTypeV {
    Base(Seq<char>),
    Pointer(Box<RawTypeV>),
    Function { arg_types: Seq<RawTypeV>, return_type: Box<RawTypeV> },
}

impl View for RawType {
    type V = RawTypeV;

    open spec fn view(&self) -> RawTypeV
        decreases self,
    {
        match self {
            RawType::Base(s) => RawTypeV::Base((**s)@),
            RawType::Pointer(p) => RawTypeV::Pointer(Box::new((**p)@)),
            RawType::Function { arg_types, return_type } => RawTypeV::Function {
                arg_types: Seq::new(
                    arg_types@.len(),
                    |i: int|
                        if 0 <= i < arg_types@.len() {
                            (*arg_types@[i])@
                        } else {
                            RawTypeV::Base(Seq::empty())
                        },
                ),
                return_type: Box::new((**return_type)@),
            },
        }
    }
}

impl RawType {
    fn deep_eq(&self, other: &RawType) -> (r: bool)
        ensures
            r == (self@ == other@),
        decreases self,
    {
        match (self, other) {
            (RawType::Base(a), RawType::Base(b)) => rc_str_eq(a, b),
            (RawType::Pointer(a), RawType::Pointer(b)) => a.deep_eq(b),
            (
                RawType::Function { arg_types: aa, return_type: ra },
                RawType::Function { arg_types: ab, return_type: rb },
            ) => {
                if aa.len() != ab.len() {
                    assert(self@->Function_arg_types.len() != other@->Function_arg_types.len());
                    return false;
                }
                let mut i: usize = 0;
                #[verifier::loop_isolation(false)]
                while i < aa.len()
                    invariant
                        0 <= i <= aa.len(),
                        forall|j: int|
                            0 <= j < i ==> self@->Function_arg_types[j]
                                == other@->Function_arg_types[j],
                    decreases aa.len() - i,
                {
                    proof {
                        broadcast use vstd::std_specs::vec::axiom_vec_index_decreases;
                        assert(decreases_to!(aa => aa@[i as int]));
                    }
                    if !aa[i].deep_eq(&ab[i]) {
                        assert(self@->Function_arg_types[i as int]
                            != other@->Function_arg_types[i as int]);
                        return false;
                    }
                    i += 1;
                }
                assert(self@->Function_arg_types =~= other@->Function_arg_types);
                ra.deep_eq(rb)
            },
            _ => false,
        }
    }

    fn shallow_copy(&self) -> (r: RawType)
        ensures
            r@ == self@,
    {
        match self {
            RawType::Base(s) => RawType::Base(rc_share(s)),
            RawType::Pointer(p) => RawType::Pointer(rc_share(p)),
            RawType::Function { arg_types, return_type } => {
                let v = share_all(arg_types);
                let r = RawType::Function { arg_types: v, return_type: rc_share(return_type) };
                proof {
                    assert(r@->Function_arg_types =~= self@->Function_arg_types);
                }
                r
            },
        }
    }
}

impl Internable for RawType {
    fn same(&self, other: &Self) -> (r: bool) {
        self.deep_eq(other)
    }

    fn duplicate(&self) -> (r: Self) {
        self.shallow_copy()
    }
}

/// How a raw type is written: its name, `*` before a pointee, or `fn(a, b):r`.
pub open spec fn raw_text(t: RawTypeV) -> Seq<char>
    decreases t,
{
    match t {
        RawTypeV::Base(name) => name,
        RawTypeV::Pointer(p) => seq!['*'] + raw_text(*p),
        RawTypeV::Function { arg_types, return_type } => seq!['f', 'n', '('] + raw_texts(arg_types) + seq![
            ')',
            ':',
        ] + raw_text(*return_type),
    }
}

/// The texts of a list of raw types, separated by `, `.
pub open spec fn raw_texts(s: Seq<RawTypeV>) -> Seq<char>
    decreases s,
{
    if s.len() == 0 {
        Seq::empty()
    } else if s.len() == 1 {
        raw_text(s[0])
    } else {
        raw_texts(s.subrange(0, s.len() - 1)) + seq![',', ' '] + raw_text(s[s.len() - 1])
    }
}

impl RawType {
    /// How the type is written (see `raw_text`).
    pub fn to_text(&self) -> (r: String)
        ensures
            r@ == raw_text(self@),
        decreases self,
    {
        match self {
            RawType::Base(name) => (**name).clone(),
            RawType::Pointer(p) => {
                let inner = p.to_text();
                proof {
                    reveal_strlit("*");
                }
                crate::text::join_str("*", inner.as_str())
            },
            RawType::Function { arg_types, return_type } => {
                let ghost args = self@->Function_arg_types;
                let mut out = "fn(".to_owned();
                proof {
                    reveal_strlit("fn(");
                    reveal_strlit(", ");
                    assert(args.subrange(0, 0) =~= Seq::<RawTypeV>::empty());
                    assert(out@ =~= seq!['f', 'n', '('] + raw_texts(args.subrange(0, 0)));
                }
                let mut i: usize = 0;
                #[verifier::loop_isolation(false)]
                while i < arg_types.len()
                    invariant
                        i <= arg_types@.len(),
                        args.len() == arg_types@.len(),
                        out@ == seq!['f', 'n', '('] + raw_texts(args.subrange(0, i as int)),
                    decreases arg_types@.len() - i,
                {
                    proof {
                        broadcast use vstd::std_specs::vec::axiom_vec_index_decreases;
                        assert(decreases_to!(arg_types => arg_types@[i as int]));
                        assert(args[i as int] == (*arg_types@[i as int])@);
                        let p = args.subrange(0, i + 1);
                        assert(p.subrange(0, i as int) =~= args.subrange(0, i as int));
                        assert(p[i as int] == args[i as int]);
                    }
                    let t = arg_types[i].to_text();
                    if i > 0 {
                        out = crate::text::join_str(out.as_str(), ", ");
                    }
                    out = crate::text::join_str(out.as_str(), t.as_str());
                    proof {
                        if i == 0 {
                            assert(args.subrange(0, 1).len() == 1);
                        }
                        assert(out@ =~= seq!['f', 'n', '('] + raw_texts(args.subrange(0, i + 1)));
                    }
                    i += 1;
                }
                proof {
                    assert(args.subrange(0, i as int) =~= args);
                    reveal_strlit("):");
                }
                out = crate::text::join_str(out.as_str(), "):");
                let ret = return_type.to_text();
                out = crate::text::join_str(out.as_str(), ret.as_str());
                proof {
                    assert(out@ =~= raw_text(self@));
                }
                out
            },
        }
    }
}

} // verus!
