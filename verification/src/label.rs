//! Labels of basic blocks.
use crate::span::str_eq;
use std::cmp::Ordering;
use std::marker::PhantomData;
use vstd::prelude::*;
use vstd::std_specs::cmp::PartialOrdSpecImpl;
use vstd::string::StringSliceAdditionalSpecFns;

verus! {

/// The label of a basic block: a name (possibly empty) and a number unique within its function,
/// for the instruction set `I`.
#[derive(Debug, Hash)]
pub struct Label<I>(pub &'static str, pub usize, pub PhantomData<I>);

impl<I> Label<I> {
    pub fn new(name: &'static str, index: usize) -> (r: Self)
        ensures
            r.0 == name,
            r.1 == index,
            r == Label::<I>(name, index, PhantomData),
    {
        Label(name, index, PhantomData)
    }

    /// How the label is written: `.` and its number, with its name and another `.` between them
    /// if it has a name.
    pub fn to_text(&self) -> (r: String)
        ensures
            r@ == if self.0@.len() == 0 {
                seq!['.'] + crate::text::decimal_v(self.1 as nat)
            } else {
                seq!['.'] + self.0@ + seq!['.'] + crate::text::decimal_v(self.1 as nat)
            },
    {
        proof {
            reveal_strlit(".");
        }
        let n = crate::text::decimal(self.1);
        if self.0.unicode_len() == 0 {
            crate::text::join_str(".", n.as_str())
        } else {
            let a = crate::text::join_str(".", self.0);
            let b = crate::text::join_str(a.as_str(), ".");
            crate::text::join_str(b.as_str(), n.as_str())
        }
    }

    /// The label's name.
    pub fn name(&self) -> (r: &'static str)
        ensures
            r == self.0,
    {
        self.0
    }
}

impl<I> Clone for Label<I> {
    fn clone(&self) -> (r: Self)
        ensures
            r == *self,
    {
        Label(self.0, self.1, PhantomData)
    }
}

impl<I> Copy for Label<I> {
}

impl<I> PartialEq for Label<I> {
    fn eq(&self, other: &Self) -> (r: bool) {
        str_eq(self.0, other.0) && self.1 == other.1
    }
}

impl<I> vstd::std_specs::cmp::PartialEqSpecImpl for Label<I> {
    open spec fn obeys_eq_spec() -> bool {
        true
    }

    open spec fn eq_spec(&self, other: &Self) -> bool {
        self.0@ == other.0@ && self.1 == other.1
    }
}

impl<I> Eq for Label<I> {
}

/// The order of two byte strings: by their first differing byte, a string before any longer
/// string it begins.
pub open spec fn byte_order(a: Seq<u8>, b: Seq<u8>) -> Ordering
    decreases a.len(),
{
    if a.len() == 0 {
        if b.len() == 0 {
            Ordering::Equal
        } else {
            Ordering::Less
        }
    } else if b.len() == 0 {
        Ordering::Greater
    } else if a[0] < b[0] {
        Ordering::Less
    } else if a[0] > b[0] {
        Ordering::Greater
    } else {
        byte_order(a.drop_first(), b.drop_first())
    }
}

/// The bytes of `s` from position `i` on.
spec fn bytes_from(s: Seq<u8>, i: usize) -> Seq<u8> {
    s.subrange(i as int, s.len() as int)
}

proof fn lemma_bytes_from_start(s: Seq<u8>)
    ensures
        bytes_from(s, 0) == s,
{
    assert(s.subrange(0, s.len() as int) =~= s);
}

proof fn lemma_bytes_from_step(s: Seq<u8>, i: usize)
    requires
        i < s.len(),
        s.len() <= usize::MAX,
    ensures
        bytes_from(s, i).len() > 0,
        bytes_from(s, i)[0] == s[i as int],
        bytes_from(s, i).drop_first() == bytes_from(s, (i + 1) as usize),
{
    assert(bytes_from(s, i).drop_first() =~= bytes_from(s, (i + 1) as usize));
}

/// Compares two byte strings as `str` does.
fn bytes_order(a: &[u8], b: &[u8]) -> (r: Ordering)
    ensures
        r == byte_order(a@, b@),
{
    let mut i: usize = 0;
    proof {
        lemma_bytes_from_start(a@);
        lemma_bytes_from_start(b@);
    }
    while i < a.len() && i < b.len()
        invariant
            i <= a@.len(),
            i <= b@.len(),
            byte_order(a@, b@) == byte_order(bytes_from(a@, i), bytes_from(b@, i)),
        decreases a@.len() - i,
    {
        proof {
            lemma_bytes_from_step(a@, i);
            lemma_bytes_from_step(b@, i);
        }
        if a[i] < b[i] {
            return Ordering::Less;
        }
        if a[i] > b[i] {
            return Ordering::Greater;
        }
        i += 1;
    }
    if i < a.len() {
        Ordering::Greater
    } else if i < b.len() {
        Ordering::Less
    } else {
        Ordering::Equal
    }
}

impl<I> PartialOrd for Label<I> {
    /// Labels are ordered by name, as strings, then by number.
    fn partial_cmp(&self, other: &Self) -> (r: Option<Ordering>) {
        let by_name = bytes_order(self.0.as_bytes(), other.0.as_bytes());
        match by_name {
            Ordering::Equal => {},
            _ => {
                return Some(by_name);
            },
        }
        if self.1 < other.1 {
            Some(Ordering::Less)
        } else if self.1 > other.1 {
            Some(Ordering::Greater)
        } else {
            Some(Ordering::Equal)
        }
    }
}

impl<I> PartialOrdSpecImpl for Label<I> {
    open spec fn obeys_partial_cmp_spec() -> bool {
        true
    }

    open spec fn partial_cmp_spec(&self, other: &Self) -> Option<Ordering> {
        match byte_order(self.0.spec_bytes(), other.0.spec_bytes()) {
            Ordering::Equal => Some(
                if self.1 < other.1 {
                    Ordering::Less
                } else if self.1 > other.1 {
                    Ordering::Greater
                } else {
                    Ordering::Equal
                },
            ),
            o => Some(o),
        }
    }
}

/// Whether the bytes `a` come before the bytes `b` in the order of `str`.
pub open spec fn str_lt(a: Seq<u8>, b: Seq<u8>) -> bool {
    byte_order(a, b) == Ordering::Less
}

/// Whether `a` comes before `b` in the order of `str`.
pub fn str_less(a: &str, b: &str) -> (r: bool)
    ensures
        r == str_lt(a.spec_bytes(), b.spec_bytes()),
{
    match bytes_order(a.as_bytes(), b.as_bytes()) {
        Ordering::Less => true,
        _ => false,
    }
}

} // verus!
