//! A registry that stores values once each and hands out cheap, copyable ids for them.
use crate::interner::{distinct, interned, Internable};
use std::marker::PhantomData;
use vstd::prelude::*;

verus! {

/// A store of distinct values; each value is named by the `Id` of its position.
pub struct Registry<K: Internable> {
    vec: Vec<K>,
}

/// A copyable identifier of a value held by a `Registry`.
#[derive(Debug)]
pub struct Id<K> {
    index: usize,
    _pd: PhantomData<K>,
}

impl<K> Clone for Id<K> {
    fn clone(&self) -> (r: Self)
        ensures
            r == *self,
    {
        Id { index: self.index, _pd: PhantomData }
    }
}

impl<K> Copy for Id<K> {
}

impl<K> Id<K> {
    /// The position of the identified value in its registry.
    pub closed spec fn idx(self) -> nat {
        self.index as nat
    }

    pub fn new(index: usize) -> (r: Self)
        ensures
            r.idx() == index,
    {
        Id { index, _pd: PhantomData }
    }

    pub fn index(&self) -> (r: usize)
        ensures
            r == self.idx(),
    {
        self.index
    }

    /// Two ids are the same id exactly when their positions agree.
    pub proof fn lemma_ext(a: Self, b: Self)
        requires
            a.idx() == b.idx(),
        ensures
            a == b,
    {
    }
}

impl<K: Internable> View for Registry<K> {
    type V = Seq<K::V>;

    closed spec fn view(&self) -> Seq<K::V> {
        self.vec@.map_values(|k: K| k@)
    }
}

impl<K: Internable> Registry<K> {
    /// No value is held twice.
    #[verifier::type_invariant]
    pub open spec fn inv(self) -> bool {
        distinct(self@)
    }

    /// An empty registry.
    pub fn new() -> (r: Self)
        ensures
            r@ == Seq::<K::V>::empty(),
            distinct(r@),
    {
        let r = Registry { vec: Vec::new() };
        proof {
            assert(r.vec@.map_values(|k: K| k@) =~= Seq::<K::V>::empty());
        }
        r
    }

    /// The number of values held.
    pub fn len(&self) -> (r: usize)
        ensures
            r == self@.len(),
            distinct(self@),
    {
        proof {
            use_type_invariant(self);
        }
        self.vec.len()
    }

    /// Searches for `value`; returns its position if held.
    fn find(&self, value: &K) -> (r: Option<usize>)
        ensures
            match r {
                Some(i) => i < self@.len() && self@[i as int] == value@,
                None => !self@.contains(value@),
            },
    {
        let n = self.vec.len();
        let mut i: usize = 0;
        while i < n
            invariant
                n == self.vec@.len(),
                0 <= i <= n,
                forall|j: int| 0 <= j < i ==> self.vec@[j]@ != value@,
            decreases n - i,
        {
            if self.vec[i].same(value) {
                return Some(i);
            }
            i += 1;
        }
        proof {
            assert forall|k: int| 0 <= k < self@.len() implies self@[k] != value@ by {
                assert(self@[k] == self.vec@[k]@);
            }
        }
        None
    }

    /// Adds `value` and returns its id. A value that is already held keeps its original id, so
    /// this is also "get the id, adding the value if needed".
    pub fn add(&mut self, value: K) -> (r: Id<K>)
        requires
            old(self)@.len() < usize::MAX,
        ensures
            distinct(old(self)@),
            distinct(final(self)@),
            r.idx() < final(self)@.len(),
            final(self)@[r.idx() as int] == value@,
            final(self)@ == interned(old(self)@, value@),
            forall|j: int| 0 <= j < old(self)@.len() && old(self)@[j] == value@ ==> r.idx() == j,
            !old(self)@.contains(value@) ==> r.idx() == old(self)@.len(),
    {
        proof {
            use_type_invariant(&*self);
        }
        match self.find(&value) {
            Some(i) => Id::new(i),
            None => {
                let index = self.vec.len();
                let ghost old_view = self@;
                let mut v: Vec<K> = Vec::new();
                std::mem::swap(&mut v, &mut self.vec);
                v.push(value);
                proof {
                    assert(v@.map_values(|k: K| k@) =~= old_view.push(value@));
                }
                self.vec = v;
                Id::new(index)
            },
        }
    }

    /// Returns the id of `value` if it is held, and `None` otherwise.
    pub fn get(&self, value: &K) -> (r: Option<Id<K>>)
        ensures
            distinct(self@),
            match r {
                Some(id) => id.idx() < self@.len() && self@[id.idx() as int] == value@
                    && forall|j: int| 0 <= j < self@.len() && self@[j] == value@ ==> id.idx() == j,
                None => !self@.contains(value@),
            },
    {
        proof {
            use_type_invariant(self);
        }
        match self.find(value) {
            Some(i) => Some(Id::new(i)),
            None => None,
        }
    }

    /// The value that `id` names.
    pub fn lookup(&self, id: Id<K>) -> (r: &K)
        requires
            id.idx() < self@.len(),
        ensures
            r@ == self@[id.idx() as int],
            distinct(self@),
    {
        proof {
            use_type_invariant(self);
        }
        &self.vec[id.index]
    }
}

/// In a registry, which holds no value twice, a value has a single id: two positions holding
/// equal values are the same position.
pub proof fn law_one_id_per_value<V>(reg: Seq<V>, i: int, j: int)
    requires
        distinct(reg),
        0 <= i < reg.len(),
        0 <= j < reg.len(),
        reg[i] == reg[j],
    ensures
        i == j,
{
}

/// What was added is what the id it got looks up: after adding `v`, the registry holds `v` at
/// some position, and adding it again changes nothing.
pub proof fn law_add_then_lookup<V>(reg: Seq<V>, v: V)
    ensures
        exists|i: int| 0 <= i < interned(reg, v).len() && #[trigger] interned(reg, v)[i] == v,
        interned(interned(reg, v), v) == interned(reg, v),
{
    crate::interner::law_intern_idempotent(reg, v);
}

impl<K: Internable> Default for Registry<K> {
    fn default() -> (r: Self)
        ensures
            r@ == Seq::<K::V>::empty(),
            distinct(r@),
    {
        Registry::new()
    }
}

/// The registry after adding each of `vs` in turn.
pub open spec fn added_all<V>(reg: Seq<V>, vs: Seq<V>) -> Seq<V>
    decreases vs.len(),
{
    if vs.len() == 0 {
        reg
    } else {
        interned(added_all(reg, vs.drop_last()), vs.last())
    }
}

/// Lookup inverts add, whatever is added later: the id that adding `v` gave still names `v`
/// after any further values are added.
pub proof fn law_id_survives_adds<V>(reg: Seq<V>, i: int, vs: Seq<V>)
    requires
        0 <= i < reg.len(),
    ensures
        i < added_all(reg, vs).len(),
        added_all(reg, vs)[i] == reg[i],
    decreases vs.len(),
{
    if vs.len() > 0 {
        law_id_survives_adds(reg, i, vs.drop_last());
    }
}

} // verus!
