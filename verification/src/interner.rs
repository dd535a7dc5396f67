//! A pool that hands out one shared, reference-counted copy of each distinct value.
use std::rc::Rc;
use vstd::prelude::*;

verus! {

/// Values that can be stored in an interning pool or a registry: they can be compared and
/// duplicated, both by their abstract view.
pub trait Internable: View + Sized {
    fn same(&self, other: &Self) -> (r: bool)
        ensures
            r == (self@ == other@),
    ;

    fn duplicate(&self) -> (r: Self)
        ensures
            r@ == self@,
    ;
}

impl Internable for String {
    fn same(&self, other: &Self) -> (r: bool) {
        self.eq(other)
    }

    fn duplicate(&self) -> (r: Self) {
        self.clone()
    }
}

/// Makes another reference-counted pointer to the same allocation.
#[verifier::external_body]
pub(crate) fn rc_share<T>(r: &Rc<T>) -> (res: Rc<T>)
    ensures
        res == *r,
{
    Rc::clone(r)
}

/// The pool after interning `v`: unchanged if it already holds `v`, else `v` added at the end.
pub open spec fn interned<V>(pool: Seq<V>, v: V) -> Seq<V> {
    if pool.contains(v) {
        pool
    } else {
        pool.push(v)
    }
}

/// No value occurs twice in `s`.
pub open spec fn distinct<A>(s: Seq<A>) -> bool {
    forall|i: int, j: int| 0 <= i < s.len() && 0 <= j < s.len() && i != j ==> s[i] != s[j]
}

/// An interning pool: `get` returns a shared copy of a value, allocating it the first time the
/// value is seen.
pub struct Pool<T: Internable> {
    vec: Vec<Rc<T>>,
}

impl<T: Internable> View for Pool<T> {
    type V = Seq<T::V>;

    closed spec fn view(&self) -> Seq<T::V> {
        self.vec@.map_values(|r: Rc<T>| (*r)@)
    }
}

impl<T: Internable> Pool<T> {
    #[verifier::type_invariant]
    spec fn inv(self) -> bool {
        distinct(self.vec@.map_values(|r: Rc<T>| (*r)@))
    }

    /// An empty pool.
    pub fn new() -> (r: Self)
        ensures
            r@ == Seq::<T::V>::empty(),
    {
        let r = Pool { vec: Vec::new() };
        proof {
            assert(r.vec@.map_values(|r: Rc<T>| (*r)@) =~= Seq::<T::V>::empty());
        }
        r
    }

    /// Number of distinct values held.
    pub fn len(&self) -> (r: usize)
        ensures
            r == self@.len(),
    {
        self.vec.len()
    }

    /// Returns the pool's copy of `item`, adding it first if no equal value is held yet.
    pub fn get(&mut self, item: &T) -> (r: Rc<T>)
        ensures
            r@ == item@,
            final(self)@ == interned(old(self)@, item@),
    {
        proof {
            use_type_invariant(&*self);
        }
        let n = self.vec.len();
        let mut i: usize = 0;
        while i < n
            invariant
                n == self.vec@.len(),
                0 <= i <= n,
                forall|j: int| 0 <= j < i ==> (*self.vec@[j])@ != item@,
            decreases n - i,
        {
            if (*self.vec[i]).same(item) {
                let r = rc_share(&self.vec[i]);
                proof {
                    assert(self@[i as int] == item@);
                }
                return r;
            }
            i += 1;
        }
        proof {
            assert forall|k: int| 0 <= k < self@.len() implies self@[k] != item@ by {
                assert(self@[k] == (*self.vec@[k])@);
            }
        }
        let r = Rc::new(item.duplicate());
        let ghost old_view = self@;
        let mut v: Vec<Rc<T>> = Vec::new();
        std::mem::swap(&mut v, &mut self.vec);
        v.push(rc_share(&r));
        proof {
            assert(v@.map_values(|r: Rc<T>| (*r)@) =~= old_view.push(item@));
        }
        self.vec = v;
        proof {
            assert(self@ =~= old_view.push(item@));
        }
        r
    }
}

/// Interning a value a second time changes nothing, and afterwards the pool holds the value.
pub proof fn law_intern_idempotent<V>(pool: Seq<V>, v: V)
    ensures
        interned(interned(pool, v), v) == interned(pool, v),
        interned(pool, v).contains(v),
{
    if !pool.contains(v) {
        assert(pool.push(v)[pool.len() as int] == v);
    }
}

/// Interning keeps every value already pooled, at its place, and keeps the pool free of
/// duplicates.
pub proof fn law_intern_keeps<V>(pool: Seq<V>, v: V)
    requires
        distinct(pool),
    ensures
        distinct(interned(pool, v)),
        interned(pool, v).len() >= pool.len(),
        forall|i: int| 0 <= i < pool.len() ==> #[trigger] interned(pool, v)[i] == pool[i],
{
}

impl<T: Internable> Default for Pool<T> {
    fn default() -> (r: Self)
        ensures
            r@ == Seq::<T::V>::empty(),
    {
        Pool::new()
    }
}

} // verus!
