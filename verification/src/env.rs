//! Association lists and a stack of lexical scopes built on them.
use crate::interner::{rc_share, Internable};
use std::rc::Rc;
use vstd::prelude::*;

verus! {

impl<T: Internable> Internable for Rc<T> {
    fn same(&self, other: &Self) -> (r: bool) {
        (**self).same(&**other)
    }

    fn duplicate(&self) -> (r: Self) {
        rc_share(self)
    }
}

/// The pairs of `s`, each taken by its view.
pub open spec fn pairs_v<K: View, V: View>(s: Seq<(K, V)>) -> Seq<(K::V, V::V)> {
    s.map_values(|p: (K, V)| (p.0@, p.1@))
}

/// The map that a list of pairs stands for: a later pair overrides an earlier one of its key.
pub open spec fn map_of<K, V>(s: Seq<(K, V)>) -> Map<K, V>
    decreases s.len(),
{
    if s.len() == 0 {
        Map::empty()
    } else {
        map_of(s.drop_last()).insert(s.last().0, s.last().1)
    }
}

/// The map of a list of pairs, taken by their views.
pub open spec fn assoc_v<K: View, V: View>(s: Seq<(K, V)>) -> Map<K::V, V::V> {
    map_of(pairs_v(s))
}

/// If no pair from index `i` on has key `k`, the map of the first `i` pairs agrees with the map
/// of all of them on `k`.
proof fn lemma_map_of_suffix<K, V>(s: Seq<(K, V)>, i: int, k: K)
    requires
        0 <= i <= s.len(),
        forall|j: int| i <= j < s.len() ==> s[j].0 != k,
    ensures
        map_of(s.subrange(0, i)).contains_key(k) == map_of(s).contains_key(k),
        map_of(s).contains_key(k) ==> map_of(s.subrange(0, i))[k] == map_of(s)[k],
    decreases s.len() - i,
{
    if i < s.len() {
        lemma_map_of_suffix(s.drop_last(), i, k);
        assert(s.drop_last().subrange(0, i) =~= s.subrange(0, i));
    } else {
        assert(s.subrange(0, i) =~= s);
    }
}

/// The position of the pair that `assoc_v` keeps for `k`: the last pair with that key.
pub fn assoc_index<K: Internable, V: View>(s: &Vec<(K, V)>, k: &K) -> (r: Option<usize>)
    ensures
        match r {
            Some(i) => i < s@.len() && s@[i as int].0@ == k@ && assoc_v(s@).contains_key(k@)
                && assoc_v(s@)[k@] == s@[i as int].1@
                && forall|j: int| i < j < s@.len() ==> #[trigger] s@[j].0@ != k@,
            None => !assoc_v(s@).contains_key(k@),
        },
{
    let ghost ps = pairs_v(s@);
    let mut i = s.len();
    while i > 0
        invariant
            i <= s.len(),
            ps == pairs_v(s@),
            forall|j: int| i <= j < s.len() ==> ps[j].0 != k@,
        decreases i,
    {
        let j = i - 1;
        if s[j].0.same(k) {
            proof {
                lemma_map_of_suffix(ps, j + 1, k@);
                assert(ps.subrange(0, j + 1).drop_last() =~= ps.subrange(0, j as int));
            }
            proof {
                assert forall|jj: int| j < jj < s@.len() implies #[trigger] s@[jj].0@ != k@ by {
                    assert(ps[jj].0 == s@[jj].0@);
                }
            }
            return Some(j);
        }
        i = j;
    }
    proof {
        lemma_map_of_suffix(ps, 0, k@);
    }
    None
}

/// Looks `k` up in a list of pairs: the value that `assoc_v` gives it.
pub fn assoc_get<K: Internable, V: Internable>(s: &Vec<(K, V)>, k: &K) -> (r: Option<V>)
    ensures
        match r {
            Some(v) => assoc_v(s@).contains_key(k@) && v@ == assoc_v(s@)[k@],
            None => !assoc_v(s@).contains_key(k@),
        },
{
    match assoc_index(s, k) {
        Some(i) => Some(s[i].1.duplicate()),
        None => None,
    }
}

/// Replacing the value of the pair that `assoc_v` keeps for its key replaces that key's value.
pub proof fn lemma_assoc_update<K: View, V: View>(s: Seq<(K, V)>, i: int)
    requires
        0 <= i < s.len(),
        forall|j: int| i < j < s.len() ==> s[j].0@ != s[i].0@,
    ensures
        forall|v: V| #[trigger] assoc_v(s.update(i, (s[i].0, v))) == assoc_v(s).insert(s[i].0@, v@),
{
    assert forall|v: V| #[trigger] assoc_v(s.update(i, (s[i].0, v))) == assoc_v(s).insert(s[i].0@, v@) by {
        lemma_map_of_update(pairs_v(s), i, (s[i].0@, v@));
        assert(pairs_v(s.update(i, (s[i].0, v))) =~= pairs_v(s).update(i, (s[i].0@, v@)));
    }
}

proof fn lemma_map_of_update<K, V>(s: Seq<(K, V)>, i: int, p: (K, V))
    requires
        0 <= i < s.len(),
        p.0 == s[i].0,
        forall|j: int| i < j < s.len() ==> s[j].0 != s[i].0,
    ensures
        map_of(s.update(i, p)) == map_of(s).insert(p.0, p.1),
    decreases s.len(),
{
    let t = s.update(i, p);
    if i == s.len() - 1 {
        assert(t.drop_last() =~= s.drop_last());
        assert(map_of(t) =~= map_of(s).insert(p.0, p.1));
    } else {
        lemma_map_of_update(s.drop_last(), i, p);
        assert(t.drop_last() =~= s.drop_last().update(i, p));
        assert(map_of(t) =~= map_of(s).insert(p.0, p.1));
    }
}

/// Adds the pair `(k, v)` at the end of a list of pairs, so that it overrides any earlier one.
pub fn assoc_insert<K: View, V: View>(s: &mut Vec<(K, V)>, k: K, v: V)
    ensures
        assoc_v(final(s)@) == assoc_v(old(s)@).insert(k@, v@),
        final(s)@ == old(s)@.push((k, v)),
{
    let ghost k_v = k@;
    let ghost v_v = v@;
    s.push((k, v));
    proof {
        assert(pairs_v(s@).drop_last() =~= pairs_v(old(s)@));
    }
}

/// The innermost binding of `k` in a stack of scopes, the innermost scope last.
pub open spec fn scopes_get<K, V>(ss: Seq<Map<K, V>>, k: K) -> Option<V>
    decreases ss.len(),
{
    if ss.len() == 0 {
        None
    } else if ss.last().contains_key(k) {
        Some(ss.last()[k])
    } else {
        scopes_get(ss.drop_last(), k)
    }
}

/// A stack of lexical scopes; the last scope is the innermost one. There is always at least one
/// scope.
pub struct Scopes<K: Internable, V: Internable> {
    scopes: Vec<Vec<(K, V)>>,
}

impl<K: Internable, V: Internable> View for Scopes<K, V> {
    type V = Seq<Map<K::V, V::V>>;

    closed spec fn view(&self) -> Seq<Map<K::V, V::V>> {
        self.scopes@.map_values(|s: Vec<(K, V)>| assoc_v(s@))
    }
}

impl<K: Internable, V: Internable> Scopes<K, V> {
    #[verifier::type_invariant]
    spec fn inv(self) -> bool {
        self.scopes@.len() > 0
    }

    /// The number of open scopes, which is never zero.
    pub fn depth(&self) -> (r: usize)
        ensures
            r == self@.len(),
            r > 0,
    {
        proof {
            use_type_invariant(self);
        }
        self.scopes.len()
    }

    /// One empty scope.
    pub fn new() -> (r: Self)
        ensures
            r@ == seq![Map::<K::V, V::V>::empty()],
    {
        let first: Vec<(K, V)> = Vec::new();
        let r = Scopes { scopes: vec![first] };
        proof {
            assert(pairs_v(first@) =~= Seq::empty());
            assert(r@ =~= seq![Map::<K::V, V::V>::empty()]);
        }
        r
    }

    /// One scope holding the bindings of `map`.
    pub fn with_base(map: Vec<(K, V)>) -> (r: Self)
        ensures
            r@ == seq![assoc_v(map@)],
    {
        let ghost m = assoc_v(map@);
        let r = Scopes { scopes: vec![map] };
        proof {
            assert(r@ =~= seq![m]);
        }
        r
    }

    /// Binds `name` to `val` in the innermost scope; the value it had there before, if any.
    pub fn insert(&mut self, name: K, val: V) -> (r: Option<V>)
        ensures
            final(self)@ == old(self)@.update(old(self)@.len() - 1, old(self)@.last().insert(name@, val@)),
            match r {
                Some(v) => old(self)@.last().contains_key(name@) && v@ == old(self)@.last()[name@],
                None => !old(self)@.last().contains_key(name@),
            },
    {
        proof {
            use_type_invariant(&*self);
        }
        let n = self.scopes.len();
        let placeholder: Vec<(K, V)> = Vec::new();
        let mut scopes: Vec<Vec<(K, V)>> = vec![placeholder];
        std::mem::swap(&mut scopes, &mut self.scopes);
        let ghost before = scopes@;
        let mut last = scopes.pop().unwrap();
        let prev = assoc_get(&last, &name);
        assoc_insert(&mut last, name, val);
        scopes.push(last);
        proof {
            assert(scopes@ == before.update(n - 1, scopes@[n - 1]));
        }
        self.scopes = scopes;
        proof {
            assert(self@ =~= old(self)@.update(old(self)@.len() - 1, old(self)@.last().insert(name@, val@)));
        }
        prev
    }

    /// The value of the innermost binding of `name`.
    pub fn get(&self, name: &K) -> (r: Option<V>)
        ensures
            match scopes_get(self@, name@) {
                Some(v) => r matches Some(x) && x@ == v,
                None => r is None,
            },
    {
        let mut i = self.scopes.len();
        proof {
            assert(self@.subrange(0, i as int) =~= self@);
        }
        while i > 0
            invariant
                i <= self.scopes@.len(),
                self@.len() == self.scopes@.len(),
                scopes_get(self@, name@) == scopes_get(self@.subrange(0, i as int), name@),
            decreases i,
        {
            let j = i - 1;
            proof {
                assert(self@.subrange(0, i as int).drop_last() =~= self@.subrange(0, j as int));
                assert(self@.subrange(0, i as int).last() == assoc_v(self.scopes@[j as int]@));
            }
            match assoc_get(&self.scopes[j], name) {
                Some(v) => {
                    return Some(v);
                },
                None => {},
            }
            i = j;
        }
        None
    }

    /// Opens a new, empty innermost scope.
    pub fn push_scope(&mut self)
        ensures
            final(self)@ == old(self)@.push(Map::empty()),
    {
        let fresh: Vec<(K, V)> = Vec::new();
        self.push_filled_scope(fresh);
        proof {
            assert(assoc_v(fresh@) =~= Map::<K::V, V::V>::empty()) by {
                assert(pairs_v(fresh@) =~= Seq::empty());
            }
        }
    }

    /// Opens a new innermost scope holding the bindings of `map`.
    pub fn push_filled_scope(&mut self, map: Vec<(K, V)>)
        ensures
            final(self)@ == old(self)@.push(assoc_v(map@)),
    {
        let placeholder: Vec<(K, V)> = Vec::new();
        let mut scopes: Vec<Vec<(K, V)>> = vec![placeholder];
        std::mem::swap(&mut scopes, &mut self.scopes);
        scopes.push(map);
        self.scopes = scopes;
        proof {
            assert(self@ =~= old(self)@.push(assoc_v(map@)));
        }
    }

    /// Closes the innermost scope, unless it is the only one.
    pub fn pop_scope(&mut self)
        ensures
            old(self)@.len() > 1 ==> final(self)@ == old(self)@.drop_last(),
            old(self)@.len() <= 1 ==> final(self)@ == old(self)@,
    {
        if self.scopes.len() > 1 {
            let placeholder: Vec<(K, V)> = Vec::new();
            let mut scopes: Vec<Vec<(K, V)>> = vec![placeholder];
            std::mem::swap(&mut scopes, &mut self.scopes);
            scopes.pop();
            self.scopes = scopes;
            proof {
                assert(self@ =~= old(self)@.drop_last());
            }
        }
    }
}

/// After binding `k` to `v` in the innermost scope, looking `k` up gives `v`.
pub proof fn law_get_after_insert<K, V>(ss: Seq<Map<K, V>>, k: K, v: V)
    requires
        ss.len() > 0,
    ensures
        scopes_get(ss.update(ss.len() - 1, ss.last().insert(k, v)), k) == Some(v),
{
}

/// Binding `k` leaves the lookup of every other name unchanged.
pub proof fn law_insert_keeps_others<K, V>(ss: Seq<Map<K, V>>, k: K, v: V, other: K)
    requires
        ss.len() > 0,
        other != k,
    ensures
        scopes_get(ss.update(ss.len() - 1, ss.last().insert(k, v)), other) == scopes_get(ss, other),
{
    let ss2 = ss.update(ss.len() - 1, ss.last().insert(k, v));
    assert(ss2.drop_last() =~= ss.drop_last());
}

/// Opening an empty scope changes no lookup, and closing it again gives back the scopes as they
/// were.
pub proof fn law_push_pop<K, V>(ss: Seq<Map<K, V>>, k: K)
    ensures
        scopes_get(ss.push(Map::empty()), k) == scopes_get(ss, k),
        ss.push(Map::empty()).drop_last() == ss,
{
    assert(ss.push(Map::empty()).drop_last() =~= ss);
}

/// A binding made in an inner scope is gone once that scope is closed.
pub proof fn law_inner_binding_scoped<K, V>(ss: Seq<Map<K, V>>, inner: Map<K, V>, k: K, v: V)
    ensures
        ss.push(inner.insert(k, v)).drop_last() == ss,
        scopes_get(ss.push(inner.insert(k, v)), k) == Some(v),
{
    assert(ss.push(inner.insert(k, v)).drop_last() =~= ss);
}

impl<K: Internable, V: Internable> Default for Scopes<K, V> {
    fn default() -> (r: Self)
        ensures
            r@ == seq![Map::<K::V, V::V>::empty()],
    {
        Scopes::new()
    }
}

/// An operation on a stack of scopes, as `Scopes` performs it.
#[verifier::reject_recursive_types(K)]
pub enum ScopeOp<K, V> {
    /// `push_scope` or `push_filled_scope`: a new innermost scope holding these bindings.
    Push(Map<K, V>),
    /// `insert`: a binding in the innermost scope.
    Insert(K, V),
    /// `pop_scope`: the innermost scope is closed, unless it is the only one.
    Pop,
}

/// The scopes after one operation.
pub open spec fn apply_op<K, V>(ss: Seq<Map<K, V>>, op: ScopeOp<K, V>) -> Seq<Map<K, V>> {
    match op {
        ScopeOp::Push(m) => ss.push(m),
        ScopeOp::Insert(k, v) => ss.update(ss.len() - 1, ss.last().insert(k, v)),
        ScopeOp::Pop => if ss.len() > 1 {
            ss.drop_last()
        } else {
            ss
        },
    }
}

/// The scopes after the operations `ops`, in order.
pub open spec fn apply_ops<K, V>(ss: Seq<Map<K, V>>, ops: Seq<ScopeOp<K, V>>) -> Seq<Map<K, V>>
    decreases ops.len(),
{
    if ops.len() == 0 {
        ss
    } else {
        apply_op(apply_ops(ss, ops.drop_last()), ops.last())
    }
}

/// Operations that keep at least `d` scopes open at every step.
pub open spec fn stays_deeper<K, V>(ss: Seq<Map<K, V>>, ops: Seq<ScopeOp<K, V>>, d: nat) -> bool {
    forall|i: int| 0 <= i <= ops.len() ==> #[trigger] apply_ops(ss, ops.take(i)).len() >= d
}

proof fn lemma_outer_scopes_kept<K, V>(ss: Seq<Map<K, V>>, ops: Seq<ScopeOp<K, V>>, d: nat)
    requires
        0 < d <= ss.len(),
        stays_deeper(ss, ops, d),
    ensures
        apply_ops(ss, ops).len() >= d,
        apply_ops(ss, ops).subrange(0, d - 1) == ss.subrange(0, d - 1),
    decreases ops.len(),
{
    assert(ops.take(ops.len() as int) =~= ops);
    assert(apply_ops(ss, ops.take(ops.len() as int)).len() >= d);
    if ops.len() > 0 {
        let pre = ops.drop_last();
        assert forall|i: int| 0 <= i <= pre.len() implies #[trigger] apply_ops(ss, pre.take(i)).len() >= d by {
            assert(pre.take(i) =~= ops.take(i));
            assert(apply_ops(ss, ops.take(i)).len() >= d);
        }
        lemma_outer_scopes_kept(ss, pre, d);
        let a = apply_ops(ss, pre);
        assert(apply_ops(ss, ops) == apply_op(a, ops.last()));
        assert(apply_op(a, ops.last()).subrange(0, d - 1) =~= a.subrange(0, d - 1));
    }
}

/// Closing a scope undoes opening it: after a push, any operations that never close the pushed
/// scope and end with it innermost, and a pop, every name looks up as before the push.
pub proof fn law_pop_undoes_push<K, V>(ss: Seq<Map<K, V>>, m: Map<K, V>, ops: Seq<ScopeOp<K, V>>, k: K)
    requires
        ss.len() > 0,
        stays_deeper(ss.push(m), ops, ss.len() + 1),
        apply_ops(ss.push(m), ops).len() == ss.len() + 1,
    ensures
        apply_op(apply_ops(ss.push(m), ops), ScopeOp::Pop) == ss,
        scopes_get(apply_op(apply_ops(ss.push(m), ops), ScopeOp::Pop), k) == scopes_get(ss, k),
{
    let s2 = ss.push(m);
    lemma_outer_scopes_kept(s2, ops, ss.len() + 1);
    let a = apply_ops(s2, ops);
    assert(s2.subrange(0, ss.len() as int) =~= ss);
    assert(a.drop_last() =~= a.subrange(0, ss.len() as int));
}

} // verus!
