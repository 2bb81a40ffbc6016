//! A map from strings to values that remembers the order in which its keys arrived.

use crate::string_set::{lemma_push_new, lemma_seq_without, seq_without};
use crate::text::{str_eq, views};
use vstd::prelude::*;
use vstd::string::*;

verus! {

/// The map that sends each key of `ks` to the value at the same position of `vs`.
pub open spec fn map_of<V>(ks: Seq<Seq<char>>, vs: Seq<V>) -> Map<Seq<char>, V> {
    Map::new(|k: Seq<char>| ks.contains(k), |k: Seq<char>| vs[ks.index_of(k)])
}

/// In a sequence without duplicates every element sits at the index `index_of` names.
pub proof fn lemma_index_of(ks: Seq<Seq<char>>, i: int)
    requires
        ks.no_duplicates(),
        0 <= i < ks.len(),
    ensures
        ks.contains(ks[i]),
        ks.index_of(ks[i]) == i,
{
    assert(ks.contains(ks[i]));
    let j = ks.index_of(ks[i]);
    assert(j == i);
}

/// Appending a fresh key with its value inserts that pair into the map.
pub proof fn lemma_map_push<V>(ks: Seq<Seq<char>>, vs: Seq<V>, k: Seq<char>, v: V)
    requires
        ks.no_duplicates(),
        ks.len() == vs.len(),
        !ks.contains(k),
    ensures
        map_of(ks.push(k), vs.push(v)) == map_of(ks, vs).insert(k, v),
{
    lemma_push_new(ks, k);
    let ks2 = ks.push(k);
    let vs2 = vs.push(v);
    assert forall|x: Seq<char>| ks2.contains(x) <==> (x == k || ks.contains(x)) by {
        if ks.contains(x) {
            let i = choose|i: int| 0 <= i < ks.len() && ks[i] == x;
            assert(ks2[i] == x);
        }
        if x == k {
            assert(ks2[ks.len() as int] == k);
        }
    }
    assert forall|x: Seq<char>| ks2.contains(x) implies #[trigger] map_of(ks2, vs2)[x] == map_of(
        ks,
        vs,
    ).insert(k, v)[x] by {
        let i = ks2.index_of(x);
        lemma_index_of(ks2, i);
        if x != k {
            let j = ks.index_of(x);
            assert(ks2[j] == x);
            assert(i == j);
        } else {
            assert(ks2[ks.len() as int] == k);
            assert(i == ks.len());
        }
    }
    assert(map_of(ks2, vs2) =~= map_of(ks, vs).insert(k, v));
}

/// Replacing the value at position `i` rebinds the key at that position.
pub proof fn lemma_map_update<V>(ks: Seq<Seq<char>>, vs: Seq<V>, i: int, v: V)
    requires
        ks.no_duplicates(),
        ks.len() == vs.len(),
        0 <= i < ks.len(),
    ensures
        map_of(ks, vs.update(i, v)) == map_of(ks, vs).insert(ks[i], v),
{
    lemma_index_of(ks, i);
    assert forall|x: Seq<char>| ks.contains(x) implies #[trigger] map_of(ks, vs.update(i, v))[x]
        == map_of(ks, vs).insert(ks[i], v)[x] by {
        let j = ks.index_of(x);
        if x != ks[i] {
            assert(j != i);
        }
    }
    assert(map_of(ks, vs.update(i, v)) =~= map_of(ks, vs).insert(ks[i], v));
}

/// Removing position `i` from keys and values unbinds the key at that position.
pub proof fn lemma_map_remove<V>(ks: Seq<Seq<char>>, vs: Seq<V>, i: int)
    requires
        ks.no_duplicates(),
        ks.len() == vs.len(),
        0 <= i < ks.len(),
    ensures
        map_of(ks.remove(i), vs.remove(i)) == map_of(ks, vs).remove(ks[i]),
{
    lemma_seq_without(ks, i);
    let ks2 = ks.remove(i);
    let vs2 = vs.remove(i);
    assert forall|x: Seq<char>| ks2.contains(x) <==> (ks.contains(x) && x != ks[i]) by {
        assert(ks2.to_set().contains(x) <==> ks.to_set().remove(ks[i]).contains(x));
    }
    assert forall|x: Seq<char>| ks2.contains(x) implies #[trigger] map_of(ks2, vs2)[x] == map_of(
        ks,
        vs,
    ).remove(ks[i])[x] by {
        let a = ks2.index_of(x);
        let a0 = if a < i { a } else { a + 1 };
        assert(ks2[a] == ks[a0]);
        lemma_index_of(ks, a0);
        assert(vs2[a] == vs[a0]);
    }
    assert(map_of(ks2, vs2) =~= map_of(ks, vs).remove(ks[i]));
}

/// A finite map keyed by strings. Keys are kept in the order of first insertion.
#[derive(Debug)]
pub struct StringMap<V> {
    keys: Vec<String>,
    values: Vec<V>,
}

impl<V> View for StringMap<V> {
    type V = Map<Seq<char>, V>;

    closed spec fn view(&self) -> Map<Seq<char>, V> {
        map_of(views(self.keys@), self.values@)
    }
}

impl<V> StringMap<V> {
    #[verifier::type_invariant]
    spec fn inv(self) -> bool {
        &&& self.keys@.len() == self.values@.len()
        &&& views(self.keys@).no_duplicates()
    }

    /// The keys, oldest first.
    pub closed spec fn order(self) -> Seq<Seq<char>> {
        views(self.keys@)
    }

    /// The bindings as pairs, oldest key first.
    pub open spec fn entries(self) -> Seq<(Seq<char>, V)> {
        Seq::new(self.order().len(), |i: int| (self.order()[i], self@[self.order()[i]]))
    }

    /// The empty map.
    pub fn new() -> (r: Self)
        ensures
            r@ == Map::<Seq<char>, V>::empty(),
            r.order() == Seq::<Seq<char>>::empty(),
    {
        let r = StringMap { keys: Vec::new(), values: Vec::new() };
        assert(r.order() =~= Seq::<Seq<char>>::empty());
        assert(r@ =~= Map::<Seq<char>, V>::empty());
        r
    }

    /// The number of bindings.
    pub fn len(&self) -> (r: usize)
        ensures
            r == self.order().len(),
            r == self@.dom().len(),
            self.order().no_duplicates(),
            self@.dom() == self.order().to_set(),
            self@.dom().finite(),
    {
        proof {
            use_type_invariant(self);
            self.order().unique_seq_to_set();
            vstd::seq_lib::seq_to_set_is_finite(self.order());
            assert(self@.dom() =~= self.order().to_set());
        }
        self.keys.len()
    }

    /// Whether the map has no binding.
    pub fn is_empty(&self) -> (r: bool)
        ensures
            r == (self.order().len() == 0),
            r == (self@ == Map::<Seq<char>, V>::empty()),
    {
        proof {
            if self.order().len() > 0 {
                assert(self.order().contains(self.order()[0]));
                assert(self@.contains_key(self.order()[0]));
            } else {
                assert(self@ =~= Map::<Seq<char>, V>::empty());
            }
        }
        self.keys.len() == 0
    }

    fn take_parts(&mut self) -> (r: (Vec<String>, Vec<V>))
        ensures
            r.0 == old(self).keys,
            r.1 == old(self).values,
            r.0@.len() == r.1@.len(),
            views(r.0@).no_duplicates(),
    {
        proof {
            use_type_invariant(&*self);
        }
        let mut tmp = StringMap::new();
        core::mem::swap(self, &mut tmp);
        (tmp.keys, tmp.values)
    }

    fn position(&self, k: &str) -> (r: Option<usize>)
        ensures
            match r {
                Some(i) => i < self.order().len() && self.order()[i as int] == k@
                    && self@.contains_key(k@) && self@[k@] == self.values@[i as int],
                None => !self.order().contains(k@) && !self@.contains_key(k@),
            },
    {
        proof {
            use_type_invariant(self);
        }
        let mut i: usize = 0;
        while i < self.keys.len()
            invariant
                i <= self.keys.len(),
                self.keys@.len() == self.values@.len(),
                views(self.keys@).no_duplicates(),
                forall|j: int| 0 <= j < i ==> self.keys@[j]@ != k@,
            decreases self.keys.len() - i,
        {
            if str_eq(self.keys[i].as_str(), k) {
                proof {
                    lemma_index_of(self.order(), i as int);
                }
                return Some(i);
            }
            i += 1;
        }
        None
    }

    /// Whether `k` is bound.
    pub fn contains_key(&self, k: &str) -> (r: bool)
        ensures
            r == self@.contains_key(k@),
    {
        self.position(k).is_some()
    }

    /// The value bound to `k`, if any.
    pub fn get(&self, k: &str) -> (r: Option<&V>)
        ensures
            match r {
                Some(v) => self@.contains_key(k@) && *v == self@[k@],
                None => !self@.contains_key(k@),
            },
    {
        proof {
            use_type_invariant(self);
        }
        match self.position(k) {
            Some(i) => Some(&self.values[i]),
            None => None,
        }
    }

    /// The value bound to `k`, if any, for updating in place.
    pub fn get_mut(&mut self, k: &str) -> (r: Option<&mut V>)
        ensures
            final(self).order() == old(self).order(),
            match r {
                Some(v) => old(self)@.contains_key(k@) && *v == old(self)@[k@] && final(self)@
                    == old(self)@.insert(k@, *final(v)),
                None => !old(self)@.contains_key(k@) && *final(self) == *old(self),
            },
    {
        proof {
            use_type_invariant(&*self);
        }
        match self.position(k) {
            Some(i) => {
                let ghost ks = views(self.keys@);
                let ghost vs = self.values@;
                let r = &mut self.values[i];
                proof {
                    lemma_map_update(ks, vs, i as int, *final(r));
                }
                Some(r)
            },
            None => None,
        }
    }

    /// Binds `k` to `v`; returns the value that `k` was bound to before.
    pub fn insert(&mut self, k: String, v: V) -> (r: Option<V>)
        ensures
            final(self)@ == old(self)@.insert(k@, v),
            final(self).order() == (if old(self)@.contains_key(k@) {
                old(self).order()
            } else {
                old(self).order().push(k@)
            }),
            r == (if old(self)@.contains_key(k@) {
                Some(old(self)@[k@])
            } else {
                None
            }),
    {
        match self.position(k.as_str()) {
            Some(i) => {
                let (keys, mut values) = self.take_parts();
                proof {
                    lemma_map_update(views(keys@), values@, i as int, v);
                    assert(values@.push(v).update(i as int, v).drop_last() =~= values@.update(
                        i as int,
                        v,
                    ));
                }
                values.push(v);
                let prev = values.swap_remove(i);
                *self = StringMap { keys, values };
                Some(prev)
            },
            None => {
                let (mut keys, mut values) = self.take_parts();
                proof {
                    lemma_push_new(views(keys@), k@);
                    lemma_map_push(views(keys@), values@, k@, v);
                    assert(views(keys@.push(k)) =~= views(keys@).push(k@));
                }
                keys.push(k);
                values.push(v);
                *self = StringMap { keys, values };
                None
            },
        }
    }

    /// Unbinds `k`; returns the value that it was bound to.
    pub fn remove(&mut self, k: &str) -> (r: Option<V>)
        ensures
            final(self)@ == old(self)@.remove(k@),
            final(self).order() == seq_without(old(self).order(), k@),
            r == (if old(self)@.contains_key(k@) {
                Some(old(self)@[k@])
            } else {
                None
            }),
    {
        match self.position(k) {
            Some(i) => {
                let (mut keys, mut values) = self.take_parts();
                proof {
                    lemma_seq_without(views(keys@), i as int);
                    lemma_map_remove(views(keys@), values@, i as int);
                    assert(views(keys@.remove(i as int)) =~= views(keys@).remove(i as int));
                }
                keys.remove(i);
                let prev = values.remove(i);
                *self = StringMap { keys, values };
                Some(prev)
            },
            None => {
                assert(self@.remove(k@) =~= self@);
                None
            },
        }
    }

    /// Removes every binding.
    pub fn clear(&mut self)
        ensures
            final(self)@ == Map::<Seq<char>, V>::empty(),
            final(self).order() == Seq::<Seq<char>>::empty(),
    {
        *self = StringMap::new();
    }

    /// The keys as owned strings, oldest first.
    pub fn keys(&self) -> (r: Vec<String>)
        ensures
            views(r@) == self.order(),
            self.order().no_duplicates(),
            self@.dom() == self.order().to_set(),
    {
        proof {
            use_type_invariant(self);
            assert(self@.dom() =~= self.order().to_set());
        }
        let mut out: Vec<String> = Vec::new();
        let mut i: usize = 0;
        while i < self.keys.len()
            invariant
                i <= self.keys.len(),
                out@.len() == i,
                forall|j: int| 0 <= j < i ==> out@[j]@ == self.keys@[j]@,
            decreases self.keys.len() - i,
        {
            out.push(self.keys[i].clone());
            i += 1;
        }
        assert(views(out@) =~= views(self.keys@));
        out
    }
}

impl<V: Clone> Clone for StringMap<V> {
    fn clone(&self) -> (r: Self)
        ensures
            r.order() == self.order(),
            r@.dom() == self@.dom(),
            forall|k: Seq<char>| #[trigger] r@.contains_key(k) ==> cloned::<V>(self@[k], r@[k]),
    {
        proof {
            use_type_invariant(self);
        }
        let keys = self.keys();
        let mut values: Vec<V> = Vec::new();
        let mut i: usize = 0;
        while i < self.values.len()
            invariant
                i <= self.values.len(),
                values@.len() == i,
                forall|j: int| 0 <= j < i ==> cloned::<V>(self.values@[j], #[trigger] values@[j]),
            decreases self.values.len() - i,
        {
            values.push(self.values[i].clone());
            i += 1;
        }
        proof {
            assert(views(keys@).len() == keys@.len());
            assert(views(self.keys@).len() == self.keys@.len());
        }
        let r = StringMap { keys, values };
        proof {
            assert(r@.dom() =~= self@.dom());
            assert forall|k: Seq<char>| #[trigger] r@.contains_key(k) implies cloned::<V>(
                self@[k],
                r@[k],
            ) by {
                let j = self.order().index_of(k);
                assert(cloned::<V>(self.values@[j], values@[j]));
            }
        }
        r
    }
}

} // verus!
