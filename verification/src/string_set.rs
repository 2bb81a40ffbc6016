//! A set of strings that remembers the order in which its members arrived.

use crate::text::{str_eq, views};
use vstd::prelude::*;
use vstd::string::*;

verus! {

/// `s` with the occurrence of `k` taken out, if there is one.
pub open spec fn seq_without(s: Seq<Seq<char>>, k: Seq<char>) -> Seq<Seq<char>> {
    if s.contains(k) {
        s.remove(s.index_of(k))
    } else {
        s
    }
}

/// In a sequence without duplicates, removing at the position of `k` removes `k`.
pub proof fn lemma_seq_without(s: Seq<Seq<char>>, i: int)
    requires
        s.no_duplicates(),
        0 <= i < s.len(),
    ensures
        seq_without(s, s[i]) == s.remove(i),
        s.remove(i).no_duplicates(),
        s.remove(i).to_set() == s.to_set().remove(s[i]),
        !s.remove(i).contains(s[i]),
{
    assert(s.contains(s[i]));
    let j = s.index_of(s[i]);
    assert(j == i);
    let r = s.remove(i);
    assert forall|a: int, b: int| 0 <= a < r.len() && 0 <= b < r.len() && a != b implies r[a]
        != r[b] by {
        let a0 = if a < i { a } else { a + 1 };
        let b0 = if b < i { b } else { b + 1 };
        assert(r[a] == s[a0]);
        assert(r[b] == s[b0]);
    }
    assert forall|x: Seq<char>| r.to_set().contains(x) <==> s.to_set().remove(s[i]).contains(
        x,
    ) by {
        if r.contains(x) {
            let a = choose|a: int| 0 <= a < r.len() && r[a] == x;
            let a0 = if a < i { a } else { a + 1 };
            assert(r[a] == s[a0]);
            assert(s.contains(x));
        }
        if s.contains(x) && x != s[i] {
            let a0 = choose|a0: int| 0 <= a0 < s.len() && s[a0] == x;
            let a = if a0 < i { a0 } else { a0 - 1 };
            assert(r[a] == s[a0]);
            assert(r.contains(x));
        }
    }
    assert(r.to_set() =~= s.to_set().remove(s[i]));
    if r.contains(s[i]) {
        assert(r.to_set().contains(s[i]));
    }
}

/// Appending a new element to a sequence without duplicates keeps it so.
pub proof fn lemma_push_new(s: Seq<Seq<char>>, k: Seq<char>)
    requires
        s.no_duplicates(),
        !s.contains(k),
    ensures
        s.push(k).no_duplicates(),
        s.push(k).to_set() == s.to_set().insert(k),
{
    let r = s.push(k);
    assert forall|a: int, b: int| 0 <= a < r.len() && 0 <= b < r.len() && a != b implies r[a]
        != r[b] by {
        if a < s.len() {
            assert(s.contains(r[a]));
        }
        if b < s.len() {
            assert(s.contains(r[b]));
        }
    }
    s.lemma_push_to_set_commute(k);
}

/// A finite set of strings. Members are kept in the order of first insertion.
#[derive(Debug)]
pub struct StringSet {
    items: Vec<String>,
}

impl View for StringSet {
    type V = Set<Seq<char>>;

    open spec fn view(&self) -> Set<Seq<char>> {
        self.order().to_set()
    }
}

impl StringSet {
    #[verifier::type_invariant]
    spec fn inv(self) -> bool {
        views(self.items@).no_duplicates()
    }

    /// The members, oldest first.
    pub closed spec fn order(self) -> Seq<Seq<char>> {
        views(self.items@)
    }

    /// The empty set.
    pub fn new() -> (r: Self)
        ensures
            r@ == Set::<Seq<char>>::empty(),
            r.order() == Seq::<Seq<char>>::empty(),
    {
        let r = StringSet { items: Vec::new() };
        assert(r.order() =~= Seq::<Seq<char>>::empty());
        assert(r@ =~= Set::<Seq<char>>::empty());
        r
    }

    /// The number of members.
    pub fn len(&self) -> (r: usize)
        ensures
            r == self@.len(),
            r == self.order().len(),
            self.order().no_duplicates(),
            self@.finite(),
    {
        proof {
            use_type_invariant(self);
            self.order().unique_seq_to_set();
            vstd::seq_lib::seq_to_set_is_finite(self.order());
        }
        self.items.len()
    }

    /// Whether the set has no member.
    pub fn is_empty(&self) -> (r: bool)
        ensures
            r == self@.is_empty(),
            r == (self.order().len() == 0),
    {
        proof {
            if self.order().len() > 0 {
                assert(self.order().contains(self.order()[0]));
                assert(self@.contains(self.order()[0]));
            }
            assert(self.order().len() == 0 ==> self@ =~= Set::<Seq<char>>::empty());
        }
        self.items.len() == 0
    }

    fn take_items(&mut self) -> (r: Vec<String>)
        ensures
            r == old(self).items,
            views(r@).no_duplicates(),
    {
        proof {
            use_type_invariant(&*self);
        }
        let mut tmp = StringSet::new();
        core::mem::swap(self, &mut tmp);
        tmp.items
    }

    fn position(&self, k: &str) -> (r: Option<usize>)
        ensures
            match r {
                Some(i) => i < self.order().len() && self.order()[i as int] == k@,
                None => !self.order().contains(k@),
            },
    {
        let mut i: usize = 0;
        while i < self.items.len()
            invariant
                i <= self.items.len(),
                forall|j: int| 0 <= j < i ==> self.items@[j]@ != k@,
            decreases self.items.len() - i,
        {
            if str_eq(self.items[i].as_str(), k) {
                return Some(i);
            }
            i += 1;
        }
        None
    }

    /// Whether `k` is a member.
    pub fn contains(&self, k: &str) -> (r: bool)
        ensures
            r == self@.contains(k@),
    {
        self.position(k).is_some()
    }

    /// Adds `k`; returns whether it was new.
    pub fn insert(&mut self, k: String) -> (r: bool)
        ensures
            final(self)@ == old(self)@.insert(k@),
            r == !old(self)@.contains(k@),
            final(self).order() == (if r {
                old(self).order().push(k@)
            } else {
                old(self).order()
            }),
    {
        proof {
            use_type_invariant(&*self);
        }
        if self.position(k.as_str()).is_some() {
            assert(self@.insert(k@) =~= self@);
            false
        } else {
            let mut items = self.take_items();
            proof {
                lemma_push_new(views(items@), k@);
                assert(views(items@.push(k)) =~= views(items@).push(k@));
            }
            items.push(k);
            *self = StringSet { items };
            true
        }
    }

    /// Takes `k` out; returns whether it was a member.
    pub fn remove(&mut self, k: &str) -> (r: bool)
        ensures
            final(self)@ == old(self)@.remove(k@),
            r == old(self)@.contains(k@),
            final(self).order() == seq_without(old(self).order(), k@),
    {
        proof {
            use_type_invariant(&*self);
        }
        match self.position(k) {
            Some(i) => {
                let mut items = self.take_items();
                proof {
                    lemma_seq_without(views(items@), i as int);
                    assert(views(items@.remove(i as int)) =~= views(items@).remove(i as int));
                }
                items.remove(i);
                *self = StringSet { items };
                true
            },
            None => {
                assert(self@.remove(k@) =~= self@);
                false
            },
        }
    }

    /// Removes every member.
    pub fn clear(&mut self)
        ensures
            final(self)@ == Set::<Seq<char>>::empty(),
            final(self).order() == Seq::<Seq<char>>::empty(),
    {
        *self = StringSet::new();
    }

    /// The members as owned strings, oldest first.
    pub fn to_vec(&self) -> (r: Vec<String>)
        ensures
            views(r@) == self.order(),
            views(r@).no_duplicates(),
            views(r@).to_set() == self@,
    {
        proof {
            use_type_invariant(self);
        }
        let mut out: Vec<String> = Vec::new();
        let mut i: usize = 0;
        while i < self.items.len()
            invariant
                i <= self.items.len(),
                out@.len() == i,
                forall|j: int| 0 <= j < i ==> out@[j]@ == self.items@[j]@,
            decreases self.items.len() - i,
        {
            out.push(self.items[i].clone());
            i += 1;
        }
        assert(views(out@) =~= views(self.items@));
        out
    }

    /// An independent copy with the same members in the same order.
    pub fn duplicate(&self) -> (r: Self)
        ensures
            r@ == self@,
            r.order() == self.order(),
    {
        proof {
            use_type_invariant(self);
        }
        let items = self.to_vec();
        StringSet { items }
    }
}

impl Clone for StringSet {
    fn clone(&self) -> (r: Self)
        ensures
            r@ == self@,
            r.order() == self.order(),
    {
        self.duplicate()
    }
}

} // verus!
