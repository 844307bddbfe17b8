//! Verified collections keyed by strings.
//!
//! `StrMap` and `StrSet` store their entries in insertion order in a vector
//! with pairwise-distinct keys, which keeps every walk over them
//! deterministic.  Their views are the mathematical `Map` and `Set` over
//! character sequences that the library's contracts speak about.

use vstd::prelude::*;

verus! {

/// A finite map from strings to values, kept in insertion order.
#[derive(Debug, Clone)]
pub struct StrMap<V> {
    pairs: Vec<(String, V)>,
}

impl<V> View for StrMap<V> {
    type V = Map<Seq<char>, V>;

    closed spec fn view(&self) -> Map<Seq<char>, V> {
        Map::new(
            |k: Seq<char>|
                exists|i: int| 0 <= i < self.pairs@.len() && (#[trigger] self.pairs@[i]).0@ == k,
            |k: Seq<char>|
                {
                    let i = choose|i: int|
                        0 <= i < self.pairs@.len() && (#[trigger] self.pairs@[i]).0@ == k;
                    self.pairs@[i].1
                },
        )
    }
}

impl<V> StrMap<V> {
    /// Keys are pairwise distinct.
    pub closed spec fn wf(&self) -> bool {
        forall|i: int, j: int|
            0 <= i < j < self.pairs@.len() ==> (#[trigger] self.pairs@[i]).0@ != (
            #[trigger] self.pairs@[j]).0@
    }

    /// The number of entries.
    pub closed spec fn spec_len(&self) -> nat {
        self.pairs@.len()
    }

    /// The keys in insertion order.
    pub closed spec fn key_seq(&self) -> Seq<Seq<char>> {
        self.pairs@.map_values(|p: (String, V)| p.0@)
    }

    /// The values in insertion order.
    pub closed spec fn val_seq(&self) -> Seq<V> {
        self.pairs@.map_values(|p: (String, V)| p.1)
    }

    /// How the ordered entries relate to the map view.
    pub proof fn lemma_view_facts(&self)
        ensures
            self.key_seq().len() == self.spec_len(),
            self.val_seq().len() == self.spec_len(),
            forall|k: Seq<char>|
                self@.contains_key(k) <==> exists|i: int|
                    0 <= i < self.spec_len() && #[trigger] self.key_seq()[i] == k,
            self.wf() ==> forall|i: int|
                0 <= i < self.spec_len() ==> self@[#[trigger] self.key_seq()[i]] == self.val_seq()[i],
            self.wf() ==> forall|i: int, j: int|
                0 <= i < j < self.spec_len() ==> #[trigger] self.key_seq()[i] != (
                #[trigger] self.key_seq()[j]),
    {
        assert forall|k: Seq<char>|
            self@.contains_key(k) <==> exists|i: int|
                0 <= i < self.spec_len() && #[trigger] self.key_seq()[i] == k by {
            if self@.contains_key(k) {
                let i = choose|i: int|
                    0 <= i < self.pairs@.len() && (#[trigger] self.pairs@[i]).0@ == k;
                assert(self.key_seq()[i] == k);
            }
            if exists|i: int| 0 <= i < self.spec_len() && #[trigger] self.key_seq()[i] == k {
                let i = choose|i: int| 0 <= i < self.spec_len() && #[trigger] self.key_seq()[i] == k;
                assert(self.pairs@[i].0@ == k);
            }
        }
        if self.wf() {
            assert forall|i: int| 0 <= i < self.spec_len() implies self@[#[trigger] self.key_seq()[i]]
                == self.val_seq()[i] by {
                let k = self.key_seq()[i];
                assert(self.pairs@[i].0@ == k);
                let j = choose|j: int|
                    0 <= j < self.pairs@.len() && (#[trigger] self.pairs@[j]).0@ == k;
                assert(j == i);
            }
        }
    }

    /// The key set is finite and no larger than the entry count.
    pub proof fn lemma_dom_card(&self)
        ensures
            self@.dom().finite(),
            self@.dom().len() <= self.spec_len(),
    {
        self.lemma_view_facts();
        assert(self@.dom() =~= self.key_seq().to_set()) by {
            assert forall|k: Seq<char>|
                self@.dom().contains(k) == self.key_seq().to_set().contains(k) by {
                if self@.dom().contains(k) {
                    let i = choose|i: int|
                        0 <= i < self.spec_len() && #[trigger] self.key_seq()[i] == k;
                    assert(self.key_seq().to_set().contains(self.key_seq()[i]));
                }
            }
        }
        vstd::seq_lib::seq_to_set_is_finite(self.key_seq());
        self.key_seq().lemma_cardinality_of_set();
    }

    /// An empty map.
    pub fn new() -> (r: Self)
        ensures
            r.wf(),
            r@ == Map::<Seq<char>, V>::empty(),
            r.spec_len() == 0,
    {
        let r = StrMap { pairs: Vec::new() };
        proof {
            assert(r@ =~= Map::<Seq<char>, V>::empty());
        }
        r
    }

    /// The number of entries.
    pub fn len(&self) -> (r: usize)
        ensures
            r == self.spec_len(),
    {
        self.pairs.len()
    }

    /// Whether `k` is a key.
    pub fn contains_key(&self, k: &str) -> (r: bool)
        ensures
            r == self@.contains_key(k@),
    {
        let mut i: usize = 0;
        while i < self.pairs.len()
            invariant
                i <= self.pairs@.len(),
                forall|j: int| 0 <= j < i ==> (#[trigger] self.pairs@[j]).0@ != k@,
            decreases self.pairs@.len() - i,
        {
            if crate::strutil::str_eq(self.pairs[i].0.as_str(), k) {
                return true;
            }
            i += 1;
        }
        false
    }

    /// The value at `k`, if any.
    pub fn get<'a>(&'a self, k: &str) -> (r: Option<&'a V>)
        requires
            self.wf(),
        ensures
            match r {
                Some(v) => self@.contains_key(k@) && *v == self@[k@],
                None => !self@.contains_key(k@),
            },
    {
        let mut i: usize = 0;
        while i < self.pairs.len()
            invariant
                self.wf(),
                i <= self.pairs@.len(),
                forall|j: int| 0 <= j < i ==> (#[trigger] self.pairs@[j]).0@ != k@,
            decreases self.pairs@.len() - i,
        {
            if crate::strutil::str_eq(self.pairs[i].0.as_str(), k) {
                proof {
                    let w = choose|w: int|
                        0 <= w < self.pairs@.len() && (#[trigger] self.pairs@[w]).0@ == k@;
                    assert(w == i);
                }
                return Some(&self.pairs[i].1);
            }
            i += 1;
        }
        None
    }

    /// Adds a fresh key.
    pub fn insert(&mut self, k: String, v: V)
        requires
            old(self).wf(),
            !old(self)@.contains_key(k@),
        ensures
            final(self).wf(),
            final(self)@ == old(self)@.insert(k@, v),
            final(self).spec_len() == old(self).spec_len() + 1,
            final(self).key_seq() == old(self).key_seq().push(k@),
            final(self).val_seq() == old(self).val_seq().push(v),
    {
        let ghost kview = k@;
        let ghost oldpairs = self.pairs@;
        self.pairs.push((k, v));
        proof {
            assert forall|j: int| 0 <= j < oldpairs.len() implies (#[trigger] oldpairs[j]).0@
                != kview by {
                if oldpairs[j].0@ == kview {
                    assert(old(self)@.contains_key(kview));
                }
            }
            assert forall|k2: Seq<char>|
                final(self)@.contains_key(k2) == old(self)@.insert(kview, v).contains_key(k2) by {
                if k2 == kview {
                    assert(self.pairs@[self.pairs@.len() - 1].0@ == k2);
                } else {
                    if final(self)@.contains_key(k2) {
                        let i = choose|i: int|
                            0 <= i < self.pairs@.len() && (#[trigger] self.pairs@[i]).0@ == k2;
                        assert(oldpairs[i] == self.pairs@[i]);
                    } else {
                        if old(self)@.contains_key(k2) {
                            let i = choose|i: int|
                                0 <= i < oldpairs.len() && (#[trigger] oldpairs[i]).0@ == k2;
                            assert(self.pairs@[i].0@ == k2);
                        }
                    }
                }
            }
            assert forall|k2: Seq<char>| final(self)@.contains_key(k2) implies final(self)@[k2]
                == old(self)@.insert(kview, v)[k2] by {
                let i = choose|i: int|
                    0 <= i < self.pairs@.len() && (#[trigger] self.pairs@[i]).0@ == k2;
                if k2 == kview {
                    assert(i == self.pairs@.len() - 1);
                } else {
                    assert(i < oldpairs.len() && oldpairs[i] == self.pairs@[i]);
                    let w = choose|w: int|
                        0 <= w < oldpairs.len() && (#[trigger] oldpairs[w]).0@ == k2;
                    assert(w == i);
                }
            }
            assert(final(self)@ =~= old(self)@.insert(kview, v));
            assert(final(self).key_seq() =~= old(self).key_seq().push(kview));
            assert(final(self).val_seq() =~= old(self).val_seq().push(v));
        }
    }

    /// Adds or overwrites a key.
    pub fn set(&mut self, k: String, v: V)
        requires
            old(self).wf(),
        ensures
            final(self).wf(),
            final(self)@ == old(self)@.insert(k@, v),
    {
        let ghost kview = k@;
        let ghost oldpairs = self.pairs@;
        let mut i: usize = 0;
        while i < self.pairs.len()
            invariant
                self.pairs@ == oldpairs,
                old(self).wf(),
                *self == *old(self),
                i <= oldpairs.len(),
                forall|j: int| 0 <= j < i ==> (#[trigger] oldpairs[j]).0@ != kview,
                kview == k@,
            decreases oldpairs.len() - i,
        {
            if crate::strutil::str_eq(self.pairs[i].0.as_str(), k.as_str()) {
                self.pairs[i] = (k, v);
                proof {
                    assert forall|k2: Seq<char>|
                        final(self)@.contains_key(k2) == old(self)@.insert(kview, v).contains_key(
                            k2,
                        ) by {
                        if k2 == kview {
                            assert(self.pairs@[i as int].0@ == k2);
                        } else {
                            if final(self)@.contains_key(k2) {
                                let w = choose|w: int|
                                    0 <= w < self.pairs@.len() && (#[trigger] self.pairs@[w]).0@
                                        == k2;
                                assert(oldpairs[w] == self.pairs@[w]);
                            } else {
                                if old(self)@.contains_key(k2) {
                                    let w = choose|w: int|
                                        0 <= w < oldpairs.len() && (#[trigger] oldpairs[w]).0@
                                            == k2;
                                    assert(self.pairs@[w].0@ == k2);
                                }
                            }
                        }
                    }
                    assert forall|k2: Seq<char>| final(self)@.contains_key(k2) implies final(self)@[k2]
                        == old(self)@.insert(kview, v)[k2] by {
                        let w = choose|w: int|
                            0 <= w < self.pairs@.len() && (#[trigger] self.pairs@[w]).0@ == k2;
                        if k2 == kview {
                            assert(w == i);
                        } else {
                            assert(w != i);
                            assert(oldpairs[w] == self.pairs@[w]);
                            let w2 = choose|w2: int|
                                0 <= w2 < oldpairs.len() && (#[trigger] oldpairs[w2]).0@ == k2;
                            assert(w2 == w);
                        }
                    }
                    assert(final(self)@ =~= old(self)@.insert(kview, v));
                }
                return;
            }
            i += 1;
        }
        proof {
            if self@.contains_key(kview) {
                let w = choose|w: int|
                    0 <= w < oldpairs.len() && (#[trigger] oldpairs[w]).0@ == kview;
                assert(false);
            }
        }
        self.insert(k, v);
    }

    /// The key at position `i` in insertion order.
    pub fn key_at(&self, i: usize) -> (r: &String)
        requires
            i < self.spec_len(),
        ensures
            r@ == self.key_seq()[i as int],
            self@.contains_key(r@),
    {
        proof {
            assert(self.pairs@[i as int].0@ == self.key_seq()[i as int]);
        }
        &self.pairs[i].0
    }

    /// The value at position `i` in insertion order.
    pub fn value_at(&self, i: usize) -> (r: &V)
        requires
            self.wf(),
            i < self.spec_len(),
        ensures
            *r == self.val_seq()[i as int],
            *r == self@[self.key_seq()[i as int]],
    {
        proof {
            self.lemma_view_facts();
        }
        &self.pairs[i].1
    }
}

/// A finite set of strings, kept in insertion order.
#[derive(Debug, Clone)]
pub struct StrSet {
    items: Vec<String>,
}

impl View for StrSet {
    type V = Set<Seq<char>>;

    closed spec fn view(&self) -> Set<Seq<char>> {
        Set::new(
            |k: Seq<char>|
                exists|i: int| 0 <= i < self.items@.len() && (#[trigger] self.items@[i])@ == k,
        )
    }
}

impl StrSet {
    /// Members are pairwise distinct.
    pub closed spec fn wf(&self) -> bool {
        forall|i: int, j: int|
            0 <= i < j < self.items@.len() ==> (#[trigger] self.items@[i])@ != (
            #[trigger] self.items@[j])@
    }

    /// The number of members.
    pub closed spec fn spec_len(&self) -> nat {
        self.items@.len()
    }

    /// The members in insertion order.
    pub closed spec fn elem_seq(&self) -> Seq<Seq<char>> {
        self.items@.map_values(|s: String| s@)
    }

    /// An empty set.
    pub fn new() -> (r: Self)
        ensures
            r.wf(),
            r@ == Set::<Seq<char>>::empty(),
            r.spec_len() == 0,
    {
        let r = StrSet { items: Vec::new() };
        proof {
            assert(r@ =~= Set::<Seq<char>>::empty());
        }
        r
    }

    /// The number of members.
    pub fn len(&self) -> (r: usize)
        ensures
            r == self.spec_len(),
    {
        self.items.len()
    }

    /// Whether `k` is a member.
    pub fn contains(&self, k: &str) -> (r: bool)
        ensures
            r == self@.contains(k@),
    {
        let mut i: usize = 0;
        while i < self.items.len()
            invariant
                i <= self.items@.len(),
                forall|j: int| 0 <= j < i ==> (#[trigger] self.items@[j])@ != k@,
            decreases self.items@.len() - i,
        {
            if crate::strutil::str_eq(self.items[i].as_str(), k) {
                return true;
            }
            i += 1;
        }
        false
    }

    /// Adds `k`; a member already present is kept once.
    pub fn add(&mut self, k: String)
        requires
            old(self).wf(),
        ensures
            final(self).wf(),
            final(self)@ == old(self)@.insert(k@),
    {
        let ghost kview = k@;
        let ghost olditems = self.items@;
        if !self.contains(k.as_str()) {
            self.items.push(k);
            proof {
                assert forall|k2: Seq<char>|
                    final(self)@.contains(k2) == old(self)@.insert(kview).contains(k2) by {
                    if k2 == kview {
                        assert((self.items@[self.items@.len() - 1])@ == k2);
                    } else {
                        if final(self)@.contains(k2) {
                            let i = choose|i: int|
                                0 <= i < self.items@.len() && (#[trigger] self.items@[i])@ == k2;
                            assert(olditems[i] == self.items@[i]);
                        } else {
                            if old(self)@.contains(k2) {
                                let i = choose|i: int|
                                    0 <= i < olditems.len() && (#[trigger] olditems[i])@ == k2;
                                assert(self.items@[i]@ == k2);
                            }
                        }
                    }
                }
                assert(final(self)@ =~= old(self)@.insert(kview));
            }
        } else {
            proof {
                assert(final(self)@ =~= old(self)@.insert(kview));
            }
        }
    }

    /// The member at position `i` in insertion order.
    pub fn elem_at(&self, i: usize) -> (r: &String)
        requires
            i < self.spec_len(),
        ensures
            r@ == self.elem_seq()[i as int],
            self@.contains(r@),
    {
        proof {
            assert((self.items@[i as int])@ == self.elem_seq()[i as int]);
        }
        &self.items[i]
    }
}

} // verus!
