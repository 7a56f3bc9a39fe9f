//! A set of names, kept in lexicographic order.

use crate::text::{
    lemma_precedes_irreflexive, lemma_precedes_total, lemma_precedes_transitive, precedes,
    same_text, text_precedes, texts,
};
use vstd::prelude::*;

verus! {

/// Whether every name comes before all the names after it. Such a sequence
/// holds no name twice.
pub open spec fn strictly_sorted(names: Seq<Seq<char>>) -> bool {
    forall|i: int, j: int| 0 <= i < j < names.len() ==> precedes(#[trigger] names[i], #[trigger] names[j])
}

/// A strictly sorted sequence is determined by the names that occur in it:
/// however a set of names was collected, listing it in order gives one result.
pub proof fn lemma_sorted_listing_unique(a: Seq<Seq<char>>, b: Seq<Seq<char>>)
    requires
        strictly_sorted(a),
        strictly_sorted(b),
        forall|name: Seq<char>| a.contains(name) <==> b.contains(name),
    ensures
        a == b,
    decreases a.len(),
{
    if a.len() == 0 {
        if b.len() > 0 {
            assert(b.contains(b[0]));
        }
        assert(a =~= b);
    } else {
        assert(a.contains(a[0]));
        let j = choose|j: int| 0 <= j < b.len() && b[j] == a[0];
        assert(b.contains(b[0]));
        let i = choose|i: int| 0 <= i < a.len() && a[i] == b[0];
        lemma_precedes_irreflexive(a[0]);
        if i > 0 {
            if j > 0 {
                lemma_precedes_transitive(a[0], a[i], b[j]);
            }
        }
        assert(a[0] == b[0]);
        let a1 = a.drop_first();
        let b1 = b.drop_first();
        assert forall|name: Seq<char>| a1.contains(name) <==> b1.contains(name) by {
            lemma_precedes_irreflexive(name);
            if a1.contains(name) {
                let k = choose|k: int| 0 <= k < a1.len() && a1[k] == name;
                assert(a[k + 1] == name);
                assert(a.contains(name));
                let m = choose|m: int| 0 <= m < b.len() && b[m] == name;
                assert(precedes(a[0], a[k + 1]));
                assert(m != 0);
                assert(b1[m - 1] == name);
            }
            if b1.contains(name) {
                let k = choose|k: int| 0 <= k < b1.len() && b1[k] == name;
                assert(b[k + 1] == name);
                assert(b.contains(name));
                let m = choose|m: int| 0 <= m < a.len() && a[m] == name;
                assert(precedes(b[0], b[k + 1]));
                assert(m != 0);
                assert(a1[m - 1] == name);
            }
        }
        assert(strictly_sorted(a1)) by {
            assert forall|p: int, q: int| 0 <= p < q < a1.len() implies precedes(
                #[trigger] a1[p],
                #[trigger] a1[q],
            ) by {
                assert(precedes(a[p + 1], a[q + 1]));
            }
        }
        assert(strictly_sorted(b1)) by {
            assert forall|p: int, q: int| 0 <= p < q < b1.len() implies precedes(
                #[trigger] b1[p],
                #[trigger] b1[q],
            ) by {
                assert(precedes(b[p + 1], b[q + 1]));
            }
        }
        lemma_sorted_listing_unique(a1, b1);
        assert(a =~= seq![a[0]] + a1);
        assert(b =~= seq![b[0]] + b1);
    }
}

/// A finite set of names. It stands where a hash set of strings would: a
/// name is in it at most once, and the names come out in lexicographic order.
#[derive(Debug, Clone)]
pub struct NameSet {
    names: Vec<String>,
}

impl View for NameSet {
    type V = Set<Seq<char>>;

    /// The names in the set.
    closed spec fn view(&self) -> Set<Seq<char>> {
        Set::new(|name: Seq<char>| texts(self.names@).contains(name))
    }
}

impl NameSet {
    /// The names in the order in which they are kept.
    pub closed spec fn listing(&self) -> Seq<Seq<char>> {
        texts(self.names@)
    }

    /// The invariant of the type: the names are kept strictly sorted.
    pub closed spec fn valid(&self) -> bool {
        strictly_sorted(texts(self.names@))
    }

    /// The listing holds exactly the names of the set.
    pub proof fn lemma_listing(&self)
        ensures
            forall|name: Seq<char>| self@.contains(name) <==> self.listing().contains(name),
            self.valid() ==> strictly_sorted(self.listing()),
    {
    }

    /// The empty set.
    pub fn new() -> (set: Self)
        ensures
            set.valid(),
            set@ == Set::<Seq<char>>::empty(),
    {
        let set = NameSet { names: Vec::new() };
        proof {
            assert(set@ =~= Set::<Seq<char>>::empty());
        }
        set
    }

    /// The number of names before `name` in the listing, and whether `name`
    /// itself is in the set.
    fn position(&self, name: &str) -> (found: (usize, bool))
        requires
            self.valid(),
        ensures
            found.0 <= self.names.len(),
            forall|k: int| 0 <= k < found.0 ==> precedes(#[trigger] self.names@[k]@, name@),
            found.1 == self@.contains(name@),
            found.1 ==> found.0 < self.names.len() && self.names@[found.0 as int]@ == name@,
            !found.1 ==> forall|k: int|
                found.0 <= k < self.names.len() ==> precedes(name@, #[trigger] self.names@[k]@),
    {
        let mut i: usize = 0;
        while i < self.names.len() && text_precedes(self.names[i].as_str(), name)
            invariant
                i <= self.names.len(),
                forall|k: int| 0 <= k < i ==> precedes(#[trigger] self.names@[k]@, name@),
            decreases self.names.len() - i,
        {
            i += 1;
        }
        let ghost listing = texts(self.names@);
        let here = i < self.names.len() && same_text(self.names[i].as_str(), name);
        proof {
            lemma_precedes_irreflexive(name@);
            if here {
                assert(listing[i as int] == name@);
                assert(listing.contains(name@));
            } else {
                assert forall|k: int| i <= k < self.names.len() implies precedes(
                    name@,
                    #[trigger] self.names@[k]@,
                ) by {
                    lemma_precedes_total(self.names@[i as int]@, name@);
                    if k > i {
                        assert(precedes(listing[i as int], listing[k]));
                        lemma_precedes_transitive(name@, self.names@[i as int]@, self.names@[k]@);
                    }
                }
                if listing.contains(name@) {
                    let k = choose|k: int| 0 <= k < listing.len() && listing[k] == name@;
                    if k < i {
                        assert(precedes(self.names@[k]@, name@));
                    } else {
                        assert(precedes(name@, self.names@[k]@));
                    }
                }
            }
        }
        (i, here)
    }

    /// Whether `name` is in the set.
    pub fn contains(&self, name: &str) -> (found: bool)
        requires
            self.valid(),
        ensures
            found == self@.contains(name@),
    {
        self.position(name).1
    }

    /// Adds `name`; says whether it was new.
    pub fn insert(&mut self, name: String) -> (added: bool)
        requires
            old(self).valid(),
        ensures
            final(self).valid(),
            final(self)@ == old(self)@.insert(name@),
            added == !old(self)@.contains(name@),
    {
        let (at, here) = self.position(name.as_str());
        if here {
            proof {
                assert(self@ =~= self@.insert(name@));
            }
            return false;
        }
        let ghost before = texts(self.names@);
        self.names.insert(at, name);
        proof {
            let after = texts(self.names@);
            assert(after =~= before.insert(at as int, name@));
            assert forall|i: int, j: int| 0 <= i < j < after.len() implies precedes(
                #[trigger] after[i],
                #[trigger] after[j],
            ) by {
                if j < at {
                    assert(precedes(before[i], before[j]));
                } else if j == at {
                    assert(precedes(old(self).names@[i]@, name@));
                } else if i < at {
                    assert(precedes(before[i], before[j - 1]));
                } else if i == at {
                    assert(precedes(name@, old(self).names@[j - 1]@));
                } else {
                    assert(precedes(before[i - 1], before[j - 1]));
                }
            }
            assert forall|t: Seq<char>| after.contains(t) <==> (before.contains(t) || t == name@) by {
                if after.contains(t) {
                    let k = choose|k: int| 0 <= k < after.len() && after[k] == t;
                    if k < at {
                        assert(before[k] == t);
                    } else if k > at {
                        assert(before[k - 1] == t);
                    }
                }
                if before.contains(t) {
                    let k = choose|k: int| 0 <= k < before.len() && before[k] == t;
                    if k < at {
                        assert(after[k] == t);
                    } else {
                        assert(after[k + 1] == t);
                    }
                }
                if t == name@ {
                    assert(after[at as int] == t);
                }
            }
            assert(self@ =~= old(self)@.insert(name@));
        }
        true
    }

    /// Takes `name` out; says whether it was there.
    pub fn remove(&mut self, name: &str) -> (removed: bool)
        requires
            old(self).valid(),
        ensures
            final(self).valid(),
            final(self)@ == old(self)@.remove(name@),
            removed == old(self)@.contains(name@),
    {
        let (at, here) = self.position(name);
        if !here {
            proof {
                assert(self@ =~= self@.remove(name@));
            }
            return false;
        }
        let ghost before = texts(self.names@);
        self.names.remove(at);
        proof {
            let after = texts(self.names@);
            assert(after =~= before.remove(at as int));
            lemma_precedes_irreflexive(name@);
            assert forall|i: int, j: int| 0 <= i < j < after.len() implies precedes(
                #[trigger] after[i],
                #[trigger] after[j],
            ) by {
                let p = if i < at { i } else { i + 1 };
                let q = if j < at { j } else { j + 1 };
                assert(precedes(before[p], before[q]));
            }
            assert forall|t: Seq<char>| after.contains(t) <==> (before.contains(t) && t != name@) by {
                if after.contains(t) {
                    let k = choose|k: int| 0 <= k < after.len() && after[k] == t;
                    let p = if k < at { k } else { k + 1 };
                    assert(before[p] == t);
                    if p < at {
                        assert(precedes(before[p], before[at as int]));
                    } else {
                        assert(precedes(before[at as int], before[p]));
                    }
                }
                if before.contains(t) && t != name@ {
                    let k = choose|k: int| 0 <= k < before.len() && before[k] == t;
                    if k < at {
                        assert(after[k] == t);
                    } else {
                        assert(after[k - 1] == t);
                    }
                }
            }
            assert(self@ =~= old(self)@.remove(name@));
        }
        true
    }

    /// The names of the set in lexicographic order.
    pub fn into_sorted(self) -> (names: Vec<String>)
        requires
            self.valid(),
        ensures
            strictly_sorted(texts(names@)),
            forall|name: Seq<char>| texts(names@).contains(name) <==> self@.contains(name),
    {
        self.names
    }
}

} // verus!
