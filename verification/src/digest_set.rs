//! A set of hashes, kept as a vector in which no hash occurs twice.

use crate::hashable::same_bytes;
use vstd::prelude::*;

verus! {

/// A finite set of hashes. Its view is the mathematical set of the byte
/// strings it holds.
pub struct DigestSet {
    items: Vec<Vec<u8>>,
}

impl View for DigestSet {
    type V = Set<Seq<u8>>;

    closed spec fn view(&self) -> Set<Seq<u8>> {
        self.ids().to_set()
    }
}

/// The byte strings held by `items`, in order.
spec fn views_of(items: Seq<Vec<u8>>) -> Seq<Seq<u8>> {
    items.map_values(|item: Vec<u8>| item@)
}

/// The position of `hash` in `items`, or the length of `items` if it is not
/// among them.
fn position(items: &Vec<Vec<u8>>, hash: &Vec<u8>) -> (at: usize)
    ensures
        at <= items@.len(),
        at < items@.len() ==> items@[at as int]@ == hash@,
        forall|i: int| 0 <= i < at ==> items@[i]@ != hash@,
        at == items@.len() <==> !views_of(items@).contains(hash@),
{
    let mut at: usize = 0;
    while at < items.len()
        invariant
            at <= items@.len(),
            forall|i: int| 0 <= i < at ==> items@[i]@ != hash@,
        decreases items@.len() - at,
    {
        if same_bytes(&items[at], hash) {
            assert(views_of(items@)[at as int] == hash@);
            return at;
        }
        at = at + 1;
    }
    at
}

impl DigestSet {
    /// The held byte strings in storage order.
    closed spec fn ids(&self) -> Seq<Seq<u8>> {
        views_of(self.items@)
    }

    /// No hash is stored twice.
    #[verifier::type_invariant]
    spec fn distinct(&self) -> bool {
        self.ids().no_duplicates()
    }

    /// The empty set.
    pub fn new() -> (set: Self)
        ensures
            set@ == Set::<Seq<u8>>::empty(),
    {
        let set = DigestSet { items: Vec::new() };
        assert(set@ =~= Set::<Seq<u8>>::empty());
        set
    }

    /// The number of hashes in the set.
    pub fn len(&self) -> (count: usize)
        ensures
            self@.finite(),
            count == self@.len(),
    {
        proof {
            use_type_invariant(self);
            self.ids().unique_seq_to_set();
            vstd::seq_lib::seq_to_set_is_finite(self.ids());
        }
        self.items.len()
    }

    /// Whether the set holds no hash.
    pub fn is_empty(&self) -> (empty: bool)
        ensures
            empty == (self@ == Set::<Seq<u8>>::empty()),
    {
        proof {
            if self.items@.len() == 0 {
                assert(self@ =~= Set::<Seq<u8>>::empty());
            } else {
                assert(self.ids()[0] == self.items@[0]@);
                assert(self@.contains(self.ids()[0]));
            }
        }
        self.items.len() == 0
    }

    /// Whether `hash` is in the set.
    pub fn contains(&self, hash: &Vec<u8>) -> (found: bool)
        ensures
            found == self@.contains(hash@),
    {
        position(&self.items, hash) < self.items.len()
    }

    /// Adds `hash` to the set, and says whether it was new.
    pub fn insert(&mut self, hash: Vec<u8>) -> (fresh: bool)
        ensures
            final(self)@ == old(self)@.insert(hash@),
            fresh == !old(self)@.contains(hash@),
    {
        proof {
            use_type_invariant(&*self);
        }
        if position(&self.items, &hash) < self.items.len() {
            assert(self@ =~= self@.insert(hash@));
            false
        } else {
            let mut items: Vec<Vec<u8>> = Vec::new();
            std::mem::swap(&mut items, &mut self.items);
            let ghost before = views_of(items@);
            items.push(hash);
            proof {
                assert(views_of(items@) =~= before.push(hash@));
                before.lemma_push_to_set_commute(hash@);
            }
            self.items = items;
            true
        }
    }

    /// Takes `hash` out of the set, and says whether it was there.
    pub fn remove(&mut self, hash: &Vec<u8>) -> (present: bool)
        ensures
            final(self)@ == old(self)@.remove(hash@),
            present == old(self)@.contains(hash@),
    {
        proof {
            use_type_invariant(&*self);
        }
        let at = position(&self.items, hash);
        if at < self.items.len() {
            let mut items: Vec<Vec<u8>> = Vec::new();
            std::mem::swap(&mut items, &mut self.items);
            let ghost before = views_of(items@);
            items.swap_remove(at);
            proof {
                let after = views_of(items@);
                assert forall|i: int, j: int|
                    0 <= i < after.len() && 0 <= j < after.len() && i != j implies after[i]
                    != after[j] by {
                    let from_i = if i == at { before.len() - 1 } else { i };
                    let from_j = if j == at { before.len() - 1 } else { j };
                    assert(after[i] == before[from_i]);
                    assert(after[j] == before[from_j]);
                }
                assert(before[at as int] == hash@);
                assert forall|id: Seq<u8>| after.to_set().contains(id) implies before.to_set().remove(
                    hash@,
                ).contains(id) by {
                    let i = choose|i: int| 0 <= i < after.len() && after[i] == id;
                    let from_i = if i == at { before.len() - 1 } else { i };
                    assert(before[from_i] == id);
                    assert(from_i != at);
                    assert(before.contains(id));
                }
                assert forall|id: Seq<u8>|
                    before.to_set().remove(hash@).contains(id) implies after.to_set().contains(
                    id,
                ) by {
                    let k = choose|k: int| 0 <= k < before.len() && before[k] == id;
                    assert(k != at);
                    let to_k = if k == before.len() - 1 { at as int } else { k };
                    assert(0 <= to_k < after.len());
                    assert(after[to_k] == id);
                    assert(after.contains(id));
                }
                assert(after.to_set() =~= before.to_set().remove(hash@));
            }
            self.items = items;
            true
        } else {
            assert(self@ =~= self@.remove(hash@));
            false
        }
    }

    /// Whether every hash of this set is in `other`.
    pub fn is_subset(&self, other: &DigestSet) -> (subset: bool)
        ensures
            subset == self@.subset_of(other@),
    {
        let mut at: usize = 0;
        while at < self.items.len()
            invariant
                at <= self.items@.len(),
                forall|i: int| 0 <= i < at ==> other@.contains(#[trigger] self.ids()[i]),
            decreases self.items@.len() - at,
        {
            if !other.contains(&self.items[at]) {
                assert(self.ids()[at as int] == self.items@[at as int]@);
                assert(self.ids().contains(self.items@[at as int]@));
                return false;
            }
            assert(self.ids()[at as int] == self.items@[at as int]@);
            at = at + 1;
        }
        true
    }

    /// Whether this set and `other` have no hash in common.
    pub fn is_disjoint(&self, other: &DigestSet) -> (disjoint: bool)
        ensures
            disjoint == self@.disjoint(other@),
    {
        let mut at: usize = 0;
        while at < self.items.len()
            invariant
                at <= self.items@.len(),
                forall|i: int| 0 <= i < at ==> !other@.contains(#[trigger] self.ids()[i]),
            decreases self.items@.len() - at,
        {
            if other.contains(&self.items[at]) {
                assert(self.ids()[at as int] == self.items@[at as int]@);
                assert(self.ids().contains(self.items@[at as int]@));
                return false;
            }
            assert(self.ids()[at as int] == self.items@[at as int]@);
            at = at + 1;
        }
        true
    }

    /// Adds every hash of `other` to this set.
    pub fn extend(&mut self, other: DigestSet)
        ensures
            final(self)@ == old(self)@.union(other@),
    {
        let mut rest = other.items;
        while rest.len() > 0
            invariant
                self@.union(views_of(rest@).to_set()) == old(self)@.union(other@),
            decreases rest@.len(),
        {
            let ghost before = views_of(rest@);
            let ghost held = self@;
            let hash = rest.pop().unwrap();
            proof {
                assert(before =~= views_of(rest@).push(hash@));
                views_of(rest@).lemma_push_to_set_commute(hash@);
            }
            self.insert(hash);
            assert(self@.union(views_of(rest@).to_set()) =~= held.union(before.to_set()));
        }
        assert(views_of(rest@).to_set() =~= Set::<Seq<u8>>::empty());
        assert(self@.union(Set::<Seq<u8>>::empty()) =~= self@);
    }

    /// Takes every hash of `other` out of this set.
    pub fn subtract(&mut self, other: &DigestSet)
        ensures
            final(self)@ == old(self)@.difference(other@),
    {
        let mut at: usize = 0;
        assert(other.ids().take(0) =~= Seq::<Seq<u8>>::empty());
        assert(self@.difference(other.ids().take(0).to_set()) =~= self@);
        while at < other.items.len()
            invariant
                at <= other.items@.len(),
                self@ == old(self)@.difference(other.ids().take(at as int).to_set()),
            decreases other.items@.len() - at,
        {
            let ghost held = self@;
            self.remove(&other.items[at]);
            proof {
                let done = other.ids().take(at as int);
                let hash = other.items@[at as int]@;
                assert(other.ids().take(at + 1) =~= done.push(hash));
                done.lemma_push_to_set_commute(hash);
                assert(held.remove(hash) =~= old(self)@.difference(done.to_set().insert(hash)));
            }
            at = at + 1;
        }
        assert(other.ids().take(at as int) =~= other.ids());
    }
}

} // verus!
