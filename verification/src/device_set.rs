//! Sets of device identifiers.

use crate::order::{
    id_precedes, lemma_insert_keeps_ascending, lemma_listing_is, listing, lists, precedes,
};
use vstd::prelude::*;
use vstd::string::*;

verus! {

/// An unordered collection of device identifiers in which no identifier
/// occurs twice. Its view is the set of the identifiers it holds, each as its
/// sequence of characters.
pub struct DeviceSet {
    ids: Vec<String>,
}

impl View for DeviceSet {
    type V = Set<Seq<char>>;

    closed spec fn view(&self) -> Set<Seq<char>> {
        self.ids.deep_view().to_set()
    }
}

impl DeviceSet {
    #[verifier::type_invariant]
    spec fn distinct(&self) -> bool {
        self.ids.deep_view().no_duplicates()
    }

    /// A device set holds finitely many identifiers.
    pub proof fn law_view_is_finite(&self)
        ensures
            self@.finite(),
    {
    }

    /// The empty set.
    pub fn new() -> (set: DeviceSet)
        ensures
            set@ == Set::<Seq<char>>::empty(),
    {
        let ids: Vec<String> = Vec::new();
        assert(ids.deep_view() == Seq::<Seq<char>>::empty());
        DeviceSet { ids }
    }

    /// The number of identifiers in the set.
    pub fn len(&self) -> (n: usize)
        ensures
            self@.finite(),
            n == self@.len(),
    {
        proof {
            use_type_invariant(self);
            self.ids.deep_view().unique_seq_to_set();
        }
        self.ids.len()
    }

    /// Whether the set holds no identifier.
    pub fn is_empty(&self) -> (r: bool)
        ensures
            r == (self@ == Set::<Seq<char>>::empty()),
    {
        proof {
            if self.ids.len() > 0 {
                assert(self.ids.deep_view().contains(self.ids.deep_view()[0]));
                assert(self@.contains(self.ids.deep_view()[0]));
            } else {
                assert(self@ =~= Set::<Seq<char>>::empty());
            }
        }
        self.ids.len() == 0
    }

    /// Whether `id` is in the set.
    pub fn contains(&self, id: &String) -> (r: bool)
        ensures
            r == self@.contains(id@),
    {
        let mut i: usize = 0;
        while i < self.ids.len()
            invariant
                i <= self.ids.len(),
                forall|j: int| 0 <= j < i ==> self.ids.deep_view()[j] != id@,
            decreases self.ids.len() - i,
        {
            if self.ids[i] == *id {
                assert(self.ids.deep_view()[i as int] == id@);
                return true;
            }
            i += 1;
        }
        false
    }

    /// Adds `id` to the set, which is left as it was if it held `id`
    /// already. Returns whether `id` was new to the set.
    pub fn insert(&mut self, id: String) -> (fresh: bool)
        ensures
            final(self)@ == old(self)@.insert(id@),
            fresh == !old(self)@.contains(id@),
    {
        if self.contains(&id) {
            assert(self@.insert(id@) == self@);
            false
        } else {
            self.push_new(id);
            true
        }
    }

    fn push_new(&mut self, id: String)
        requires
            !old(self)@.contains(id@),
        ensures
            final(self)@ == old(self)@.insert(id@),
    {
        proof {
            use_type_invariant(&*self);
        }
        let ghost before = self.ids.deep_view();
        // The list leaves the set while it grows and comes back complete.
        let mut ids: Vec<String> = Vec::new();
        assert(ids.deep_view() == Seq::<Seq<char>>::empty());
        core::mem::swap(&mut ids, &mut self.ids);
        ids.push(id);
        proof {
            assert(ids.deep_view() == before.push(id@));
            lemma_push_to_set(before, id@);
        }
        core::mem::swap(&mut ids, &mut self.ids);
    }

    /// The identifiers of `self` that are not in `other`.
    pub fn difference(&self, other: &DeviceSet) -> (rest: DeviceSet)
        ensures
            rest@ == self@.difference(other@),
    {
        let mut rest = DeviceSet::new();
        let mut i: usize = 0;
        while i < self.ids.len()
            invariant
                i <= self.ids.len(),
                rest@ == self.ids.deep_view().take(i as int).to_set().difference(other@),
            decreases self.ids.len() - i,
        {
            proof {
                use_type_invariant(self);
                let seen = self.ids.deep_view().take(i as int);
                assert(self.ids.deep_view().take(i + 1) == seen.push(self.ids[i as int]@));
                lemma_push_to_set(seen, self.ids[i as int]@);
            }
            if !other.contains(&self.ids[i]) {
                rest.insert(self.ids[i].clone());
            }
            i += 1;
        }
        assert(self.ids.deep_view().take(self.ids.len() as int) == self.ids.deep_view());
        rest
    }

    /// The set of the identifiers in `ids`; one that occurs there more than
    /// once is in the set once.
    pub fn from_ids(ids: Vec<String>) -> (set: DeviceSet)
        ensures
            set@ == ids.deep_view().to_set(),
    {
        let mut set = DeviceSet::new();
        let mut ids = ids;
        let ghost all = ids.deep_view();
        let mut i: usize = 0;
        while i < ids.len()
            invariant
                i <= ids.len(),
                ids.deep_view() == all,
                set@ == all.take(i as int).to_set(),
            decreases ids.len() - i,
        {
            proof {
                let seen = all.take(i as int);
                assert(all.take(i + 1) == seen.push(ids[i as int]@));
                lemma_push_to_set(seen, ids[i as int]@);
            }
            set.insert(ids[i].clone());
            i += 1;
        }
        assert(all.take(ids.len() as int) == all);
        set
    }

    /// The identifiers of the set in ascending order.
    pub fn sorted(&self) -> (list: Vec<String>)
        ensures
            lists(list.deep_view(), self@),
            list.deep_view() == listing(self@),
    {
        let mut list: Vec<String> = Vec::new();
        let mut i: usize = 0;
        while i < self.ids.len()
            invariant
                i <= self.ids.len(),
                lists(list.deep_view(), self.ids.deep_view().take(i as int).to_set()),
            decreases self.ids.len() - i,
        {
            let id = self.ids[i].clone();
            let mut j: usize = 0;
            while j < list.len() && id_precedes(list[j].as_str(), id.as_str())
                invariant
                    j <= list.len(),
                    forall|k: int| 0 <= k < j ==> precedes(#[trigger] list.deep_view()[k], id@),
                decreases list.len() - j,
            {
                j += 1;
            }
            proof {
                use_type_invariant(self);
                let seen = self.ids.deep_view().take(i as int);
                assert(self.ids.deep_view().take(i + 1) == seen.push(id@));
                lemma_push_to_set(seen, id@);
                assert(!seen.contains(id@)) by {
                    if seen.contains(id@) {
                        let k = choose|k: int| 0 <= k < seen.len() && seen[k] == id@;
                        assert(self.ids.deep_view()[k] == self.ids.deep_view()[i as int]);
                    }
                }
                lemma_insert_keeps_ascending(list.deep_view(), j as int, id@);
            }
            let ghost before = list.deep_view();
            list.insert(j, id);
            assert(list.deep_view() == before.insert(j as int, id@));
            i += 1;
        }
        proof {
            assert(self.ids.deep_view().take(self.ids.len() as int) == self.ids.deep_view());
            lemma_listing_is(list.deep_view(), self@);
        }
        list
    }
}

/// The members of a sequence with one more entry at its end are those of
/// the sequence and the new entry.
pub proof fn lemma_push_to_set(s: Seq<Seq<char>>, id: Seq<char>)
    ensures
        s.push(id).to_set() == s.to_set().insert(id),
{
    let t = s.push(id);
    assert forall|x: Seq<char>| t.to_set().contains(x) <==> s.to_set().insert(id).contains(x) by {
        if t.contains(x) {
            let k = choose|k: int| 0 <= k < t.len() && t[k] == x;
            if k < s.len() {
                assert(s[k] == x);
            }
        }
        if s.contains(x) {
            let k = choose|k: int| 0 <= k < s.len() && s[k] == x;
            assert(t[k] == x);
        }
        if x == id {
            assert(t[s.len() as int] == x);
        }
    }
    assert(t.to_set() =~= s.to_set().insert(id));
}

} // verus!
