//! Transitive closure of the IS-A hierarchy: for every known concept, the
//! set of its strict ancestors and the set of its strict descendants, worked
//! out once, so that hierarchy questions are answered by a lookup.

use vstd::prelude::*;
use vstd::std_specs::hash::spec_hash_keys_iter;
use vstd::std_specs::iter::IteratorSpec;
use std::collections::{HashMap, HashSet};
use crate::sctid::SctId;
use crate::queryable::EclQueryable;
use crate::hierarchy::{ancestors_of, descendants_of, reachable, Edges};

verus! {

/// The members of a set of identifiers, each once.
pub fn members_of(set: &HashSet<SctId>) -> (r: Vec<SctId>)
    ensures
        r@.no_duplicates(),
        r@.to_set() == set@,
{
    let mut out: Vec<SctId> = Vec::new();
    for x in it: set.iter()
        invariant
            out@.len() == it.index(),
            forall|i: int| 0 <= i < out@.len() ==> out@[i] == *it.seq()[i],
    {
        out.push(*x);
    }
    proof {
        let all = spec_hash_keys_iter(set).remaining();
        assert(out@ =~= all.unref());
    }
    out
}

/// The set of the identifiers of a list, without `skip`.
fn set_without(list: &Vec<SctId>, skip: SctId) -> (r: HashSet<SctId>)
    ensures
        r@ == list@.to_set().remove(skip),
{
    let mut out: HashSet<SctId> = HashSet::new();
    let mut i: usize = 0;
    while i < list.len()
        invariant
            i <= list.len(),
            out@ == list@.take(i as int).to_set().remove(skip),
        decreases list.len() - i,
    {
        if list[i] != skip {
            out.insert(list[i]);
        }
        proof {
            lemma_take_next(list@, i as int);
        }
        i = i + 1;
        assert(out@ =~= list@.take(i as int).to_set().remove(skip));
    }
    assert(list@.take(list.len() as int) =~= list@);
    out
}

/// The transitive closure of a hierarchy. It owns its sets: it reflects the
/// edges that the store had when the closure was built, whatever is loaded
/// into the store afterwards.
pub struct TransitiveClosure {
    ancestors: HashMap<SctId, HashSet<SctId>>,
    descendants: HashMap<SctId, HashSet<SctId>>,
    basis: Ghost<Edges>,
    covered: Ghost<Set<SctId>>,
}

impl TransitiveClosure {
    /// The edges of the hierarchy from which the closure was built.
    pub closed spec fn basis(&self) -> Edges {
        self.basis@
    }

    /// The concepts that the store knew when the closure was built.
    pub closed spec fn covered(&self) -> Set<SctId> {
        self.covered@
    }

    /// The invariant of the closure: it holds, for every covered concept and
    /// for no other, the sets of its strict ancestors and descendants.
    pub closed spec fn wf(&self) -> bool {
        &&& forall|id: SctId| #[trigger]
            self.ancestors@.contains_key(id) <==> self.covered@.contains(id)
        &&& forall|id: SctId| #[trigger]
            self.descendants@.contains_key(id) <==> self.covered@.contains(id)
        &&& forall|id: SctId| #[trigger]
            self.ancestors@.contains_key(id) ==> self.ancestors@[id]@ == ancestors_of(
                self.basis@,
                id,
            )
        &&& forall|id: SctId| #[trigger]
            self.descendants@.contains_key(id) ==> self.descendants@[id]@ == descendants_of(
                self.basis@,
                id,
            )
    }

    /// The strict ancestors of a concept as the closure gives them: those in
    /// the hierarchy for a covered concept, none for any other.
    pub open spec fn spec_ancestors(&self, id: SctId) -> Set<SctId> {
        if self.covered().contains(id) {
            ancestors_of(self.basis(), id)
        } else {
            Set::empty()
        }
    }

    /// The strict descendants of a concept as the closure gives them: those
    /// in the hierarchy for a covered concept, none for any other.
    pub open spec fn spec_descendants(&self, id: SctId) -> Set<SctId> {
        if self.covered().contains(id) {
            descendants_of(self.basis(), id)
        } else {
            Set::empty()
        }
    }

    /// Builds the closure of the hierarchy of a store: for each concept that
    /// the store knows, a search upward and a search downward.
    pub fn build<Q: EclQueryable>(store: &Q) -> (r: Self)
        requires
            store.valid(),
        ensures
            r.wf(),
            r.basis() == store.edges(),
            r.covered() == store.known(),
    {
        let ids = store.all_concept_ids();
        let ghost edges = store.edges();
        let mut ancestors: HashMap<SctId, HashSet<SctId>> = HashMap::new();
        let mut descendants: HashMap<SctId, HashSet<SctId>> = HashMap::new();
        let mut i: usize = 0;
        while i < ids.len()
            invariant
                i <= ids.len(),
                store.valid(),
                edges == store.edges(),
                ancestors@.dom() == ids@.take(i as int).to_set(),
                descendants@.dom() == ids@.take(i as int).to_set(),
                forall|id: SctId| #[trigger]
                    ancestors@.contains_key(id) ==> ancestors@[id]@ == ancestors_of(edges, id),
                forall|id: SctId| #[trigger]
                    descendants@.contains_key(id) ==> descendants@[id]@ == descendants_of(
                        edges,
                        id,
                    ),
            decreases ids.len() - i,
        {
            let id = ids[i];
            let up = reachable(store, id, true);
            let above = set_without(&up, id);
            assert(above@ =~= ancestors_of(edges, id));
            ancestors.insert(id, above);
            let down = reachable(store, id, false);
            let below = set_without(&down, id);
            assert(below@ =~= descendants_of(edges, id));
            descendants.insert(id, below);
            proof {
                lemma_take_next(ids@, i as int);
            }
            i = i + 1;
        }
        proof {
            assert(ids@.take(ids.len() as int) =~= ids@);
            assert forall|id: SctId| #[trigger]
                ancestors@.contains_key(id) <==> store.known().contains(id) by {
                assert(ancestors@.dom().contains(id) <==> ids@.to_set().contains(id));
            }
            assert forall|id: SctId| #[trigger]
                descendants@.contains_key(id) <==> store.known().contains(id) by {
                assert(descendants@.dom().contains(id) <==> ids@.to_set().contains(id));
            }
        }
        TransitiveClosure {
            ancestors,
            descendants,
            basis: Ghost(edges),
            covered: Ghost(store.known()),
        }
    }

    /// The set of the strict ancestors of a concept; `None` for a concept
    /// that the closure does not cover.
    pub fn get_ancestors(&self, concept_id: SctId) -> (r: Option<&HashSet<SctId>>)
        requires
            self.wf(),
        ensures
            match r {
                Some(set) => self.covered().contains(concept_id) && set@ == ancestors_of(
                    self.basis(),
                    concept_id,
                ),
                None => !self.covered().contains(concept_id),
            },
    {
        self.ancestors.get(&concept_id)
    }

    /// The set of the strict descendants of a concept; `None` for a concept
    /// that the closure does not cover.
    pub fn get_descendants(&self, concept_id: SctId) -> (r: Option<&HashSet<SctId>>)
        requires
            self.wf(),
        ensures
            match r {
                Some(set) => self.covered().contains(concept_id) && set@ == descendants_of(
                    self.basis(),
                    concept_id,
                ),
                None => !self.covered().contains(concept_id),
            },
    {
        self.descendants.get(&concept_id)
    }

    /// The strict ancestors of a concept, each once; none for a concept that
    /// the closure does not cover.
    pub fn ancestors_list(&self, concept_id: SctId) -> (r: Vec<SctId>)
        requires
            self.wf(),
        ensures
            r@.no_duplicates(),
            r@.to_set() == self.spec_ancestors(concept_id),
    {
        match self.ancestors.get(&concept_id) {
            Some(set) => members_of(set),
            None => {
                let r: Vec<SctId> = Vec::new();
                assert(r@.to_set() =~= Set::<SctId>::empty());
                r
            },
        }
    }

    /// The strict descendants of a concept, each once; none for a concept
    /// that the closure does not cover.
    pub fn descendants_list(&self, concept_id: SctId) -> (r: Vec<SctId>)
        requires
            self.wf(),
        ensures
            r@.no_duplicates(),
            r@.to_set() == self.spec_descendants(concept_id),
    {
        match self.descendants.get(&concept_id) {
            Some(set) => members_of(set),
            None => {
                let r: Vec<SctId> = Vec::new();
                assert(r@.to_set() =~= Set::<SctId>::empty());
                r
            },
        }
    }

    /// The concept and its strict ancestors, each once; the concept alone
    /// where the closure does not cover it.
    pub fn get_ancestors_or_self(&self, concept_id: SctId) -> (r: Vec<SctId>)
        requires
            self.wf(),
        ensures
            r@.no_duplicates(),
            r@.to_set() == self.spec_ancestors(concept_id).insert(concept_id),
    {
        let mut out = self.ancestors_list(concept_id);
        let ghost before = out@;
        out.push(concept_id);
        proof {
            assert(!before.to_set().contains(concept_id));
            lemma_push_new(before, concept_id);
        }
        out
    }

    /// The concept and its strict descendants, each once; the concept alone
    /// where the closure does not cover it.
    pub fn get_descendants_or_self(&self, concept_id: SctId) -> (r: Vec<SctId>)
        requires
            self.wf(),
        ensures
            r@.no_duplicates(),
            r@.to_set() == self.spec_descendants(concept_id).insert(concept_id),
    {
        let mut out = self.descendants_list(concept_id);
        let ghost before = out@;
        out.push(concept_id);
        proof {
            assert(!before.to_set().contains(concept_id));
            lemma_push_new(before, concept_id);
        }
        out
    }

    /// Whether `descendant` is a strict descendant of `ancestor`. No concept
    /// is a descendant of itself.
    pub fn is_descendant_of(&self, descendant: SctId, ancestor: SctId) -> (r: bool)
        requires
            self.wf(),
        ensures
            r == self.spec_ancestors(descendant).contains(ancestor),
    {
        match self.ancestors.get(&descendant) {
            Some(set) => set.contains(&ancestor),
            None => false,
        }
    }

    /// Whether `ancestor` is a strict ancestor of `descendant`. No concept is
    /// an ancestor of itself.
    pub fn is_ancestor_of(&self, ancestor: SctId, descendant: SctId) -> (r: bool)
        requires
            self.wf(),
        ensures
            r == self.spec_descendants(ancestor).contains(descendant),
    {
        match self.descendants.get(&ancestor) {
            Some(set) => set.contains(&descendant),
            None => false,
        }
    }
}

/// The set of the first `i + 1` identifiers of a list is the set of the
/// first `i` with the next one.
pub proof fn lemma_take_next(list: Seq<SctId>, i: int)
    requires
        0 <= i < list.len(),
    ensures
        list.take(i + 1) == list.take(i).push(list[i]),
        list.take(i + 1).to_set() == list.take(i).to_set().insert(list[i]),
{
    let before = list.take(i);
    let after = list.take(i + 1);
    assert(after =~= before.push(list[i]));
    assert forall|x: SctId| after.to_set().contains(x) <==> before.to_set().insert(
        list[i],
    ).contains(x) by {
        if after.contains(x) {
            let j = choose|j: int| 0 <= j < after.len() && after[j] == x;
            if j < i {
                assert(before[j] == x);
                assert(before.contains(x));
            }
        }
        if before.contains(x) {
            let j = choose|j: int| 0 <= j < before.len() && before[j] == x;
            assert(after[j] == x);
        }
        if x == list[i] {
            assert(after[i] == x);
        }
    }
    assert(after.to_set() =~= before.to_set().insert(list[i]));
}

/// A list without duplicates that gets one more identifier, which it does
/// not hold, is a list without duplicates of the set with that identifier.
pub proof fn lemma_push_new(list: Seq<SctId>, x: SctId)
    requires
        list.no_duplicates(),
        !list.contains(x),
    ensures
        list.push(x).no_duplicates(),
        list.push(x).to_set() == list.to_set().insert(x),
{
    let after = list.push(x);
    assert forall|i: int, j: int| 0 <= i < after.len() && 0 <= j < after.len() && i != j implies after[i]
        != after[j] by {
        if i < list.len() && j < list.len() {
        } else if i < list.len() {
            assert(list.contains(list[i]));
        } else {
            assert(list.contains(list[j]));
        }
    }
    assert forall|y: SctId| after.to_set().contains(y) <==> list.to_set().insert(x).contains(y) by {
        if after.contains(y) {
            let i = choose|i: int| 0 <= i < after.len() && after[i] == y;
            if i < list.len() {
                assert(list[i] == y);
                assert(list.contains(y));
            }
        }
        if list.contains(y) {
            let i = choose|i: int| 0 <= i < list.len() && list[i] == y;
            assert(after[i] == y);
        }
        if y == x {
            assert(after[list.len() as int] == y);
        }
    }
    assert(after.to_set() =~= list.to_set().insert(x));
}

} // verus!
