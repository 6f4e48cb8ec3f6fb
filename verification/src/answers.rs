//! Answers that are put together from answers of the store: the term by
//! which a concept is shown, a list with the concept itself in front, the
//! known and the unknown among asked-for concepts, and a page of a list.

use vstd::prelude::*;
use crate::sctid::SctId;
use crate::types::has_id;
use crate::filter::id_allowed;
use crate::concept::Rf2Concept;
use crate::store::SnomedStore;

verus! {

/// Whether an identifier passes an include-list: an empty list lets every
/// identifier pass.
pub fn allows_id(list: &Vec<SctId>, id: SctId) -> (r: bool)
    ensures
        r == id_allowed(list@, id),
{
    list.len() == 0 || has_id(list, id)
}

/// The identifiers of a list that a map of concepts holds, or those that it
/// does not hold, in the order of the list.
pub open spec fn held_of(concepts: Map<SctId, Rf2Concept>, ids: Seq<SctId>, held: bool) -> Seq<
    SctId,
>
    decreases ids.len(),
{
    if ids.len() == 0 {
        Seq::empty()
    } else if concepts.contains_key(ids.last()) == held {
        held_of(concepts, ids.drop_last(), held).push(ids.last())
    } else {
        held_of(concepts, ids.drop_last(), held)
    }
}

/// The part of a list that begins behind its first `offset` items and holds
/// at most `limit` items.
pub open spec fn spec_page(list: Seq<SctId>, offset: int, limit: int) -> Seq<SctId> {
    let from = if offset < list.len() {
        offset
    } else {
        list.len() as int
    };
    let to = if limit < list.len() - from {
        from + limit
    } else {
        list.len() as int
    };
    list.subrange(from, to)
}

/// The part of a list that begins behind its first `offset` items and holds
/// at most `limit` items.
pub fn page(list: &Vec<SctId>, offset: usize, limit: usize) -> (r: Vec<SctId>)
    ensures
        r@ == spec_page(list@, offset as int, limit as int),
{
    let from: usize = if offset < list.len() {
        offset
    } else {
        list.len()
    };
    let to: usize = if limit < list.len() - from {
        from + limit
    } else {
        list.len()
    };
    let mut out: Vec<SctId> = Vec::new();
    let mut i: usize = from;
    while i < to
        invariant
            from <= i <= to <= list.len(),
            out@ == list@.subrange(from as int, i as int),
        decreases to - i,
    {
        out.push(list[i]);
        assert(out@ =~= list@.subrange(from as int, i + 1));
        i = i + 1;
    }
    out
}

impl SnomedStore {
    /// The term by which a concept is shown for a language reference set:
    /// its preferred term in that reference set; where it has none, its
    /// preferred term where no language is considered; `None` where it has
    /// neither.
    pub fn get_display_term(&self, concept_id: SctId, language_refset_id: SctId) -> (r: Option<
        &str,
    >)
        requires
            self.wf(),
        ensures
            ({
                let rows = self@.descriptions_of(concept_id);
                let i = self@.preferred_in_language(concept_id, language_refset_id, 0);
                let j = self@.preferred_position(concept_id);
                match r {
                    Some(term) => if i != -1 {
                        0 <= i < rows.len() && term@ == rows[i].term@
                    } else {
                        0 <= j < rows.len() && term@ == rows[j].term@
                    },
                    None => i == -1 && j == -1,
                }
            }),
    {
        match self.get_preferred_term_for_language(concept_id, language_refset_id) {
            Some(term) => Some(term),
            None => self.get_preferred_term(concept_id),
        }
    }

    /// A list with the concept itself in front, where that is asked for and
    /// the store holds the concept; else the list as it is.
    pub fn with_self_first(&self, concept_id: SctId, others: Vec<SctId>, include_self: bool) -> (r:
        Vec<SctId>)
        requires
            self.wf(),
        ensures
            r@ == if include_self && self@.concepts.contains_key(concept_id) {
                seq![concept_id] + others@
            } else {
                others@
            },
    {
        let mut out = others;
        if include_self && self.has_concept(concept_id) {
            out.insert(0, concept_id);
            assert(out@ =~= seq![concept_id] + others@);
        }
        out
    }

    /// The identifiers of a list that the store holds a concept of, and
    /// those that it holds none of, each part in the order of the list.
    pub fn split_known(&self, ids: &Vec<SctId>) -> (r: (Vec<SctId>, Vec<SctId>))
        requires
            self.wf(),
        ensures
            r.0@ == held_of(self@.concepts, ids@, true),
            r.1@ == held_of(self@.concepts, ids@, false),
    {
        let mut known: Vec<SctId> = Vec::new();
        let mut unknown: Vec<SctId> = Vec::new();
        let mut i: usize = 0;
        proof {
            assert(ids@.take(0) =~= Seq::<SctId>::empty());
        }
        while i < ids.len()
            invariant
                self.wf(),
                i <= ids.len(),
                known@ == held_of(self@.concepts, ids@.take(i as int), true),
                unknown@ == held_of(self@.concepts, ids@.take(i as int), false),
            decreases ids.len() - i,
        {
            proof {
                assert(ids@.take(i + 1).drop_last() =~= ids@.take(i as int));
            }
            if self.has_concept(ids[i]) {
                known.push(ids[i]);
            } else {
                unknown.push(ids[i]);
            }
            i = i + 1;
        }
        proof {
            assert(ids@.take(ids.len() as int) =~= ids@);
        }
        (known, unknown)
    }
}

} // verus!
