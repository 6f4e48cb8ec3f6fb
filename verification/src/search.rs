//! Search of concepts by the text of their descriptions, without regard to
//! case.

use vstd::prelude::*;
use crate::sctid::SctId;
use crate::text::{contains_text, has_text};
use crate::record::kept;
use crate::description::Rf2Description;
use crate::store_model::StoreView;
use crate::store::SnomedStore;
use crate::ecl::executor::capped;

verus! {

/// The lower-case form of a text, as `str::to_lowercase` of the standard
/// library gives it.
pub uninterp spec fn lowercase(s: Seq<char>) -> Seq<char>;

/// Calls `str::to_lowercase`, which maps a text to its lower-case form by
/// the case mapping of Unicode, the same for every locale. The contract
/// gives the result its name and says nothing else of it.
#[verifier::external_body]
fn to_lowercase(s: &str) -> (r: String)
    ensures
        r@ == lowercase(s@),
{
    s.to_lowercase()
}

/// Whether the lower-case form of the term of one of the descriptions holds
/// the query.
pub open spec fn any_term_holds(descriptions: Seq<Rf2Description>, query: Seq<char>) -> bool {
    exists|i: int|
        0 <= i < descriptions.len() && contains_text(
            lowercase((#[trigger] descriptions[i]).term@),
            query,
        )
}

/// Whether a concept is a hit of a search: the store holds it, it is active
/// where only active concepts are asked for, and the lower-case form of the
/// term of one of its descriptions holds the query.
pub open spec fn is_hit(store: StoreView, id: SctId, query: Seq<char>, active_only: bool) -> bool {
    &&& store.concepts.contains_key(id)
    &&& kept(store.concepts[id].active, active_only)
    &&& any_term_holds(store.descriptions_of(id), query)
}

/// The hits of a search among a list of concepts, in the order of the list.
pub open spec fn hits_of(store: StoreView, ids: Seq<SctId>, query: Seq<char>, active_only: bool)
    -> Seq<SctId>
    decreases ids.len(),
{
    if ids.len() == 0 {
        Seq::empty()
    } else if is_hit(store, ids.last(), query, active_only) {
        hits_of(store, ids.drop_last(), query, active_only).push(ids.last())
    } else {
        hits_of(store, ids.drop_last(), query, active_only)
    }
}

/// The hits among the first concepts of a list are the first hits among the
/// whole list.
pub proof fn lemma_hits_prefix(
    store: StoreView,
    ids: Seq<SctId>,
    i: int,
    query: Seq<char>,
    active_only: bool,
)
    requires
        0 <= i <= ids.len(),
    ensures
        hits_of(store, ids.take(i), query, active_only).len() <= hits_of(
            store,
            ids,
            query,
            active_only,
        ).len(),
        hits_of(store, ids, query, active_only).take(
            hits_of(store, ids.take(i), query, active_only).len() as int,
        ) == hits_of(store, ids.take(i), query, active_only),
    decreases ids.len(),
{
    let whole = hits_of(store, ids, query, active_only);
    if i == ids.len() {
        assert(ids.take(i) =~= ids);
        assert(whole.take(whole.len() as int) =~= whole);
    } else {
        let shorter = ids.drop_last();
        assert(shorter.take(i) =~= ids.take(i));
        lemma_hits_prefix(store, shorter, i, query, active_only);
        let part = hits_of(store, ids.take(i), query, active_only);
        let most = hits_of(store, shorter, query, active_only);
        assert(whole.take(part.len() as int) =~= most.take(part.len() as int));
    }
}

/// Whether the lower-case form of the term of one of the descriptions holds
/// the query.
fn any_term(descriptions: &Vec<Rf2Description>, query: &str) -> (r: bool)
    ensures
        r == any_term_holds(descriptions@, query@),
{
    let mut i: usize = 0;
    while i < descriptions.len()
        invariant
            i <= descriptions.len(),
            forall|k: int|
                0 <= k < i ==> !contains_text(
                    lowercase((#[trigger] descriptions@[k]).term@),
                    query@,
                ),
        decreases descriptions.len() - i,
    {
        let lowered = to_lowercase(descriptions[i].term.as_str());
        if has_text(lowered.as_str(), query) {
            return true;
        }
        i = i + 1;
    }
    false
}

/// Whether a concept is a hit of a search for a query in lower case.
pub fn concept_matches(store: &SnomedStore, id: SctId, query: &str, active_only: bool) -> (r: bool)
    requires
        store.wf(),
    ensures
        r == is_hit(store@, id, query@, active_only),
{
    match store.get_concept(id) {
        None => false,
        Some(concept) => {
            if active_only && !concept.active {
                return false;
            }
            match store.get_descriptions(id) {
                None => false,
                Some(descriptions) => any_term(descriptions, query),
            }
        },
    }
}

/// The first `limit` concepts of the store, in the order of loading, that
/// are hits of a search for a query in lower case; all hits where there are
/// no more than `limit`.
pub fn search_lowered(store: &SnomedStore, query: &str, limit: usize, active_only: bool) -> (r: Vec<
    SctId,
>)
    requires
        store.wf(),
    ensures
        r@ == capped(hits_of(store@, store@.concept_ids, query@, active_only), Some(limit)),
{
    let ids = store.concept_ids();
    let mut out: Vec<SctId> = Vec::new();
    let mut i: usize = 0;
    proof {
        assert(ids@.take(0) =~= Seq::<SctId>::empty());
    }
    while i < ids.len() && out.len() < limit
        invariant
            store.wf(),
            ids@ == store@.concept_ids,
            i <= ids.len(),
            out@.len() <= limit,
            out@ == hits_of(store@, ids@.take(i as int), query@, active_only),
        decreases ids.len() - i,
    {
        let id = ids[i];
        proof {
            assert(ids@.take(i + 1).drop_last() =~= ids@.take(i as int));
        }
        if concept_matches(store, id, query, active_only) {
            out.push(id);
        }
        i = i + 1;
    }
    proof {
        lemma_hits_prefix(store@, ids@, i as int, query@, active_only);
        let whole = hits_of(store@, ids@, query@, active_only);
        if i == ids.len() {
            assert(ids@.take(i as int) =~= ids@);
        } else if whole.len() <= limit {
            assert(whole.take(whole.len() as int) =~= whole);
        }
    }
    out
}

/// The first `limit` concepts of the store, in the order of loading, of
/// which a description holds the query, without regard to case: the
/// lower-case form of its term holds the lower-case form of the query.
pub fn search(store: &SnomedStore, query: &str, limit: usize, active_only: bool) -> (r: Vec<SctId>)
    requires
        store.wf(),
    ensures
        r@ == capped(
            hits_of(store@, store@.concept_ids, lowercase(query@), active_only),
            Some(limit),
        ),
{
    let lowered = to_lowercase(query);
    search_lowered(store, lowered.as_str(), limit, active_only)
}

} // verus!
