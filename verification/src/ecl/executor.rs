//! Executor of the constraint language: every expression evaluates to a
//! set of concept identifiers over a store that offers the query façade.

use vstd::prelude::*;
use std::collections::HashSet;
use crate::sctid::SctId;
use crate::types::has_id;
use crate::queryable::EclQueryable;
use crate::hierarchy::{
    ancestors_of, connected, descendants_of, lemma_connected_reverse, reachable, without,
};
use crate::closure::{lemma_push_new, lemma_take_next};
use crate::ecl::ast::{EclError, EclExpression};
use crate::ecl::parser::{parse, spec_parse};

verus! {

/// The concept itself, where the store knows it; nothing else.
pub open spec fn known_self<Q: EclQueryable>(store: &Q, id: SctId) -> Set<SctId> {
    if store.known().contains(id) {
        set![id]
    } else {
        Set::empty()
    }
}

/// The set of concepts that an expression denotes over a store.
pub open spec fn eval<Q: EclQueryable>(store: &Q, e: EclExpression) -> Set<SctId>
    decreases e,
{
    match e {
        EclExpression::Concept(id) => known_self(store, id),
        EclExpression::DescendantOf(id) => descendants_of(store.edges(), id),
        EclExpression::DescendantOrSelfOf(id) => descendants_of(store.edges(), id).union(
            known_self(store, id),
        ),
        EclExpression::AncestorOf(id) => ancestors_of(store.edges(), id),
        EclExpression::AncestorOrSelfOf(id) => ancestors_of(store.edges(), id).union(
            known_self(store, id),
        ),
        EclExpression::MemberOf(id) => store.members(id).to_set(),
        EclExpression::And(a, b) => eval(store, *a).intersect(eval(store, *b)),
        EclExpression::Or(a, b) => eval(store, *a).union(eval(store, *b)),
        EclExpression::Minus(a, b) => eval(store, *a).difference(eval(store, *b)),
    }
}

/// The set of the identifiers of a list.
fn set_of(list: &Vec<SctId>) -> (r: HashSet<SctId>)
    ensures
        r@ == list@.to_set(),
{
    let mut out: HashSet<SctId> = HashSet::new();
    let mut i: usize = 0;
    assert(list@.take(0).to_set() =~= Set::<SctId>::empty());
    while i < list.len()
        invariant
            i <= list.len(),
            out@ == list@.take(i as int).to_set(),
        decreases list.len() - i,
    {
        proof {
            lemma_take_next(list@, i as int);
        }
        out.insert(list[i]);
        i = i + 1;
    }
    assert(list@.take(list.len() as int) =~= list@);
    out
}

/// The identifiers of a list that a set holds, or those that it does not
/// hold, each once, in the order of the list.
fn select(list: &Vec<SctId>, set: &HashSet<SctId>, held: bool) -> (r: Vec<SctId>)
    ensures
        r@.no_duplicates(),
        held ==> r@.to_set() == list@.to_set().intersect(set@),
        !held ==> r@.to_set() == list@.to_set().difference(set@),
{
    let mut out: Vec<SctId> = Vec::new();
    let mut seen: HashSet<SctId> = HashSet::new();
    let mut i: usize = 0;
    assert(list@.take(0).to_set() =~= Set::<SctId>::empty());
    assert(out@.to_set() =~= Set::<SctId>::empty());
    while i < list.len()
        invariant
            i <= list.len(),
            out@.no_duplicates(),
            seen@ == out@.to_set(),
            held ==> out@.to_set() == list@.take(i as int).to_set().intersect(set@),
            !held ==> out@.to_set() == list@.take(i as int).to_set().difference(set@),
        decreases list.len() - i,
    {
        proof {
            lemma_take_next(list@, i as int);
        }
        let x = list[i];
        if set.contains(&x) == held && !seen.contains(&x) {
            let ghost before = out@;
            assert(!before.contains(x)) by {
                assert(!before.to_set().contains(x));
            }
            out.push(x);
            seen.insert(x);
            proof {
                lemma_push_new(before, x);
            }
        }
        i = i + 1;
        proof {
            if held {
                assert(out@.to_set() =~= list@.take(i as int).to_set().intersect(set@));
            } else {
                assert(out@.to_set() =~= list@.take(i as int).to_set().difference(set@));
            }
        }
    }
    assert(list@.take(list.len() as int) =~= list@);
    out
}

/// The identifiers of a list, each once, in the order of first occurrence.
pub fn distinct(list: &Vec<SctId>) -> (r: Vec<SctId>)
    ensures
        r@.no_duplicates(),
        r@.to_set() == list@.to_set(),
{
    let none: HashSet<SctId> = HashSet::new();
    let r = select(list, &none, false);
    assert(list@.to_set().difference(none@) =~= list@.to_set());
    r
}

/// The identifiers of two lists without duplicates, each once: those of
/// the first, then those of the second that the first does not hold.
fn merge(first: Vec<SctId>, second: &Vec<SctId>) -> (r: Vec<SctId>)
    requires
        first@.no_duplicates(),
    ensures
        r@.no_duplicates(),
        r@.to_set() == first@.to_set().union(second@.to_set()),
{
    let mut seen = set_of(&first);
    let mut out = first;
    let mut i: usize = 0;
    assert(second@.take(0).to_set() =~= Set::<SctId>::empty());
    assert(out@.to_set() =~= first@.to_set().union(second@.take(0).to_set()));
    while i < second.len()
        invariant
            i <= second.len(),
            out@.no_duplicates(),
            seen@ == out@.to_set(),
            out@.to_set() == first@.to_set().union(second@.take(i as int).to_set()),
        decreases second.len() - i,
    {
        proof {
            lemma_take_next(second@, i as int);
        }
        let x = second[i];
        if !seen.contains(&x) {
            let ghost before = out@;
            assert(!before.contains(x)) by {
                assert(!before.to_set().contains(x));
            }
            out.push(x);
            seen.insert(x);
            proof {
                lemma_push_new(before, x);
            }
        }
        i = i + 1;
        assert(out@.to_set() =~= first@.to_set().union(second@.take(i as int).to_set()));
    }
    assert(second@.take(second.len() as int) =~= second@);
    out
}

/// The concepts that an expression denotes over a store, each once.
pub fn evaluate<Q: EclQueryable>(store: &Q, e: &EclExpression) -> (r: Vec<SctId>)
    requires
        store.valid(),
    ensures
        r@.no_duplicates(),
        r@.to_set() == eval(store, *e),
    decreases e,
{
    match e {
        EclExpression::Concept(id) => own(store, *id),
        EclExpression::DescendantOf(id) => {
            let found = reachable(store, *id, false);
            let r = without(&found, *id);
            assert(r@.to_set() =~= descendants_of(store.edges(), *id));
            r
        },
        EclExpression::DescendantOrSelfOf(id) => {
            let found = reachable(store, *id, false);
            let strict = without(&found, *id);
            assert(strict@.to_set() =~= descendants_of(store.edges(), *id));
            let this = own(store, *id);
            merge(strict, &this)
        },
        EclExpression::AncestorOf(id) => {
            let found = reachable(store, *id, true);
            let r = without(&found, *id);
            assert(r@.to_set() =~= ancestors_of(store.edges(), *id));
            r
        },
        EclExpression::AncestorOrSelfOf(id) => {
            let found = reachable(store, *id, true);
            let strict = without(&found, *id);
            assert(strict@.to_set() =~= ancestors_of(store.edges(), *id));
            let this = own(store, *id);
            merge(strict, &this)
        },
        EclExpression::MemberOf(id) => {
            let members = store.get_refset_members(*id);
            distinct(&members)
        },
        EclExpression::And(a, b) => {
            let left = evaluate(store, a);
            let right = evaluate(store, b);
            if left.len() <= right.len() {
                let held = set_of(&right);
                select(&left, &held, true)
            } else {
                let held = set_of(&left);
                let r = select(&right, &held, true);
                assert(right@.to_set().intersect(left@.to_set()) =~= left@.to_set().intersect(
                    right@.to_set(),
                ));
                r
            }
        },
        EclExpression::Or(a, b) => {
            let left = evaluate(store, a);
            let right = evaluate(store, b);
            if left.len() >= right.len() {
                merge(left, &right)
            } else {
                let r = merge(right, &left);
                assert(right@.to_set().union(left@.to_set()) =~= left@.to_set().union(
                    right@.to_set(),
                ));
                r
            }
        },
        EclExpression::Minus(a, b) => {
            let left = evaluate(store, a);
            let right = evaluate(store, b);
            let held = set_of(&right);
            select(&left, &held, false)
        },
    }
}

/// The concept alone, where the store knows it.
fn own<Q: EclQueryable>(store: &Q, id: SctId) -> (r: Vec<SctId>)
    requires
        store.valid(),
    ensures
        r@.no_duplicates(),
        r@.to_set() == known_self(store, id),
{
    let mut out: Vec<SctId> = Vec::new();
    if store.has_concept(id) {
        out.push(id);
        assert(out@ =~= seq![id]);
        assert(out@.to_set() =~= set![id]) by {
            assert forall|x: SctId| out@.to_set().contains(x) <==> set![id].contains(x) by {
                if x == id {
                    assert(out@[0] == x);
                }
            }
        }
    } else {
        assert(out@.to_set() =~= Set::<SctId>::empty());
    }
    out
}

/// Whether an expression denotes a concept over a store. The set that the
/// expression denotes is not built: a hierarchy operator is answered by a
/// search from the concept, a set operator from its two sides.
pub fn matches_expression<Q: EclQueryable>(store: &Q, concept_id: SctId, e: &EclExpression) -> (r:
    bool)
    requires
        store.valid(),
    ensures
        r == eval(store, *e).contains(concept_id),
    decreases e,
{
    match e {
        EclExpression::Concept(id) => concept_id == *id && store.has_concept(*id),
        EclExpression::DescendantOf(id) => concept_id != *id && below(store, concept_id, *id),
        EclExpression::DescendantOrSelfOf(id) => {
            if concept_id == *id {
                store.has_concept(*id)
            } else {
                below(store, concept_id, *id)
            }
        },
        EclExpression::AncestorOf(id) => concept_id != *id && below(store, *id, concept_id),
        EclExpression::AncestorOrSelfOf(id) => {
            if concept_id == *id {
                store.has_concept(*id)
            } else {
                below(store, *id, concept_id)
            }
        },
        EclExpression::MemberOf(id) => {
            let members = store.get_refset_members(*id);
            has_id(&members, concept_id)
        },
        EclExpression::And(a, b) => matches_expression(store, concept_id, a) && matches_expression(
            store,
            concept_id,
            b,
        ),
        EclExpression::Or(a, b) => matches_expression(store, concept_id, a) || matches_expression(
            store,
            concept_id,
            b,
        ),
        EclExpression::Minus(a, b) => matches_expression(store, concept_id, a)
            && !matches_expression(store, concept_id, b),
    }
}

/// Whether `upper` is reached from `lower` by one or more steps from child
/// to parent.
fn below<Q: EclQueryable>(store: &Q, lower: SctId, upper: SctId) -> (r: bool)
    requires
        store.valid(),
    ensures
        r == connected(store.edges(), true, lower, upper),
        r == connected(store.edges(), false, upper, lower),
{
    proof {
        lemma_connected_reverse(store.edges(), lower, upper);
    }
    let above = reachable(store, lower, true);
    has_id(&above, upper)
}

/// Configuration of an executor.
#[derive(Debug, Clone, Copy)]
pub struct ExecutorConfig {
    /// The greatest number of identifiers that a query hands out; `None`
    /// for no cap.
    pub max_results: Option<usize>,
}

impl Default for ExecutorConfig {
    /// No cap.
    fn default() -> (r: Self)
        ensures
            r.max_results is None,
    {
        ExecutorConfig { max_results: None }
    }
}

/// The result of a query: a set of concept identifiers, cut at the cap of
/// the executor where the query denotes more.
pub struct QueryResult {
    ids: Vec<SctId>,
    members: HashSet<SctId>,
    truncated: bool,
}

impl QueryResult {
    /// The identifiers of the result, in the order in which the executor
    /// found them.
    pub closed spec fn spec_ids(&self) -> Seq<SctId> {
        self.ids@
    }

    /// Whether the result was cut at the cap.
    pub closed spec fn spec_truncated(&self) -> bool {
        self.truncated
    }

    /// The invariant of a result: it holds every identifier once.
    pub closed spec fn wf(&self) -> bool {
        self.ids@.no_duplicates() && self.members@ == self.ids@.to_set()
    }

    /// The identifiers of the result as a set.
    pub open spec fn set(&self) -> Set<SctId> {
        self.spec_ids().to_set()
    }

    /// A valid result holds every identifier once.
    pub proof fn lemma_valid(&self)
        requires
            self.wf(),
        ensures
            self.spec_ids().no_duplicates(),
            self.set().finite(),
            self.set().len() == self.spec_ids().len(),
    {
        self.ids@.unique_seq_to_set();
        vstd::seq_lib::seq_to_set_is_finite(self.ids@);
    }

    /// The number of identifiers in the result.
    pub fn count(&self) -> (r: usize)
        requires
            self.wf(),
        ensures
            r == self.spec_ids().len(),
            r == self.set().len(),
    {
        proof {
            self.lemma_valid();
        }
        self.ids.len()
    }

    /// Whether the result holds nothing.
    pub fn is_empty(&self) -> (r: bool)
        requires
            self.wf(),
        ensures
            r == (self.spec_ids().len() == 0),
    {
        self.ids.len() == 0
    }

    /// Whether the result holds a concept.
    pub fn contains(&self, concept_id: SctId) -> (r: bool)
        requires
            self.wf(),
        ensures
            r == self.set().contains(concept_id),
    {
        self.members.contains(&concept_id)
    }

    /// The identifiers of the result.
    pub fn ids(&self) -> (r: &Vec<SctId>)
        ensures
            r@ == self.spec_ids(),
    {
        &self.ids
    }

    /// Whether the query denotes more than the result holds, which was cut
    /// at the cap.
    pub fn is_truncated(&self) -> (r: bool)
        ensures
            r == self.spec_truncated(),
    {
        self.truncated
    }
}

/// What a result is of the full list of a query under a cap: the list, or
/// its first `cap` identifiers where it holds more.
pub open spec fn capped(full: Seq<SctId>, cap: Option<usize>) -> Seq<SctId> {
    match cap {
        Some(n) => if full.len() > n {
            full.take(n as int)
        } else {
            full
        },
        None => full,
    }
}

/// Whether a cap cuts a list of a given length.
pub open spec fn cuts(len: nat, cap: Option<usize>) -> bool {
    match cap {
        Some(n) => len > n,
        None => false,
    }
}

/// The first identifiers of a list without duplicates are a list without
/// duplicates of a part of its set.
pub proof fn lemma_take_distinct(list: Seq<SctId>, n: int)
    requires
        list.no_duplicates(),
        0 <= n <= list.len(),
    ensures
        list.take(n).no_duplicates(),
        list.take(n).to_set().subset_of(list.to_set()),
{
    assert forall|x: SctId| list.take(n).to_set().contains(x) implies list.to_set().contains(x) by {
        let i = choose|i: int| 0 <= i < n && list.take(n)[i] == x;
        assert(list[i] == x);
    }
}

/// Cuts a full list at a cap.
fn cut(full: Vec<SctId>, cap: Option<usize>) -> (r: QueryResult)
    requires
        full@.no_duplicates(),
    ensures
        r.wf(),
        r.spec_ids() == capped(full@, cap),
        r.spec_truncated() == cuts(full@.len(), cap),
{
    let mut ids = full;
    let mut truncated = false;
    match cap {
        Some(n) => {
            if ids.len() > n {
                proof {
                    lemma_take_distinct(ids@, n as int);
                }
                ids.truncate(n);
                truncated = true;
            }
        },
        None => {},
    }
    let members = set_of(&ids);
    QueryResult { ids, members, truncated }
}

/// An executor of expression constraints over a store.
pub struct EclExecutor<'a, Q: EclQueryable> {
    store: &'a Q,
    config: ExecutorConfig,
}

impl<'a, Q: EclQueryable> EclExecutor<'a, Q> {
    /// The store that the executor queries.
    pub closed spec fn store(&self) -> &Q {
        self.store
    }

    /// The configuration of the executor.
    pub closed spec fn config(&self) -> ExecutorConfig {
        self.config
    }

    /// The invariant of the executor: its store is valid.
    pub open spec fn wf(&self) -> bool {
        self.store().valid()
    }

    /// What a result is of an expression under the cap of the executor: it
    /// holds concepts that the expression denotes, each once; all of them
    /// where the cap does not cut, as many as the cap allows where it does.
    pub open spec fn answers(&self, result: QueryResult, e: EclExpression) -> bool {
        let all = eval(self.store(), e);
        &&& result.wf()
        &&& result.set().subset_of(all)
        &&& all.finite()
        &&& result.spec_truncated() == cuts(all.len(), self.config().max_results)
        &&& !result.spec_truncated() ==> result.set() == all
        &&& result.spec_truncated() ==> self.config().max_results == Some(
            result.spec_ids().len() as usize,
        )
    }

    /// The store that the executor queries.
    pub fn store_ref(&self) -> (r: &'a Q)
        ensures
            r == self.store(),
    {
        self.store
    }

    /// An executor over a store, without a cap.
    pub fn new(store: &'a Q) -> (r: Self)
        requires
            store.valid(),
        ensures
            r.wf(),
            r.store() == store,
            r.config().max_results is None,
    {
        EclExecutor { store, config: ExecutorConfig { max_results: None } }
    }

    /// An executor over a store, with a configuration.
    pub fn with_config(store: &'a Q, config: ExecutorConfig) -> (r: Self)
        requires
            store.valid(),
        ensures
            r.wf(),
            r.store() == store,
            r.config() == config,
    {
        EclExecutor { store, config }
    }

    /// Evaluates an expression.
    pub fn execute_expression(&self, e: &EclExpression) -> (r: QueryResult)
        requires
            self.wf(),
        ensures
            self.answers(r, *e),
    {
        let full = evaluate(self.store, e);
        proof {
            full@.unique_seq_to_set();
            vstd::seq_lib::seq_to_set_is_finite(full@);
            match self.config.max_results {
                Some(n) => {
                    if full@.len() > n {
                        lemma_take_distinct(full@, n as int);
                    }
                },
                None => {},
            }
        }
        cut(full, self.config.max_results)
    }

    /// Parses and evaluates the text of an expression. An expression that
    /// does not parse is an error, never an empty result.
    pub fn execute(&self, ecl: &str) -> (r: Result<QueryResult, EclError>)
        requires
            self.wf(),
        ensures
            match spec_parse(ecl@) {
                Err(e) => r == Err::<QueryResult, EclError>(e),
                Ok(expression) => r is Ok && self.answers(r->Ok_0, expression),
            },
    {
        match parse(ecl) {
            Err(e) => Err(e),
            Ok(expression) => Ok(self.execute_expression(&expression)),
        }
    }

    /// Whether the expression of a text denotes a concept.
    pub fn matches(&self, concept_id: SctId, ecl: &str) -> (r: Result<bool, EclError>)
        requires
            self.wf(),
        ensures
            match spec_parse(ecl@) {
                Err(e) => r == Err::<bool, EclError>(e),
                Ok(expression) => r == Ok::<bool, EclError>(
                    eval(self.store(), expression).contains(concept_id),
                ),
            },
    {
        match parse(ecl) {
            Err(e) => Err(e),
            Ok(expression) => Ok(matches_expression(self.store, concept_id, &expression)),
        }
    }

    /// The strict descendants of a concept, each once.
    pub fn get_descendants(&self, concept_id: SctId) -> (r: Vec<SctId>)
        requires
            self.wf(),
        ensures
            r@.no_duplicates(),
            r@.to_set() == descendants_of(self.store().edges(), concept_id),
    {
        let found = reachable(self.store, concept_id, false);
        let r = without(&found, concept_id);
        assert(r@.to_set() =~= descendants_of(self.store().edges(), concept_id));
        r
    }

    /// The strict descendants of a concept, each once; the first `max` of
    /// them where there are more.
    pub fn get_descendants_limited(&self, concept_id: SctId, max: usize) -> (r: Vec<SctId>)
        requires
            self.wf(),
        ensures
            r@.no_duplicates(),
            r@.to_set().subset_of(descendants_of(self.store().edges(), concept_id)),
            r@.len() <= max,
            r@.len() < max ==> r@.to_set() == descendants_of(self.store().edges(), concept_id),
    {
        let mut all = self.get_descendants(concept_id);
        if all.len() > max {
            proof {
                lemma_take_distinct(all@, max as int);
            }
            all.truncate(max);
        }
        all
    }

    /// The strict ancestors of a concept, each once.
    pub fn get_ancestors(&self, concept_id: SctId) -> (r: Vec<SctId>)
        requires
            self.wf(),
        ensures
            r@.no_duplicates(),
            r@.to_set() == ancestors_of(self.store().edges(), concept_id),
    {
        let found = reachable(self.store, concept_id, true);
        let r = without(&found, concept_id);
        assert(r@.to_set() =~= ancestors_of(self.store().edges(), concept_id));
        r
    }

    /// Whether a concept is subsumed by another: it is that concept or one
    /// of its descendants.
    pub fn is_subsumed_by(&self, concept_id: SctId, ancestor_id: SctId) -> (r: bool)
        requires
            self.wf(),
        ensures
            r == (concept_id == ancestor_id || ancestors_of(
                self.store().edges(),
                concept_id,
            ).contains(ancestor_id)),
    {
        concept_id == ancestor_id || below(self.store, concept_id, ancestor_id)
    }

    /// The direct parents of a concept.
    pub fn get_parents(&self, concept_id: SctId) -> (r: Vec<SctId>)
        requires
            self.wf(),
        ensures
            forall|p: SctId| r@.contains(p) <==> self.store().edges().contains((concept_id, p)),
    {
        self.store.get_parents(concept_id)
    }

    /// The direct children of a concept.
    pub fn get_children(&self, concept_id: SctId) -> (r: Vec<SctId>)
        requires
            self.wf(),
        ensures
            forall|c: SctId| r@.contains(c) <==> self.store().edges().contains((c, concept_id)),
    {
        self.store.get_children(concept_id)
    }
}

} // verus!
