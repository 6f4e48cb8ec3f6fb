//! The distance from a concept up to one of its ancestors: the number of
//! steps of the shortest way from child to parent, found by a search that
//! goes upward level by level.

use vstd::prelude::*;
use std::collections::HashSet;
use crate::sctid::SctId;
use crate::types::has_id;
use crate::queryable::EclQueryable;
use crate::hierarchy::{ancestors_of, connected, endpoints, is_path, Edges};
use crate::closure::{lemma_push_new, lemma_take_next};

verus! {

/// Whether a sequence of concepts is a way upward: it holds a concept, and
/// each further one is a parent of the one before it.
pub open spec fn is_way(edges: Edges, p: Seq<SctId>) -> bool {
    p.len() >= 1 && forall|i: int|
        0 <= i < p.len() - 1 ==> edges.contains((#[trigger] p[i], p[i + 1]))
}

/// Whether `b` is reached from `a` in at most `n` steps upward. A concept
/// is reached from itself in no step.
pub open spec fn within(edges: Edges, a: SctId, b: SctId, n: int) -> bool {
    exists|p: Seq<SctId>|
        #[trigger] is_way(edges, p) && p[0] == a && p.last() == b && p.len() - 1 <= n
}

/// The concepts that are reached from `a` in at most `n` steps upward.
pub open spec fn level_set(edges: Edges, a: SctId, n: int) -> Set<SctId> {
    Set::new(|b: SctId| within(edges, a, b, n))
}

/// The parents of the concepts of a set.
pub open spec fn parents_of_all(edges: Edges, children: Set<SctId>) -> Set<SctId> {
    Set::new(|y: SctId| exists|x: SctId| children.contains(x) && #[trigger] edges.contains((x, y)))
}

/// A concept is reached from itself in no step.
pub proof fn lemma_within_itself(edges: Edges, a: SctId)
    ensures
        within(edges, a, a, 0),
{
    let p = seq![a];
    assert(is_way(edges, p));
    assert(p[0] == a && p.last() == a);
}

/// Nothing is reached in fewer steps than none, and in no step only the
/// concept itself.
pub proof fn lemma_within_bounds(edges: Edges, a: SctId, b: SctId, n: int)
    requires
        within(edges, a, b, n),
    ensures
        n >= 0,
        n == 0 ==> a == b,
{
}

/// What is reached in at most `n` steps is reached in at most any number of
/// steps from `n` on.
pub proof fn lemma_within_more(edges: Edges, a: SctId, b: SctId, n: int, m: int)
    requires
        within(edges, a, b, n),
        n <= m,
    ensures
        within(edges, a, b, m),
{
    let p = choose|p: Seq<SctId>|
        #[trigger] is_way(edges, p) && p[0] == a && p.last() == b && p.len() - 1 <= n;
    assert(is_way(edges, p) && p[0] == a && p.last() == b && p.len() - 1 <= m);
}

/// A parent of what is reached in at most `n` steps is reached in at most
/// `n + 1`.
pub proof fn lemma_within_step(edges: Edges, a: SctId, m: SctId, b: SctId, n: int)
    requires
        within(edges, a, m, n),
        edges.contains((m, b)),
    ensures
        within(edges, a, b, n + 1),
{
    let p = choose|p: Seq<SctId>|
        #[trigger] is_way(edges, p) && p[0] == a && p.last() == m && p.len() - 1 <= n;
    let q = p.push(b);
    assert forall|i: int| 0 <= i < q.len() - 1 implies edges.contains((#[trigger] q[i], q[i + 1])) by {
        if i < p.len() - 1 {
            assert(edges.contains((p[i], p[i + 1])));
        }
    }
    assert(is_way(edges, q) && q[0] == a && q.last() == b && q.len() - 1 <= n + 1);
}

/// What is reached in at most `n` steps and not in fewer is a parent of
/// something that is reached in at most `n - 1`.
pub proof fn lemma_within_last(edges: Edges, a: SctId, b: SctId, n: int) -> (m: SctId)
    requires
        within(edges, a, b, n),
        !within(edges, a, b, n - 1),
        n >= 1,
    ensures
        within(edges, a, m, n - 1),
        edges.contains((m, b)),
{
    let p = choose|p: Seq<SctId>|
        #[trigger] is_way(edges, p) && p[0] == a && p.last() == b && p.len() - 1 <= n;
    assert(p.len() - 1 == n) by {
        if p.len() - 1 <= n - 1 {
            assert(is_way(edges, p) && p[0] == a && p.last() == b && p.len() - 1 <= n - 1);
        }
    }
    let q = p.drop_last();
    assert forall|i: int| 0 <= i < q.len() - 1 implies edges.contains((#[trigger] q[i], q[i + 1])) by {
        assert(edges.contains((p[i], p[i + 1])));
    }
    assert(is_way(edges, q) && q[0] == a && q.last() == p[p.len() - 2] && q.len() - 1 <= n - 1);
    assert(edges.contains((p[p.len() - 2], p[p.len() - 2 + 1])));
    p[p.len() - 2]
}

/// A set that holds the first concept of a way upward, and with each of its
/// members the parents of that member, holds every concept of the way.
pub proof fn lemma_closed_set_holds_way(edges: Edges, seen: Set<SctId>, p: Seq<SctId>, i: int)
    requires
        is_way(edges, p),
        seen.contains(p[0]),
        forall|x: SctId, y: SctId|
            seen.contains(x) && #[trigger] edges.contains((x, y)) ==> seen.contains(y),
        0 <= i < p.len(),
    ensures
        seen.contains(p[i]),
    decreases i,
{
    if i > 0 {
        lemma_closed_set_holds_way(edges, seen, p, i - 1);
        assert(edges.contains((p[i - 1], p[i - 1 + 1])));
    }
}

/// A concept is reached from another in some number of steps upward
/// exactly where it is that concept or one of its ancestors.
pub proof fn lemma_within_is_ancestry(edges: Edges, a: SctId, b: SctId)
    ensures
        (exists|n: int| within(edges, a, b, n)) <==> (a == b || ancestors_of(edges, a).contains(b)),
{
    if exists|n: int| within(edges, a, b, n) {
        let n = choose|n: int| within(edges, a, b, n);
        let p = choose|p: Seq<SctId>|
            #[trigger] is_way(edges, p) && p[0] == a && p.last() == b && p.len() - 1 <= n;
        if p.len() >= 2 {
            assert(is_path(edges, true, p));
            assert(connected(edges, true, a, b));
        }
    }
    if a == b {
        lemma_within_itself(edges, a);
    }
    if connected(edges, true, a, b) {
        let p = choose|p: Seq<SctId>| #[trigger]
            is_path(edges, true, p) && p[0] == a && p.last() == b;
        assert(is_way(edges, p));
        assert(within(edges, a, b, p.len() - 1));
    }
}

/// Puts the concepts of a list that were not seen yet among the seen ones
/// and, each once, at the end of a list of new ones.
fn add_unseen(found: &Vec<SctId>, seen: &mut HashSet<SctId>, next: &mut Vec<SctId>)
    requires
        old(next)@.no_duplicates(),
        old(next)@.to_set().subset_of(old(seen)@),
    ensures
        final(next)@.no_duplicates(),
        final(next)@.to_set().subset_of(final(seen)@),
        final(seen)@ == old(seen)@.union(found@.to_set()),
        final(next)@.to_set() == old(next)@.to_set().union(
            found@.to_set().difference(old(seen)@),
        ),
{
    let mut j: usize = 0;
    proof {
        assert(found@.take(0).to_set() =~= Set::<SctId>::empty());
        assert(seen@ =~= old(seen)@.union(found@.take(0).to_set()));
        assert(next@.to_set() =~= old(next)@.to_set().union(
            found@.take(0).to_set().difference(old(seen)@),
        ));
    }
    while j < found.len()
        invariant
            j <= found.len(),
            next@.no_duplicates(),
            next@.to_set().subset_of(seen@),
            seen@ == old(seen)@.union(found@.take(j as int).to_set()),
            next@.to_set() == old(next)@.to_set().union(
                found@.take(j as int).to_set().difference(old(seen)@),
            ),
            old(next)@.to_set().subset_of(old(seen)@),
        decreases found.len() - j,
    {
        let y = found[j];
        let ghost next_before = next@;
        proof {
            lemma_take_next(found@, j as int);
        }
        if seen.insert(y) {
            proof {
                assert(!next_before.contains(y)) by {
                    if next_before.contains(y) {
                        assert(next_before.to_set().contains(y));
                    }
                }
                lemma_push_new(next_before, y);
            }
            next.push(y);
        }
        j = j + 1;
        proof {
            assert(seen@ =~= old(seen)@.union(found@.take(j as int).to_set()));
            assert(next@.to_set() =~= old(next)@.to_set().union(
                found@.take(j as int).to_set().difference(old(seen)@),
            ));
        }
    }
    proof {
        assert(found@.take(found.len() as int) =~= found@);
    }
}

/// The parents of the concepts of a level that were not seen yet, each
/// once; they are put among the seen ones.
fn next_level<Q: EclQueryable>(store: &Q, level: &Vec<SctId>, seen: &mut HashSet<SctId>) -> (next:
    Vec<SctId>)
    requires
        store.valid(),
    ensures
        next@.no_duplicates(),
        next@.to_set() == parents_of_all(store.edges(), level@.to_set()).difference(old(seen)@),
        final(seen)@ == old(seen)@.union(next@.to_set()),
{
    let ghost edges = store.edges();
    let mut next: Vec<SctId> = Vec::new();
    let mut i: usize = 0;
    proof {
        assert(next@.to_set() =~= parents_of_all(edges, level@.take(0).to_set()).difference(
            old(seen)@,
        ));
        assert(seen@ =~= old(seen)@.union(next@.to_set()));
    }
    while i < level.len()
        invariant
            store.valid(),
            edges == store.edges(),
            i <= level.len(),
            next@.no_duplicates(),
            next@.to_set() == parents_of_all(edges, level@.take(i as int).to_set()).difference(
                old(seen)@,
            ),
            seen@ == old(seen)@.union(next@.to_set()),
        decreases level.len() - i,
    {
        let x = level[i];
        let parents = store.get_parents(x);
        add_unseen(&parents, seen, &mut next);
        proof {
            lemma_take_next(level@, i as int);
            let done = level@.take(i as int).to_set();
            let more = level@.take(i + 1).to_set();
            assert forall|y: SctId| parents_of_all(edges, more).contains(y) <==> (parents_of_all(
                edges,
                done,
            ).contains(y) || parents@.to_set().contains(y)) by {
                if parents_of_all(edges, more).contains(y) {
                    let c = choose|c: SctId| more.contains(c) && #[trigger] edges.contains((c, y));
                    if c == x {
                        assert(parents@.contains(y));
                    } else {
                        assert(done.contains(c));
                    }
                }
                if parents_of_all(edges, done).contains(y) {
                    let c = choose|c: SctId| done.contains(c) && #[trigger] edges.contains((c, y));
                    assert(more.contains(c));
                }
                if parents@.to_set().contains(y) {
                    assert(parents@.contains(y));
                    assert(more.contains(x) && edges.contains((x, y)));
                }
            }
            assert(next@.to_set() =~= parents_of_all(edges, more).difference(old(seen)@));
            assert(seen@ =~= old(seen)@.union(next@.to_set()));
        }
        i = i + 1;
    }
    proof {
        assert(level@.take(level.len() as int) =~= level@);
    }
    next
}

/// The number of steps of the shortest way upward from a concept to
/// another: none to the concept itself, one to a parent. `None` where no
/// way leads there, which is where the other is neither the concept nor one
/// of its ancestors.
pub fn distance_to_ancestor<Q: EclQueryable>(store: &Q, concept_id: SctId, ancestor_id: SctId) -> (r:
    Option<usize>)
    requires
        store.valid(),
    ensures
        match r {
            Some(d) => within(store.edges(), concept_id, ancestor_id, d as int) && !within(
                store.edges(),
                concept_id,
                ancestor_id,
                d - 1,
            ),
            None => forall|n: int| !within(store.edges(), concept_id, ancestor_id, n),
        },
        r is Some <==> (concept_id == ancestor_id || ancestors_of(
            store.edges(),
            concept_id,
        ).contains(ancestor_id)),
{
    let ghost edges = store.edges();
    let ghost all = endpoints(edges).insert(concept_id);
    let mut seen: HashSet<SctId> = HashSet::new();
    seen.insert(concept_id);
    let mut level: Vec<SctId> = Vec::new();
    level.push(concept_id);
    let mut steps: usize = 0;
    let mut found: Option<usize> = None;
    proof {
        store.lemma_edges();
        lemma_within_is_ancestry(edges, concept_id, ancestor_id);
        lemma_within_itself(edges, concept_id);
        assert(seen@ =~= level_set(edges, concept_id, 0)) by {
            assert forall|x: SctId| level_set(edges, concept_id, 0).contains(x) implies x
                == concept_id by {
                lemma_within_bounds(edges, concept_id, x, 0);
            }
        }
        assert(level_set(edges, concept_id, -1) =~= Set::<SctId>::empty()) by {
            assert forall|x: SctId| !(#[trigger] within(edges, concept_id, x, -1)) by {
                if within(edges, concept_id, x, -1) {
                    lemma_within_bounds(edges, concept_id, x, -1);
                }
            }
        }
        assert(level@ =~= seq![concept_id]);
        assert(level@.to_set() =~= level_set(edges, concept_id, 0).difference(
            level_set(edges, concept_id, -1),
        )) by {
            assert(level@[0] == concept_id);
        }
        if within(edges, concept_id, ancestor_id, -1) {
            lemma_within_bounds(edges, concept_id, ancestor_id, -1);
        }
        assert(seen@.len() == 1) by {
            assert(seen@ =~= Set::<SctId>::empty().insert(concept_id));
        }
    }
    loop
        invariant_except_break
            found is None,
            seen@ == level_set(edges, concept_id, steps as int),
            level@.to_set() == level_set(edges, concept_id, steps as int).difference(
                level_set(edges, concept_id, steps - 1),
            ),
            !within(edges, concept_id, ancestor_id, steps - 1),
            steps < seen@.len(),
        invariant
            store.valid(),
            edges == store.edges(),
            all == endpoints(edges).insert(concept_id),
            all.finite(),
            seen@.subset_of(all),
        ensures
            match found {
                Some(d) => within(edges, concept_id, ancestor_id, d as int) && !within(
                    edges,
                    concept_id,
                    ancestor_id,
                    d - 1,
                ),
                None => forall|n: int| !within(edges, concept_id, ancestor_id, n),
            },
        decreases all.len() - seen@.len(),
    {
        if has_id(&level, ancestor_id) {
            proof {
                assert(level@.to_set().contains(ancestor_id));
            }
            found = Some(steps);
            break;
        }
        proof {
            if within(edges, concept_id, ancestor_id, steps as int) {
                assert(level_set(edges, concept_id, steps as int).contains(ancestor_id));
                assert(level@.to_set().contains(ancestor_id));
            }
        }
        let ghost seen_before = seen@;
        let ghost level_before = level@.to_set();
        let reached = seen.len();
        assert(steps < reached);
        let next = next_level(store, &level, &mut seen);
        proof {
            lemma_level_grows(edges, concept_id, steps as int, seen_before, level_before, next@.to_set());
            assert(seen@.subset_of(all)) by {
                assert forall|y: SctId| next@.to_set().contains(y) implies all.contains(y) by {
                    let x = choose|x: SctId|
                        level_before.contains(x) && #[trigger] edges.contains((x, y));
                    assert(endpoints(edges).contains(y));
                }
            }
            vstd::set_lib::lemma_len_subset(seen@, all);
        }
        if next.len() == 0 {
            proof {
                assert(next@.to_set() =~= Set::<SctId>::empty());
                assert(seen@ =~= seen_before);
                lemma_closed_level(edges, concept_id, steps as int, ancestor_id);
            }
            break;
        }
        proof {
            let y = next@[0];
            assert(next@.to_set().contains(y));
            seen_before.lemma_subset_not_in_lt(seen@, y);
        }
        steps = steps + 1;
        level = next;
    }
    found
}

/// With the parents of a level that were not reached before, the concepts
/// reached in at most `n` steps become those reached in at most `n + 1`, and
/// the new ones are those reached in `n + 1` steps and not in fewer.
pub proof fn lemma_level_grows(
    edges: Edges,
    a: SctId,
    n: int,
    seen: Set<SctId>,
    level: Set<SctId>,
    next: Set<SctId>,
)
    requires
        n >= 0,
        seen == level_set(edges, a, n),
        level == level_set(edges, a, n).difference(level_set(edges, a, n - 1)),
        next == parents_of_all(edges, level).difference(seen),
    ensures
        seen.union(next) == level_set(edges, a, n + 1),
        next == level_set(edges, a, n + 1).difference(level_set(edges, a, n)),
{
    assert forall|y: SctId| seen.union(next).contains(y) <==> within(edges, a, y, n + 1) by {
        if seen.contains(y) {
            lemma_within_more(edges, a, y, n, n + 1);
        }
        if next.contains(y) {
            let x = choose|x: SctId| level.contains(x) && #[trigger] edges.contains((x, y));
            lemma_within_step(edges, a, x, y, n);
        }
        if within(edges, a, y, n + 1) && !within(edges, a, y, n) {
            let m = lemma_within_last(edges, a, y, n + 1);
            if within(edges, a, m, n - 1) {
                lemma_within_step(edges, a, m, y, n - 1);
            }
            assert(level.contains(m));
            assert(parents_of_all(edges, level).contains(y));
        }
    }
    assert(seen.union(next) =~= level_set(edges, a, n + 1));
    assert(next =~= level_set(edges, a, n + 1).difference(level_set(edges, a, n)));
}

/// Where a level has no parent that was not reached before, what is reached
/// at all is reached in at most the steps of that level.
pub proof fn lemma_closed_level(edges: Edges, a: SctId, n: int, b: SctId)
    requires
        n >= 0,
        level_set(edges, a, n + 1) == level_set(edges, a, n),
        !within(edges, a, b, n),
    ensures
        forall|k: int| !within(edges, a, b, k),
{
    let seen = level_set(edges, a, n);
    lemma_within_itself(edges, a);
    lemma_within_more(edges, a, a, 0, n);
    assert forall|x: SctId, y: SctId|
        seen.contains(x) && #[trigger] edges.contains((x, y)) implies seen.contains(y) by {
        lemma_within_step(edges, a, x, y, n);
        assert(level_set(edges, a, n + 1).contains(y));
    }
    assert forall|k: int| !within(edges, a, b, k) by {
        if within(edges, a, b, k) {
            let p = choose|p: Seq<SctId>|
                #[trigger] is_way(edges, p) && p[0] == a && p.last() == b && p.len() - 1 <= k;
            lemma_closed_set_holds_way(edges, seen, p, p.len() - 1);
        }
    }
}

} // verus!
