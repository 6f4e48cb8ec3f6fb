//! The IS-A hierarchy as a graph: the edges from child to parent, what it
//! means for one concept to be an ancestor of another, and the search that
//! lists the ancestors or the descendants of a concept.

use vstd::prelude::*;
use std::collections::HashSet;
use crate::sctid::SctId;
use crate::queryable::EclQueryable;

verus! {

/// The edges of a hierarchy: pairs of a child and one of its parents.
pub type Edges = Set<(SctId, SctId)>;

/// One step along an edge: upward from a child to a parent, or downward
/// from a parent to a child.
pub open spec fn step(edges: Edges, up: bool, a: SctId, b: SctId) -> bool {
    if up {
        edges.contains((a, b))
    } else {
        edges.contains((b, a))
    }
}

/// Whether a sequence of concepts is a path: it holds two concepts or more,
/// and each is one step from the one before it.
pub open spec fn is_path(edges: Edges, up: bool, p: Seq<SctId>) -> bool {
    p.len() >= 2 && forall|i: int| 0 <= i < p.len() - 1 ==> step(edges, up, #[trigger] p[i], p[i + 1])
}

/// Whether `b` is reached from `a` by one step or more.
pub open spec fn connected(edges: Edges, up: bool, a: SctId, b: SctId) -> bool {
    exists|p: Seq<SctId>| #[trigger] is_path(edges, up, p) && p[0] == a && p.last() == b
}

/// The strict ancestors of a concept: every concept other than itself that
/// is reached from it by one or more steps from child to parent.
pub open spec fn ancestors_of(edges: Edges, a: SctId) -> Set<SctId> {
    Set::new(|b: SctId| b != a && connected(edges, true, a, b))
}

/// The strict descendants of a concept: every concept other than itself
/// that is reached from it by one or more steps from parent to child.
pub open spec fn descendants_of(edges: Edges, a: SctId) -> Set<SctId> {
    Set::new(|b: SctId| b != a && connected(edges, false, a, b))
}

/// The concepts that stand at an end of an edge.
pub open spec fn endpoints(edges: Edges) -> Set<SctId> {
    Set::new(|x: SctId| exists|y: SctId| edges.contains((x, y)) || edges.contains((y, x)))
}

/// A sequence in the opposite order.
pub open spec fn reversed(p: Seq<SctId>) -> Seq<SctId> {
    Seq::new(p.len(), |i: int| p[p.len() - 1 - i])
}

/// One step connects.
pub proof fn lemma_step_connects(edges: Edges, up: bool, a: SctId, b: SctId)
    requires
        step(edges, up, a, b),
    ensures
        connected(edges, up, a, b),
{
    let p = seq![a, b];
    assert(is_path(edges, up, p));
    assert(p[0] == a && p.last() == b);
}

/// A connection that is followed by one more step is a connection.
pub proof fn lemma_connected_then_step(edges: Edges, up: bool, a: SctId, m: SctId, b: SctId)
    requires
        connected(edges, up, a, m),
        step(edges, up, m, b),
    ensures
        connected(edges, up, a, b),
{
    let p = choose|p: Seq<SctId>| #[trigger] is_path(edges, up, p) && p[0] == a && p.last() == m;
    let q = p.push(b);
    assert forall|i: int| 0 <= i < q.len() - 1 implies step(edges, up, #[trigger] q[i], q[i + 1]) by {
        if i < p.len() - 1 {
            assert(step(edges, up, p[i], p[i + 1]));
        }
    }
    assert(is_path(edges, up, q));
    assert(q[0] == a && q.last() == b);
}

/// A step that is followed by a connection is a connection.
pub proof fn lemma_step_then_connected(edges: Edges, up: bool, a: SctId, m: SctId, b: SctId)
    requires
        step(edges, up, a, m),
        connected(edges, up, m, b),
    ensures
        connected(edges, up, a, b),
{
    let p = choose|p: Seq<SctId>| #[trigger] is_path(edges, up, p) && p[0] == m && p.last() == b;
    let q = seq![a] + p;
    assert forall|i: int| 0 <= i < q.len() - 1 implies step(edges, up, #[trigger] q[i], q[i + 1]) by {
        if i > 0 {
            assert(step(edges, up, p[i - 1], p[i - 1 + 1]));
        }
    }
    assert(is_path(edges, up, q));
    assert(q[0] == a && q.last() == b);
}

/// `b` is reached upward from `a` exactly where `a` is reached downward
/// from `b`.
pub proof fn lemma_connected_reverse(edges: Edges, a: SctId, b: SctId)
    ensures
        connected(edges, true, a, b) <==> connected(edges, false, b, a),
{
    if connected(edges, true, a, b) {
        let p = choose|p: Seq<SctId>|
            #[trigger] is_path(edges, true, p) && p[0] == a && p.last() == b;
        let q = reversed(p);
        assert forall|i: int| 0 <= i < q.len() - 1 implies step(
            edges,
            false,
            #[trigger] q[i],
            q[i + 1],
        ) by {
            assert(step(edges, true, p[p.len() - 2 - i], p[p.len() - 2 - i + 1]));
        }
        assert(is_path(edges, false, q));
        assert(q[0] == b && q.last() == a);
    }
    if connected(edges, false, b, a) {
        let p = choose|p: Seq<SctId>|
            #[trigger] is_path(edges, false, p) && p[0] == b && p.last() == a;
        let q = reversed(p);
        assert forall|i: int| 0 <= i < q.len() - 1 implies step(
            edges,
            true,
            #[trigger] q[i],
            q[i + 1],
        ) by {
            assert(step(edges, false, p[p.len() - 2 - i], p[p.len() - 2 - i + 1]));
        }
        assert(is_path(edges, true, q));
        assert(q[0] == a && q.last() == b);
    }
}

/// One concept is a strict ancestor of another exactly where the other is a
/// strict descendant of it.
pub proof fn lemma_ancestor_descendant(edges: Edges, a: SctId, b: SctId)
    ensures
        ancestors_of(edges, a).contains(b) <==> descendants_of(edges, b).contains(a),
{
    lemma_connected_reverse(edges, a, b);
}

/// The parent of an edge is an ancestor of its child, and the child a
/// descendant of its parent, unless the edge leads from a concept to itself.
pub proof fn lemma_edge_is_ancestor(edges: Edges, child: SctId, parent: SctId)
    requires
        edges.contains((child, parent)),
        child != parent,
    ensures
        ancestors_of(edges, child).contains(parent),
        descendants_of(edges, parent).contains(child),
{
    lemma_step_connects(edges, true, child, parent);
    lemma_step_connects(edges, false, parent, child);
}

/// What is reached from a concept is what is one step from it and what is
/// reached from the concepts one step from it: the ancestors of a concept
/// are its parents and the ancestors of its parents.
pub proof fn lemma_connected_unfold(edges: Edges, up: bool, a: SctId, b: SctId)
    ensures
        connected(edges, up, a, b) <==> (step(edges, up, a, b) || exists|m: SctId|
            step(edges, up, a, m) && #[trigger] connected(edges, up, m, b)),
{
    if connected(edges, up, a, b) {
        let p = choose|p: Seq<SctId>| #[trigger] is_path(edges, up, p) && p[0] == a && p.last() == b;
        assert(step(edges, up, p[0], p[0int + 1]));
        if p.len() > 2 {
            let q = p.skip(1);
            assert forall|i: int| 0 <= i < q.len() - 1 implies step(
                edges,
                up,
                #[trigger] q[i],
                q[i + 1],
            ) by {
                assert(step(edges, up, p[i + 1], p[i + 1 + 1]));
            }
            assert(is_path(edges, up, q));
            assert(q[0] == p[1] && q.last() == b);
            assert(connected(edges, up, p[1], b));
        }
    }
    if step(edges, up, a, b) {
        lemma_step_connects(edges, up, a, b);
    }
    if exists|m: SctId| step(edges, up, a, m) && #[trigger] connected(edges, up, m, b) {
        let m = choose|m: SctId| step(edges, up, a, m) && #[trigger] connected(edges, up, m, b);
        lemma_step_then_connected(edges, up, a, m, b);
    }
}

/// Whatever is reached from a concept stands at an end of an edge.
pub proof fn lemma_connected_endpoint(edges: Edges, up: bool, a: SctId, b: SctId)
    requires
        connected(edges, up, a, b),
    ensures
        endpoints(edges).contains(b),
{
    let p = choose|p: Seq<SctId>| #[trigger] is_path(edges, up, p) && p[0] == a && p.last() == b;
    let x = p[p.len() - 2];
    assert(step(edges, up, p[p.len() - 2], p[p.len() - 2 + 1]));
    assert(edges.contains((x, b)) || edges.contains((b, x)));
}

/// A set that holds every concept one step from the start of a path, and
/// with each of its members every concept one step from that member, holds
/// every concept of the path after the first.
pub proof fn lemma_closed_set_holds_path(
    edges: Edges,
    up: bool,
    seen: Set<SctId>,
    p: Seq<SctId>,
    i: int,
)
    requires
        is_path(edges, up, p),
        forall|y: SctId| #[trigger] step(edges, up, p[0], y) ==> seen.contains(y),
        forall|x: SctId, y: SctId|
            seen.contains(x) && #[trigger] step(edges, up, x, y) ==> seen.contains(y),
        1 <= i < p.len(),
    ensures
        seen.contains(p[i]),
    decreases i,
{
    assert(step(edges, up, p[i - 1], p[i - 1 + 1]));
    if i > 1 {
        lemma_closed_set_holds_path(edges, up, seen, p, i - 1);
    }
}

/// A set that holds every concept one step from `a`, and with each of its
/// members every concept one step from that member, holds everything that is
/// reached from `a`.
pub proof fn lemma_closed_set_holds_all(
    edges: Edges,
    up: bool,
    a: SctId,
    seen: Set<SctId>,
    b: SctId,
)
    requires
        forall|y: SctId| #[trigger] step(edges, up, a, y) ==> seen.contains(y),
        forall|x: SctId, y: SctId|
            seen.contains(x) && #[trigger] step(edges, up, x, y) ==> seen.contains(y),
        connected(edges, up, a, b),
    ensures
        seen.contains(b),
{
    let p = choose|p: Seq<SctId>| #[trigger] is_path(edges, up, p) && p[0] == a && p.last() == b;
    lemma_closed_set_holds_path(edges, up, seen, p, p.len() - 1);
}

/// The concepts one step from a concept of a store: its parents or its
/// children.
fn neighbours<Q: EclQueryable>(store: &Q, id: SctId, up: bool) -> (r: Vec<SctId>)
    requires
        store.valid(),
    ensures
        forall|b: SctId| r@.contains(b) <==> step(store.edges(), up, id, b),
{
    if up {
        store.get_parents(id)
    } else {
        store.get_children(id)
    }
}

/// Every concept that is reached from `start` by one step or more, upward
/// or downward, each once, in the order in which a breadth-first search
/// finds them. Where the hierarchy has a cycle through `start`, `start` is
/// among them.
pub fn reachable<Q: EclQueryable>(store: &Q, start: SctId, up: bool) -> (r: Vec<SctId>)
    requires
        store.valid(),
    ensures
        r@.no_duplicates(),
        forall|b: SctId| r@.contains(b) <==> connected(store.edges(), up, start, b),
{
    let ghost edges = store.edges();
    let ghost all = endpoints(edges);
    proof {
        store.lemma_edges();
    }
    let mut seen: HashSet<SctId> = HashSet::new();
    let mut found: Vec<SctId> = Vec::new();
    let mut queue: Vec<SctId> = neighbours(store, start, up);
    let mut head: usize = 0;
    proof {
        assert forall|i: int| 0 <= i < queue@.len() implies connected(
            edges,
            up,
            start,
            #[trigger] queue@[i],
        ) by {
            assert(queue@.contains(queue@[i]));
            lemma_step_connects(edges, up, start, queue@[i]);
        }
    }
    while head < queue.len()
        invariant
            store.valid(),
            edges == store.edges(),
            all == endpoints(edges),
            all.finite(),
            head <= queue.len(),
            found@.no_duplicates(),
            found@.to_set() == seen@,
            seen@.subset_of(all),
            forall|i: int|
                0 <= i < queue@.len() ==> connected(edges, up, start, #[trigger] queue@[i]),
            forall|i: int| 0 <= i < head ==> seen@.contains(#[trigger] queue@[i]),
            forall|x: SctId| seen@.contains(x) ==> queue@.contains(x),
            forall|y: SctId| #[trigger] step(edges, up, start, y) ==> queue@.contains(y),
            forall|x: SctId, y: SctId|
                seen@.contains(x) && #[trigger] step(edges, up, x, y) ==> queue@.contains(y),
        decreases all.len() - found@.len(), queue.len() - head,
    {
        let current = queue[head];
        let ghost old_queue = queue@;
        let ghost old_found = found@;
        proof {
            found@.unique_seq_to_set();
            vstd::set_lib::lemma_len_subset(seen@, all);
        }
        head = head + 1;
        if seen.insert(current) {
            found.push(current);
            proof {
                lemma_connected_endpoint(edges, up, start, current);
                assert(found@.to_set() =~= seen@) by {
                    assert forall|x: SctId| found@.to_set().contains(x) <==> seen@.contains(
                        x,
                    ) by {
                        if found@.contains(x) {
                            let i = choose|i: int| 0 <= i < found@.len() && found@[i] == x;
                            if i < old_found.len() {
                                assert(old_found[i] == x);
                                assert(old_found.contains(x));
                            }
                        }
                        if seen@.contains(x) {
                            if x == current {
                                assert(found@[old_found.len() as int] == x);
                            } else {
                                assert(old_found.to_set().contains(x));
                                let i = choose|i: int|
                                    0 <= i < old_found.len() && old_found[i] == x;
                                assert(found@[i] == x);
                            }
                        }
                    }
                }
                assert(found@.no_duplicates()) by {
                    assert(!old_found.to_set().contains(current));
                    assert forall|i: int, j: int|
                        0 <= i < found@.len() && 0 <= j < found@.len() && i != j implies found@[i]
                        != found@[j] by {
                        if i < old_found.len() && j < old_found.len() {
                            assert(old_found[i] != old_found[j]);
                        } else if i < old_found.len() {
                            assert(old_found.contains(found@[i]));
                        } else {
                            assert(old_found.contains(found@[j]));
                        }
                    }
                }
                found@.unique_seq_to_set();
                vstd::set_lib::lemma_len_subset(seen@, all);
            }
            let next = neighbours(store, current, up);
            let mut i: usize = 0;
            while i < next.len()
                invariant
                    i <= next.len(),
                    head <= old_queue.len() <= queue.len(),
                    forall|k: int| 0 <= k < old_queue.len() ==> queue@[k] == old_queue[k],
                    forall|k: int|
                        0 <= k < queue@.len() ==> connected(edges, up, start, #[trigger] queue@[k]),
                    forall|k: int| 0 <= k < i ==> queue@.contains(#[trigger] next@[k]),
                    forall|b: SctId| next@.contains(b) <==> step(edges, up, current, b),
                    connected(edges, up, start, current),
                decreases next.len() - i,
            {
                let ghost before = queue@;
                queue.push(next[i]);
                proof {
                    assert(queue@[before.len() as int] == next@[i as int]);
                    assert forall|k: int| 0 <= k < i + 1 implies queue@.contains(
                        #[trigger] next@[k],
                    ) by {
                        if k < i {
                            let j = choose|j: int| 0 <= j < before.len() && before[j] == next@[k];
                            assert(queue@[j] == next@[k]);
                        }
                    }
                    assert(connected(edges, up, start, next@[i as int])) by {
                        assert(next@.contains(next@[i as int]));
                        lemma_connected_then_step(edges, up, start, current, next@[i as int]);
                    }
                }
                i = i + 1;
            }
            proof {
                assert forall|x: SctId| seen@.contains(x) implies queue@.contains(x) by {
                    if x == current {
                        assert(queue@[head - 1] == current);
                    } else {
                        let j = choose|j: int| 0 <= j < old_queue.len() && old_queue[j] == x;
                        assert(queue@[j] == x);
                    }
                }
                assert forall|y: SctId| #[trigger]
                    step(edges, up, start, y) implies queue@.contains(y) by {
                    let j = choose|j: int| 0 <= j < old_queue.len() && old_queue[j] == y;
                    assert(queue@[j] == y);
                }
                assert forall|x: SctId, y: SctId|
                    seen@.contains(x) && #[trigger] step(edges, up, x, y) implies queue@.contains(
                    y,
                ) by {
                    if x == current {
                        assert(next@.contains(y));
                        let k = choose|k: int| 0 <= k < next@.len() && next@[k] == y;
                        assert(queue@.contains(next@[k]));
                    } else {
                        let j = choose|j: int| 0 <= j < old_queue.len() && old_queue[j] == y;
                        assert(queue@[j] == y);
                    }
                }
                assert forall|k: int| 0 <= k < head implies seen@.contains(
                    #[trigger] queue@[k],
                ) by {
                    assert(queue@[k] == old_queue[k]);
                }
            }
        }
    }
    proof {
        assert forall|b: SctId| found@.contains(b) <==> connected(edges, up, start, b) by {
            if found@.contains(b) {
                assert(seen@.contains(b));
                let j = choose|j: int| 0 <= j < queue@.len() && queue@[j] == b;
            }
            if connected(edges, up, start, b) {
                assert forall|y: SctId| #[trigger]
                    step(edges, up, start, y) implies seen@.contains(y) by {
                    let j = choose|j: int| 0 <= j < queue@.len() && queue@[j] == y;
                }
                assert forall|x: SctId, y: SctId|
                    seen@.contains(x) && #[trigger] step(edges, up, x, y) implies seen@.contains(
                    y,
                ) by {
                    let j = choose|j: int| 0 <= j < queue@.len() && queue@[j] == y;
                }
                lemma_closed_set_holds_all(edges, up, start, seen@, b);
            }
        }
    }
    found
}

/// A list without one identifier, the others in their order.
pub fn without(list: &Vec<SctId>, skip: SctId) -> (r: Vec<SctId>)
    requires
        list@.no_duplicates(),
    ensures
        r@.no_duplicates(),
        r@.to_set() == list@.to_set().remove(skip),
{
    let mut out: Vec<SctId> = Vec::new();
    let mut i: usize = 0;
    assert(out@.to_set() =~= list@.take(0).to_set().remove(skip));
    while i < list.len()
        invariant
            i <= list.len(),
            list@.no_duplicates(),
            out@.no_duplicates(),
            out@.to_set() == list@.take(i as int).to_set().remove(skip),
        decreases list.len() - i,
    {
        proof {
            crate::closure::lemma_take_next(list@, i as int);
        }
        if list[i] != skip {
            let ghost before = out@;
            proof {
                if before.contains(list@[i as int]) {
                    assert(before.to_set().contains(list@[i as int]));
                    assert(list@.take(i as int).to_set().contains(list@[i as int]));
                    let j = choose|j: int|
                        0 <= j < i && list@.take(i as int)[j] == list@[i as int];
                    assert(list@[j] == list@[i as int]);
                }
            }
            out.push(list[i]);
            proof {
                crate::closure::lemma_push_new(before, list@[i as int]);
            }
        }
        i = i + 1;
        assert(out@.to_set() =~= list@.take(i as int).to_set().remove(skip));
    }
    assert(list@.take(list.len() as int) =~= list@);
    out
}

} // verus!
