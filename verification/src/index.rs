//! An index from identifiers to lists of items that keeps, for each
//! identifier, the items in the order in which they were added.

use vstd::prelude::*;
use std::collections::HashMap;
use crate::sctid::SctId;

verus! {

/// The items of a log of entries that were added under the key `k`, in the
/// order of the log.
pub open spec fn picked<T>(entries: Seq<(SctId, T)>, k: SctId) -> Seq<T>
    decreases entries.len(),
{
    if entries.len() == 0 {
        Seq::empty()
    } else {
        let rest = picked(entries.drop_last(), k);
        if entries.last().0 == k {
            rest.push(entries.last().1)
        } else {
            rest
        }
    }
}

/// Whether an entry of the log has the key `k`.
pub open spec fn has_key<T>(entries: Seq<(SctId, T)>, k: SctId) -> bool {
    exists|i: int| 0 <= i < entries.len() && (#[trigger] entries[i]).0 == k
}

/// The keys of a log of entries, each once, in the order in which they
/// first appear.
pub open spec fn first_keys<T>(entries: Seq<(SctId, T)>) -> Seq<SctId>
    decreases entries.len(),
{
    if entries.len() == 0 {
        Seq::empty()
    } else {
        let rest = first_keys(entries.drop_last());
        if has_key(entries.drop_last(), entries.last().0) {
            rest
        } else {
            rest.push(entries.last().0)
        }
    }
}

/// A number of items as a counter holds it: the number itself, or the
/// largest value of the counter where the number is beyond it.
pub open spec fn counted(n: nat) -> usize {
    if n > usize::MAX {
        usize::MAX
    } else {
        n as usize
    }
}

/// Adding an entry adds its item to the items of its key, at the end, and
/// leaves the items of every other key as they are.
pub proof fn lemma_picked_push<T>(entries: Seq<(SctId, T)>, k: SctId, x: T, j: SctId)
    ensures
        picked(entries.push((k, x)), j) == if j == k {
            picked(entries, j).push(x)
        } else {
            picked(entries, j)
        },
{
    assert(entries.push((k, x)).drop_last() =~= entries);
}

/// Every item picked for a key stands in the log under that key, and every
/// entry of the log stands among the items picked for its key.
pub proof fn lemma_picked_members<T>(entries: Seq<(SctId, T)>, k: SctId)
    ensures
        forall|x: T| #[trigger] picked(entries, k).contains(x) ==> entries.contains((k, x)),
        forall|x: T| #[trigger] entries.contains((k, x)) ==> picked(entries, k).contains(x),
        picked(entries, k).len() > 0 <==> has_key(entries, k),
        picked(entries, k).len() <= entries.len(),
    decreases entries.len(),
{
    if entries.len() > 0 {
        let rest = entries.drop_last();
        let last = entries.last();
        lemma_picked_members(rest, k);
        let all = picked(entries, k);
        let before = picked(rest, k);
        assert forall|x: T| all.contains(x) implies entries.contains((k, x)) by {
            let i = choose|i: int| 0 <= i < all.len() && all[i] == x;
            if i < before.len() {
                assert(before[i] == x);
                assert(before.contains(x));
                let j = choose|j: int| 0 <= j < rest.len() && rest[j] == (k, x);
                assert(entries[j] == (k, x));
            } else {
                assert(last.0 == k && last.1 == x);
                assert(entries[entries.len() - 1] == (k, x));
            }
        }
        assert forall|x: T| entries.contains((k, x)) implies all.contains(x) by {
            let i = choose|i: int| 0 <= i < entries.len() && entries[i] == (k, x);
            if i < rest.len() {
                assert(rest[i] == (k, x));
                assert(rest.contains((k, x)));
                let j = choose|j: int| 0 <= j < before.len() && before[j] == x;
                assert(all[j] == x);
            } else {
                assert(last == (k, x));
                assert(all[before.len() as int] == x);
            }
        }
        if has_key(entries, k) {
            let i = choose|i: int| 0 <= i < entries.len() && (#[trigger] entries[i]).0 == k;
            if i < rest.len() {
                assert(rest[i].0 == k);
            }
        }
        if has_key(rest, k) {
            let i = choose|i: int| 0 <= i < rest.len() && (#[trigger] rest[i]).0 == k;
            assert(entries[i].0 == k);
        }
        if last.0 == k {
            assert(entries[entries.len() - 1].0 == k);
        }
    }
}

/// The keys in order of first appearance are the keys of the log, each
/// once.
pub proof fn lemma_first_keys<T>(entries: Seq<(SctId, T)>)
    ensures
        first_keys(entries).no_duplicates(),
        forall|k: SctId| #[trigger] first_keys(entries).contains(k) <==> has_key(entries, k),
    decreases entries.len(),
{
    if entries.len() > 0 {
        let rest = entries.drop_last();
        let last = entries.last();
        lemma_first_keys(rest);
        let keys = first_keys(entries);
        let before = first_keys(rest);
        assert forall|k: SctId| #[trigger] keys.contains(k) <==> has_key(entries, k) by {
            if keys.contains(k) {
                let i = choose|i: int| 0 <= i < keys.len() && keys[i] == k;
                if i < before.len() {
                    assert(before[i] == k);
                    assert(before.contains(k));
                    let j = choose|j: int| 0 <= j < rest.len() && (#[trigger] rest[j]).0 == k;
                    assert(entries[j].0 == k);
                } else {
                    assert(entries[entries.len() - 1].0 == k);
                }
            }
            if has_key(entries, k) {
                let j = choose|j: int| 0 <= j < entries.len() && (#[trigger] entries[j]).0 == k;
                if j < rest.len() {
                    assert(rest[j].0 == k);
                    assert(has_key(rest, k));
                    assert(before.contains(k));
                    let i = choose|i: int| 0 <= i < before.len() && before[i] == k;
                    assert(keys[i] == k);
                } else if has_key(rest, k) {
                    assert(before.contains(k));
                    let i = choose|i: int| 0 <= i < before.len() && before[i] == k;
                    assert(keys[i] == k);
                } else {
                    assert(keys[before.len() as int] == k);
                }
            }
        }
        if !has_key(rest, last.0) {
            assert(!before.contains(last.0));
            assert forall|i: int, j: int|
                0 <= i < keys.len() && 0 <= j < keys.len() && i != j implies keys[i]
                != keys[j] by {
                if i < before.len() && j < before.len() {
                    assert(before[i] != before[j]);
                } else if i < before.len() {
                    assert(before[i] == keys[i]);
                    assert(before.contains(keys[i]));
                } else {
                    assert(before[j] == keys[j]);
                    assert(before.contains(keys[j]));
                }
            }
        }
    }
}

/// An index from identifiers to lists of items.
pub struct Index<T> {
    map: HashMap<SctId, Vec<T>>,
    order: Vec<SctId>,
    total: usize,
    log: Ghost<Seq<(SctId, T)>>,
}

impl<T> Index<T> {
    /// Everything that was added to the index, each item with its key, in
    /// the order of adding.
    pub closed spec fn entries(&self) -> Seq<(SctId, T)> {
        self.log@
    }

    /// The items under the key `k`, in the order of adding.
    pub open spec fn rows(&self, k: SctId) -> Seq<T> {
        picked(self.entries(), k)
    }

    /// The invariant of the index: the lists it holds are the items of the
    /// log, key by key.
    pub closed spec fn wf(&self) -> bool {
        &&& self.total == counted(self.log@.len())
        &&& self.order@ == first_keys(self.log@)
        &&& forall|k: SctId| #[trigger]
            self.map@.contains_key(k) ==> self.map@[k]@ == picked(self.log@, k)
                && self.map@[k]@.len() > 0
        &&& forall|k: SctId|
            !self.map@.contains_key(k) ==> (#[trigger] picked(self.log@, k)).len() == 0
    }

    /// An index that holds nothing.
    pub fn new() -> (r: Self)
        ensures
            r.wf(),
            r.entries() == Seq::<(SctId, T)>::empty(),
    {
        Index { map: HashMap::new(), order: Vec::new(), total: 0, log: Ghost(Seq::empty()) }
    }

    /// An index that holds nothing, with room for `capacity` keys.
    pub fn with_capacity(capacity: usize) -> (r: Self)
        ensures
            r.wf(),
            r.entries() == Seq::<(SctId, T)>::empty(),
    {
        Index {
            map: HashMap::with_capacity(capacity),
            order: Vec::with_capacity(capacity),
            total: 0,
            log: Ghost(Seq::empty()),
        }
    }

    /// Adds an item at the end of the list of a key.
    pub fn push(&mut self, k: SctId, x: T)
        requires
            old(self).wf(),
        ensures
            final(self).wf(),
            final(self).entries() == old(self).entries().push((k, x)),
    {
        let ghost before = self.log@;
        proof {
            lemma_picked_members(before, k);
        }
        let mut list = match self.map.remove(&k) {
            Some(list) => list,
            None => {
                self.order.push(k);
                Vec::new()
            },
        };
        list.push(x);
        self.map.insert(k, list);
        if self.total < usize::MAX {
            self.total = self.total + 1;
        }
        self.log = Ghost(before.push((k, x)));
        proof {
            assert(self.log@.drop_last() =~= before);
            assert forall|j: SctId| #[trigger]
                self.map@.contains_key(j) implies self.map@[j]@ == picked(self.log@, j)
                && self.map@[j]@.len() > 0 by {
                lemma_picked_push(before, k, x, j);
            }
            assert forall|j: SctId| !self.map@.contains_key(j) implies (#[trigger] picked(
                self.log@,
                j,
            )).len() == 0 by {
                lemma_picked_push(before, k, x, j);
            }
        }
    }

    /// The list of a key; `None` where nothing was added under it.
    pub fn get(&self, k: SctId) -> (r: Option<&Vec<T>>)
        requires
            self.wf(),
        ensures
            match r {
                Some(list) => list@ == self.rows(k) && list@.len() > 0,
                None => self.rows(k).len() == 0,
            },
    {
        self.map.get(&k)
    }

    /// Whether something was added under a key.
    pub fn contains_key(&self, k: SctId) -> (r: bool)
        requires
            self.wf(),
        ensures
            r == (self.rows(k).len() > 0),
    {
        self.map.contains_key(&k)
    }

    /// The keys that hold an item, each once, in the order in which they
    /// first got one.
    pub fn key_list(&self) -> (r: &Vec<SctId>)
        requires
            self.wf(),
        ensures
            r@ == first_keys(self.entries()),
            r@.no_duplicates(),
    {
        proof {
            lemma_first_keys(self.log@);
        }
        &self.order
    }

    /// Whether the index holds nothing.
    pub fn is_empty(&self) -> (r: bool)
        requires
            self.wf(),
        ensures
            r == (self.entries().len() == 0),
    {
        proof {
            if self.log@.len() > 0 {
                let k = self.log@[0].0;
                lemma_picked_members(self.log@, k);
                assert(has_key(self.log@, k));
                assert(self.map@.contains_key(k));
            } else {
                assert forall|k: SctId| !self.map@.contains_key(k) by {
                    if self.map@.contains_key(k) {
                        assert(picked(self.log@, k).len() > 0);
                    }
                }
                assert(self.map@.dom() =~= Set::<SctId>::empty());
            }
        }
        self.map.is_empty()
    }

    /// The number of items in the index, over all keys.
    pub fn total(&self) -> (r: usize)
        requires
            self.wf(),
        ensures
            r == counted(self.entries().len()),
    {
        self.total
    }
}

} // verus!
