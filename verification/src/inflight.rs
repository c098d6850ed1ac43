//! The changes a leader sent out for replication and has not committed yet,
//! with the peers that accepted each.

use vstd::prelude::*;

use crate::log::{LogIndex, Term};
use crate::nodes::{NodeId, NodeSet};

verus! {

/// A tracked change as the contracts see it: its key `(term, prev_log_index)`
/// and the peers that accepted it so far.
pub type Pending = ((Term, LogIndex), Set<Seq<char>>);

/// A change sent out for replication, and the peers that have accepted it so far.
#[derive(Debug)]
pub struct InflightAppendEntries {
    pub term: Term,
    pub prev_log_index: LogIndex,
    pub success_nodes: NodeSet,
}

/// The changes sent out for replication that are not committed yet, in the
/// order they were sent; no key `(term, prev_log_index)` occurs twice.
#[derive(Debug)]
pub struct InflightTable {
    entries: Vec<InflightAppendEntries>,
}

/// The table `items` after the change keyed `key` is (re)sent: an entry of that
/// key starts over with no accepting peer, in place; a new key goes last.
pub open spec fn pending_after(
    items: Seq<Pending>,
    key: (Term, LogIndex),
) -> Seq<Pending> {
    if items.map_values(|e: Pending| e.0).contains(key) {
        items.map_values(
            |e: Pending| if e.0 == key { (key, Set::<Seq<char>>::empty()) } else { e },
        )
    } else {
        items.push((key, Set::<Seq<char>>::empty()))
    }
}

/// The table `items` after peer `from` accepted the change keyed `key`.
pub open spec fn accepted_after(
    items: Seq<Pending>,
    key: (Term, LogIndex),
    from: Seq<char>,
) -> Seq<Pending> {
    items.map_values(
        |e: Pending| if e.0 == key { (e.0, e.1.insert(from)) } else { e },
    )
}

/// Whether enough peers accepted the change of `e`.
pub open spec fn reached_quorum(e: Pending, quorum: nat) -> bool {
    e.1.len() >= quorum
}

impl InflightTable {
    /// The changes awaiting acceptance, in the order they were sent: the key
    /// `(term, prev_log_index)` of each, and the peers that accepted it so far.
    pub closed spec fn items(&self) -> Seq<Pending> {
        self.entries@.map_values(
            |e: InflightAppendEntries| ((e.term, e.prev_log_index), e.success_nodes@),
        )
    }

    /// The keys, in order.
    pub open spec fn keys(&self) -> Seq<(Term, LogIndex)> {
        self.items().map_values(|e: Pending| e.0)
    }

    /// No key occurs twice, and no set of accepting peers holds an id twice.
    pub closed spec fn wf(&self) -> bool {
        &&& self.keys().no_duplicates()
        &&& forall|i: int|
            0 <= i < self.entries@.len() ==> (#[trigger] self.entries@[i]).success_nodes.wf()
    }

    /// The empty table.
    pub fn new() -> (t: InflightTable)
        ensures
            t.wf(),
            t.items() == Seq::<Pending>::empty(),
    {
        let t = InflightTable { entries: Vec::new() };
        assert(t.items() =~= Seq::<Pending>::empty());
        assert(t.keys() =~= Seq::<(Term, LogIndex)>::empty());
        t
    }

    /// Where the entry keyed `key` sits, if there is one.
    fn find(&self, key: (Term, LogIndex)) -> (pos: Option<usize>)
        requires
            self.wf(),
        ensures
            match pos {
                Some(i) => i < self.items().len() && self.items()[i as int].0 == key,
                None => !self.keys().contains(key),
            },
    {
        let mut i: usize = 0;
        while i < self.entries.len()
            invariant
                i <= self.entries@.len(),
                forall|j: int| 0 <= j < i ==> self.keys()[j] != key,
            decreases self.entries@.len() - i,
        {
            if self.entries[i].term == key.0 && self.entries[i].prev_log_index == key.1 {
                assert(self.items()[i as int].0 == key);
                return Some(i);
            }
            i = i + 1;
        }
        None
    }

    /// Starts tracking the change keyed `key` afresh, with no accepting peer.
    pub fn mark_pending(&mut self, key: (Term, LogIndex))
        requires
            old(self).wf(),
        ensures
            final(self).wf(),
            final(self).items() == pending_after(old(self).items(), key),
    {
        let fresh = InflightAppendEntries { term: key.0, prev_log_index: key.1, success_nodes: NodeSet::new() };
        match self.find(key) {
            Some(i) => {
                self.entries.set(i, fresh);
                proof {
                    let f = |e: Pending|
                        if e.0 == key { (key, Set::<Seq<char>>::empty()) } else { e };
                    assert(old(self).keys()[i as int] == key);
                    assert(old(self).keys().contains(key));
                    assert forall|j: int| 0 <= j < old(self).items().len() && j != i implies
                        old(self).items()[j].0 != key by {
                        assert(old(self).keys()[j] != old(self).keys()[i as int]);
                    }
                    assert(self.items() =~= old(self).items().map_values(f));
                    assert(self.keys() =~= old(self).keys());
                }
            },
            None => {
                self.entries.push(fresh);
                proof {
                    assert(self.items() =~= old(self).items().push((key, Set::<Seq<char>>::empty())));
                    assert(self.keys() =~= old(self).keys().push(key));
                }
            },
        }
    }

    /// Takes out the changes that at least `quorum` peers accepted and returns
    /// their keys in table order; the others stay, in order.
    pub fn take_committed(&mut self, quorum: usize) -> (committed: Vec<(Term, LogIndex)>)
        requires
            old(self).wf(),
        ensures
            final(self).wf(),
            committed@ == old(self).items().filter(
                |e: Pending| reached_quorum(e, quorum as nat),
            ).map_values(|e: Pending| e.0),
            final(self).items() == old(self).items().filter(
                |e: Pending| !reached_quorum(e, quorum as nat),
            ),
    {
        let ghost all = old(self).items();
        let ghost all_keys = old(self).keys();
        let mut taken: Vec<InflightAppendEntries> = Vec::new();
        std::mem::swap(&mut taken, &mut self.entries);
        let ghost orig = taken@;
        let mut committed: Vec<(Term, LogIndex)> = Vec::new();
        let n = taken.len();
        let mut i: usize = 0;
        assert(self.items() =~= all.take(0).filter(|e: Pending| !reached_quorum(e, quorum as nat)));
        assert(committed@ =~= all.take(0).filter(|e: Pending| reached_quorum(e, quorum as nat)).map_values(|e: Pending| e.0));
        while i < n
            invariant
                n == orig.len(),
                all == orig.map_values(
                    |e: InflightAppendEntries| ((e.term, e.prev_log_index), e.success_nodes@),
                ),
                all_keys == all.map_values(|e: Pending| e.0),
                all_keys.no_duplicates(),
                forall|j: int| 0 <= j < orig.len() ==> (#[trigger] orig[j]).success_nodes.wf(),
                i <= n,
                taken@ == orig.skip(i as int),
                self.items() == all.take(i as int).filter(|e: Pending| !reached_quorum(e, quorum as nat)),
                committed@ == all.take(i as int).filter(|e: Pending| reached_quorum(e, quorum as nat)).map_values(|e: Pending| e.0),
                forall|j: int| 0 <= j < self.entries@.len() ==> (#[trigger] self.entries@[j]).success_nodes.wf(),
                forall|j: int| 0 <= j < self.keys().len() ==> all_keys.take(i as int).contains(#[trigger] self.keys()[j]),
                self.keys().no_duplicates(),
            decreases n - i,
        {
            let e = taken.remove(0);
            assert(e == orig[i as int]);
            let ghost item = all[i as int];
            assert(all.take(i + 1) =~= all.take(i as int).push(item));
            assert(all_keys.take(i + 1) =~= all_keys.take(i as int).push(all_keys[i as int]));
            proof {
                all.take(i as int).lemma_filter_push(item, |e: Pending| reached_quorum(e, quorum as nat));
                all.take(i as int).lemma_filter_push(item, |e: Pending| !reached_quorum(e, quorum as nat));
            }
            let accepted = e.success_nodes.len();
            assert(orig[i as int].success_nodes.wf());
            assert(item.0 == (e.term, e.prev_log_index));
            assert(item.1 == e.success_nodes@);
            assert(accepted == item.1.len());
            if accepted >= quorum {
                let ghost before_committed = committed@;
                committed.push((e.term, e.prev_log_index));
                proof {
                    assert(reached_quorum(item, quorum as nat));
                    all.take(i as int).filter(|e: Pending| reached_quorum(e, quorum as nat)).lemma_push_map_commute(|e: Pending| e.0, item);
                    assert(all.take(i + 1).filter(|e: Pending| reached_quorum(e, quorum as nat)) == all.take(i as int).filter(|e: Pending| reached_quorum(e, quorum as nat)).push(item));
                    assert(committed@ == before_committed.push(item.0));
                }
            } else {
                let ghost before = self.keys();
                let ghost before_items = self.items();
                self.entries.push(e);
                proof {
                    before_items.lemma_push_map_commute(|e: Pending| e.0, item);
                    assert(self.items() =~= all.take(i as int).filter(|e: Pending| !reached_quorum(e, quorum as nat)).push(item));
                    assert(all_keys[i as int] == item.0);
                    assert(self.keys().len() == before.len() + 1);
                    assert forall|j: int| 0 <= j < before.len() implies self.keys()[j] == before[j] by {
                        assert(self.items()[j] == before_items[j]);
                    }
                    assert(self.keys()[before.len() as int] == item.0);
                    assert(self.keys() =~= before.push(all_keys[i as int]));
                    assert(!all_keys.take(i as int).contains(all_keys[i as int])) by {
                        if all_keys.take(i as int).contains(all_keys[i as int]) {
                            let j = choose|j: int| 0 <= j < i && all_keys.take(i as int)[j] == all_keys[i as int];
                            assert(all_keys[j] == all_keys[i as int]);
                        }
                    }
                    assert forall|j: int| 0 <= j < self.keys().len() implies
                        all_keys.take(i + 1).contains(#[trigger] self.keys()[j]) by {
                        if j < before.len() {
                            assert(all_keys.take(i as int).contains(before[j]));
                            let k = choose|k: int| 0 <= k < i && all_keys.take(i as int)[k] == before[j];
                            assert(all_keys.take(i + 1)[k] == before[j]);
                        } else {
                            assert(all_keys.take(i + 1)[i as int] == self.keys()[j]);
                        }
                    }
                }
            }
            i = i + 1;
        }
        assert(all.take(n as int) =~= all);
        committed
    }

    /// Records that peer `from` accepted the change keyed `key`; returns whether
    /// that change is tracked.
    pub fn record_success(&mut self, key: (Term, LogIndex), from: NodeId) -> (found: bool)
        requires
            old(self).wf(),
        ensures
            final(self).wf(),
            found == old(self).keys().contains(key),
            final(self).items() == accepted_after(old(self).items(), key, from@),
    {
        match self.find(key) {
            Some(i) => {
                let ghost fv = from@;
                let mut nodes = self.entries[i].success_nodes.duplicate();
                nodes.insert(from);
                self.entries.set(i, InflightAppendEntries { term: key.0, prev_log_index: key.1, success_nodes: nodes });
                proof {
                    let f = |e: Pending|
                        if e.0 == key { (e.0, e.1.insert(fv)) } else { e };
                    assert(old(self).keys()[i as int] == key);
                    assert forall|j: int| 0 <= j < old(self).items().len() && j != i implies
                        old(self).items()[j].0 != key by {
                        assert(old(self).keys()[j] != old(self).keys()[i as int]);
                    }
                    assert(self.items() =~= old(self).items().map_values(f));
                    assert(self.keys() =~= old(self).keys());
                    assert(old(self).entries@[i as int].success_nodes.wf());
                }
                true
            },
            None => {
                proof {
                    let f = |e: Pending|
                        if e.0 == key { (e.0, e.1.insert(from@)) } else { e };
                    assert forall|j: int| 0 <= j < old(self).items().len() implies
                        old(self).items()[j].0 != key by {
                        assert(old(self).keys()[j] == old(self).items()[j].0);
                    }
                    assert(self.items() =~= old(self).items().map_values(f));
                }
                false
            },
        }
    }
}

} // verus!
