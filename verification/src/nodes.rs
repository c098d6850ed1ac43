//! Sets and maps keyed by node id. Each keeps its keys in a vector, in the order
//! they were first inserted, and no key occurs twice.

use vstd::prelude::*;

verus! {

/// The name of a node: the port it listens on.
pub type NodeId = String;

/// A set of node ids.
#[derive(Debug)]
pub struct NodeSet {
    ids: Vec<NodeId>,
}

impl NodeSet {
    /// The ids in the order they were inserted.
    pub closed spec fn ids(&self) -> Seq<Seq<char>> {
        self.ids@.map_values(|s: String| s@)
    }

    /// No id occurs twice.
    pub open spec fn wf(&self) -> bool {
        self.ids().no_duplicates()
    }

    /// The empty set.
    pub fn new() -> (s: NodeSet)
        ensures
            s.wf(),
            s.ids() == Seq::<Seq<char>>::empty(),
            s@ == Set::<Seq<char>>::empty(),
    {
        let s = NodeSet { ids: Vec::new() };
        assert(s.ids() =~= Seq::<Seq<char>>::empty());
        assert(s@ =~= Set::<Seq<char>>::empty());
        s
    }

    /// The number of ids in the set.
    pub fn len(&self) -> (n: usize)
        ensures
            n == self.ids().len(),
            self.wf() ==> n == self@.len(),
    {
        proof {
            if self.wf() {
                self.ids().unique_seq_to_set();
            }
        }
        self.ids.len()
    }

    /// The id at position `i` in insertion order.
    pub fn get(&self, i: usize) -> (id: &NodeId)
        requires
            i < self.ids().len(),
        ensures
            id@ == self.ids()[i as int],
    {
        &self.ids[i]
    }

    /// A copy of the set.
    pub fn duplicate(&self) -> (s: NodeSet)
        ensures
            s.ids() == self.ids(),
            s@ == self@,
    {
        let mut ids: Vec<NodeId> = Vec::new();
        let mut i: usize = 0;
        while i < self.ids.len()
            invariant
                i <= self.ids@.len(),
                ids@.map_values(|s: String| s@) == self.ids().take(i as int),
            decreases self.ids@.len() - i,
        {
            ids.push(self.ids[i].clone());
            assert(self.ids().take(i + 1) =~= self.ids().take(i as int).push(self.ids()[i as int]));
            assert(ids@.map_values(|s: String| s@) =~= self.ids().take(i + 1));
            i = i + 1;
        }
        assert(self.ids().take(self.ids@.len() as int) =~= self.ids());
        NodeSet { ids }
    }

    /// Whether `id` is in the set.
    pub fn contains(&self, id: &NodeId) -> (b: bool)
        ensures
            b == self@.contains(id@),
    {
        let mut i: usize = 0;
        while i < self.ids.len()
            invariant
                i <= self.ids@.len(),
                forall|j: int| 0 <= j < i ==> self.ids()[j] != id@,
            decreases self.ids@.len() - i,
        {
            if self.ids[i] == *id {
                assert(self.ids()[i as int] == id@);
                assert(self.ids().contains(id@));
                return true;
            }
            i = i + 1;
        }
        false
    }

    /// Adds `id`; returns whether it was new.
    pub fn insert(&mut self, id: NodeId) -> (added: bool)
        requires
            old(self).wf(),
        ensures
            final(self).wf(),
            added == !old(self)@.contains(id@),
            final(self).ids() == (if added { old(self).ids().push(id@) } else { old(self).ids() }),
            final(self)@ == old(self)@.insert(id@),
    {
        if self.contains(&id) {
            assert(old(self)@.insert(id@) =~= old(self)@);
            false
        } else {
            let ghost v = id@;
            self.ids.push(id);
            assert(self.ids() =~= old(self).ids().push(v));
            proof {
                old(self).ids().lemma_push_to_set_commute(v);
            }
            true
        }
    }
}

impl View for NodeSet {
    type V = Set<Seq<char>>;

    open spec fn view(&self) -> Set<Seq<char>> {
        self.ids().to_set()
    }
}

/// A map from node ids to values.
#[derive(Debug)]
pub struct NodeMap<V> {
    pairs: Vec<(NodeId, V)>,
}

impl<V> NodeMap<V> {
    /// The keys in the order they were first inserted.
    pub closed spec fn keys(&self) -> Seq<Seq<char>> {
        self.pairs@.map_values(|p: (String, V)| p.0@)
    }

    /// The values, position by position with `keys()`.
    pub closed spec fn vals(&self) -> Seq<V> {
        self.pairs@.map_values(|p: (String, V)| p.1)
    }

    /// No key occurs twice.
    pub open spec fn wf(&self) -> bool {
        self.keys().no_duplicates()
    }

    proof fn lemma_index(&self, i: int)
        requires
            self.wf(),
            0 <= i < self.keys().len(),
        ensures
            self.keys().index_of(self.keys()[i]) == i,
            self@.dom().contains(self.keys()[i]),
            self@[self.keys()[i]] == self.vals()[i],
    {
        let k = self.keys()[i];
        assert(self.keys().contains(k));
        let j = self.keys().index_of(k);
        assert(0 <= j < self.keys().len() && self.keys()[j] == k);
    }

    /// The empty map.
    pub fn new() -> (m: NodeMap<V>)
        ensures
            m.wf(),
            m@ == Map::<Seq<char>, V>::empty(),
    {
        let m = NodeMap { pairs: Vec::new() };
        assert(m.keys() =~= Seq::<Seq<char>>::empty());
        assert(m@ =~= Map::<Seq<char>, V>::empty());
        m
    }

    /// The position of `k` among the keys, if it is there.
    fn find(&self, k: &NodeId) -> (pos: Option<usize>)
        requires
            self.wf(),
        ensures
            match pos {
                Some(i) => i < self.keys().len() && self.keys()[i as int] == k@,
                None => !self@.dom().contains(k@),
            },
    {
        let mut i: usize = 0;
        while i < self.pairs.len()
            invariant
                i <= self.pairs@.len(),
                forall|j: int| 0 <= j < i ==> self.keys()[j] != k@,
            decreases self.pairs@.len() - i,
        {
            if self.pairs[i].0 == *k {
                return Some(i);
            }
            i = i + 1;
        }
        None
    }

    /// The number of keys in the map.
    pub fn len(&self) -> (n: usize)
        requires
            self.wf(),
        ensures
            n == self@.dom().len(),
    {
        proof {
            self.keys().unique_seq_to_set();
            assert(self@.dom() =~= self.keys().to_set());
        }
        self.pairs.len()
    }

    /// The value of `k`, if `k` is a key.
    pub fn get(&self, k: &NodeId) -> (v: Option<&V>)
        requires
            self.wf(),
        ensures
            v == (if self@.dom().contains(k@) {
                Some(&self@[k@])
            } else {
                None
            }),
    {
        match self.find(k) {
            Some(i) => {
                proof {
                    self.lemma_index(i as int);
                }
                Some(&self.pairs[i].1)
            },
            None => None,
        }
    }

    /// The key and value at position `i` in insertion order.
    pub fn entry(&self, i: usize) -> (kv: (&NodeId, &V))
        requires
            self.wf(),
            i < self.keys().len(),
        ensures
            kv.0@ == self.keys()[i as int],
            self@.dom().contains(kv.0@),
            self@[kv.0@] == *kv.1,
    {
        proof {
            self.lemma_index(i as int);
        }
        (&self.pairs[i].0, &self.pairs[i].1)
    }

    /// Sets the value of `k` to `v`.
    pub fn insert(&mut self, k: NodeId, v: V)
        requires
            old(self).wf(),
        ensures
            final(self).wf(),
            final(self)@ == old(self)@.insert(k@, v),
    {
        let ghost kv = k@;
        match self.find(&k) {
            Some(i) => {
                self.pairs.set(i, (k, v));
                proof {
                    assert(self.keys() =~= old(self).keys());
                    assert(self.vals() =~= old(self).vals().update(i as int, v));
                    assert forall|j: int| 0 <= j < self.keys().len() implies
                        self.keys().index_of(self.keys()[j]) == j by {
                        self.lemma_index(j);
                    }
                    assert forall|j: int| 0 <= j < old(self).keys().len() implies
                        old(self).keys().index_of(old(self).keys()[j]) == j by {
                        old(self).lemma_index(j);
                    }
                    assert(self@ =~= old(self)@.insert(kv, v));
                }
            },
            None => {
                self.pairs.push((k, v));
                proof {
                    let n: int = old(self).keys().len() as int;
                    assert(self.keys() =~= old(self).keys().push(kv));
                    assert(self.vals() =~= old(self).vals().push(v));
                    assert forall|j: int| 0 <= j < self.keys().len() implies
                        self.keys().index_of(self.keys()[j]) == j by {
                        self.lemma_index(j);
                    }
                    assert forall|j: int| 0 <= j < n implies
                        old(self).keys().index_of(old(self).keys()[j]) == j by {
                        old(self).lemma_index(j);
                    }
                    assert forall|k2: Seq<char>| #[trigger] self.keys().contains(k2) <==>
                        (old(self).keys().contains(k2) || k2 == kv) by {
                        if self.keys().contains(k2) {
                            let j = choose|j: int| 0 <= j < self.keys().len() && self.keys()[j] == k2;
                            if j < n {
                                assert(old(self).keys()[j] == k2);
                            }
                        }
                        if old(self).keys().contains(k2) {
                            let j = choose|j: int| 0 <= j < n && old(self).keys()[j] == k2;
                            assert(self.keys()[j] == k2);
                        }
                        if k2 == kv {
                            assert(self.keys()[n] == k2);
                        }
                    }
                    assert forall|k2: Seq<char>| old(self).keys().contains(k2) implies
                        self.keys().index_of(k2) == old(self).keys().index_of(k2) by {
                        let j = choose|j: int| 0 <= j < n && old(self).keys()[j] == k2;
                        old(self).lemma_index(j);
                        self.lemma_index(j);
                        assert(self.keys()[j] == k2);
                    }
                    self.lemma_index(n);
                    assert(self@ =~= old(self)@.insert(kv, v));
                }
            },
        }
    }
}

impl<V: Copy> NodeMap<V> {
    /// Sets the value of every id of `ids` to `v`.
    pub fn insert_all(&mut self, ids: &NodeSet, v: V)
        requires
            old(self).wf(),
        ensures
            final(self).wf(),
            final(self)@ == old(self)@.union_prefer_right(Map::new(|k: Seq<char>| ids@.contains(k), |k: Seq<char>| v)),
    {
        let n = ids.len();
        let mut i: usize = 0;
        while i < n
            invariant
                n == ids.ids().len(),
                i <= n,
                self.wf(),
                self@ == old(self)@.union_prefer_right(
                    Map::new(|k: Seq<char>| ids.ids().take(i as int).contains(k), |k: Seq<char>| v),
                ),
            decreases n - i,
        {
            let id = ids.get(i);
            let ghost prev = self@;
            self.insert(id.clone(), v);
            proof {
                let t = ids.ids().take(i as int);
                let t1 = ids.ids().take(i + 1);
                assert(t1 =~= t.push(ids.ids()[i as int]));
                assert forall|k: Seq<char>| t1.contains(k) <==> (t.contains(k) || k == ids.ids()[i as int]) by {
                    if t1.contains(k) {
                        let j = choose|j: int| 0 <= j < t1.len() && t1[j] == k;
                        if j < i {
                            assert(t[j] == k);
                        }
                    }
                    if t.contains(k) {
                        let j = choose|j: int| 0 <= j < t.len() && t[j] == k;
                        assert(t1[j] == k);
                    }
                    if k == ids.ids()[i as int] {
                        assert(t1[i as int] == k);
                    }
                }
                assert(self@ =~= old(self)@.union_prefer_right(
                    Map::new(|k: Seq<char>| t1.contains(k), |k: Seq<char>| v),
                ));
            }
            i = i + 1;
        }
        assert(ids.ids().take(n as int) =~= ids.ids());
    }

    /// The map that sends every id of `ids` to `v`.
    pub fn from_set(ids: &NodeSet, v: V) -> (m: NodeMap<V>)
        ensures
            m.wf(),
            m@ == Map::new(|k: Seq<char>| ids@.contains(k), |k: Seq<char>| v),
    {
        let mut m = NodeMap::new();
        m.insert_all(ids, v);
        assert(m@ =~= Map::new(|k: Seq<char>| ids@.contains(k), |k: Seq<char>| v));
        m
    }
}

/// The keys that `m` sends to `true`.
pub open spec fn true_keys(m: Map<Seq<char>, bool>) -> Set<Seq<char>> {
    Set::new(|k: Seq<char>| m.dom().contains(k) && m[k])
}

impl NodeMap<bool> {
    /// How many keys the map sends to `true`.
    pub fn count_true(&self) -> (n: usize)
        requires
            self.wf(),
        ensures
            true_keys(self@).finite(),
            n == true_keys(self@).len(),
    {
        let ghost keys = self.keys();
        let mut n: usize = 0;
        let mut i: usize = 0;
        assert(Set::new(|k: Seq<char>| keys.take(0).contains(k) && self@[k]) =~= Set::<Seq<char>>::empty());
        while i < self.pairs.len()
            invariant
                keys == self.keys(),
                self.wf(),
                i <= self.pairs@.len(),
                n <= i,
                Set::new(|k: Seq<char>| keys.take(i as int).contains(k) && self@[k]).finite(),
                n == Set::new(|k: Seq<char>| keys.take(i as int).contains(k) && self@[k]).len(),
            decreases self.pairs@.len() - i,
        {
            let ghost before = Set::new(|k: Seq<char>| keys.take(i as int).contains(k) && self@[k]);
            let ghost after = Set::new(|k: Seq<char>| keys.take(i + 1).contains(k) && self@[k]);
            let ghost x = keys[i as int];
            proof {
                self.lemma_index(i as int);
                let t = keys.take(i as int);
                let t1 = keys.take(i + 1);
                assert(t1 =~= t.push(x));
                assert forall|k: Seq<char>| t1.contains(k) <==> (t.contains(k) || k == x) by {
                    if t1.contains(k) {
                        let j = choose|j: int| 0 <= j < t1.len() && t1[j] == k;
                        if j < i {
                            assert(t[j] == k);
                        }
                    }
                    if t.contains(k) {
                        let j = choose|j: int| 0 <= j < t.len() && t[j] == k;
                        assert(t1[j] == k);
                    }
                    if k == x {
                        assert(t1[i as int] == k);
                    }
                }
                assert(!t.contains(x)) by {
                    if t.contains(x) {
                        let j = choose|j: int| 0 <= j < t.len() && t[j] == x;
                        assert(keys[j] == keys[i as int]);
                    }
                }
            }
            if self.pairs[i].1 {
                proof {
                    assert(after =~= before.insert(x));
                    assert(!before.contains(x));
                }
                n = n + 1;
            } else {
                proof {
                    assert(after =~= before);
                }
            }
            i = i + 1;
        }
        assert(keys.take(self.pairs@.len() as int) =~= keys);
        assert(Set::new(|k: Seq<char>| keys.take(self.pairs@.len() as int).contains(k) && self@[k]) =~= true_keys(self@));
        n
    }
}

impl<V> View for NodeMap<V> {
    type V = Map<Seq<char>, V>;

    open spec fn view(&self) -> Map<Seq<char>, V> {
        Map::new(|k: Seq<char>| self.keys().contains(k), |k: Seq<char>| self.vals()[self.keys().index_of(k)])
    }
}

} // verus!
