use std::collections::{HashMap, HashSet};
use vstd::prelude::*;
use vstd::map::*;

verus! {

/// The set that `g` relates to `k`; empty when `k` is not a key.
pub open spec fn row(g: Map<u32, Set<u32>>, k: u32) -> Set<u32> {
    if g.contains_key(k) {
        g[k]
    } else {
        Set::empty()
    }
}

/// `g` with `v` added to the set of `k` (creating the key when needed).
pub open spec fn add_arc(g: Map<u32, Set<u32>>, k: u32, v: u32) -> Map<u32, Set<u32>> {
    g.insert(k, row(g, k).insert(v))
}

/// `g` with `k` present as a key, keeping its set when it already was.
pub open spec fn add_key(g: Map<u32, Set<u32>>, k: u32) -> Map<u32, Set<u32>> {
    if g.contains_key(k) {
        g
    } else {
        g.insert(k, Set::empty())
    }
}

/// `g` with the undirected edge between `x` and `y` inserted both ways.
pub open spec fn add_edge(g: Map<u32, Set<u32>>, x: u32, y: u32) -> Map<u32, Set<u32>> {
    add_arc(add_arc(g, x, y), y, x)
}

/// Whether `y` is in the set that `g` relates to `x`.
pub open spec fn related(g: Map<u32, Set<u32>>, x: u32, y: u32) -> bool {
    g.contains_key(x) && g[x].contains(y)
}

pub open spec fn is_symmetric(g: Map<u32, Set<u32>>) -> bool {
    forall|x: u32, y: u32| #[trigger] related(g, x, y) ==> related(g, y, x)
}

/// A mapping from ASN to a set of ASNs. Its keys are also kept in the order
/// in which they first appeared, so that they can be walked.
pub struct RelationMap {
    map: HashMap<u32, HashSet<u32>>,
    keys: Vec<u32>,
    pairs: Vec<(u32, u32)>,
}

impl View for RelationMap {
    type V = Map<u32, Set<u32>>;

    closed spec fn view(&self) -> Map<u32, Set<u32>> {
        self.map@.map_values(|s: HashSet<u32>| s@)
    }
}

impl RelationMap {
    /// The keys, in the order in which they first appeared.
    pub closed spec fn key_order(&self) -> Seq<u32> {
        self.keys@
    }

    /// The related pairs, in the order in which they were first inserted.
    pub closed spec fn pair_order(&self) -> Seq<(u32, u32)> {
        self.pairs@
    }

    pub closed spec fn wf(&self) -> bool {
        &&& self.pairs@.no_duplicates()
        &&& forall|i: int| 0 <= i < self.pairs@.len() ==> related(self@, #[trigger] self.pairs@[i].0, self.pairs@[i].1)
        &&& forall|x: u32, y: u32| #[trigger] related(self@, x, y) ==> self.pairs@.contains((x, y))
        &&& self.keys@.no_duplicates()
        &&& forall|i: int| 0 <= i < self.keys@.len() ==> self.map@.contains_key(#[trigger] self.keys@[i])
        &&& forall|k: u32| #[trigger] self.map@.contains_key(k) ==> self.keys@.contains(k)
        &&& forall|k: u32| #[trigger] self.map@.contains_key(k) ==> self.map@[k]@.finite()
    }

    pub proof fn lemma_keys(&self)
        requires
            self.wf(),
        ensures
            self.key_order().no_duplicates(),
            self.key_order().to_set() == self@.dom(),
            self.key_order().len() == self@.dom().len(),
            self@.dom().finite(),
            forall|i: int| 0 <= i < self.key_order().len() ==> self@.contains_key(#[trigger] self.key_order()[i]),
            forall|k: u32| #[trigger] self@.contains_key(k) ==> self@[k].finite(),
            forall|i: int| 0 <= i < self.pair_order().len() ==> related(self@, #[trigger] self.pair_order()[i].0, self.pair_order()[i].1),
            forall|x: u32, y: u32| #[trigger] related(self@, x, y) ==> self.pair_order().contains((x, y)),
    {
        assert(self.keys@.to_set() =~= self@.dom());
        self.keys@.unique_seq_to_set();
    }

    pub fn new() -> (r: RelationMap)
        ensures
            r.wf(),
            r@ == Map::<u32, Set<u32>>::empty(),
    {
        let r = RelationMap { map: HashMap::new(), keys: Vec::new(), pairs: Vec::new() };
        assert(r@ =~= Map::<u32, Set<u32>>::empty());
        r
    }

    /// Number of keys.
    pub fn num_keys(&self) -> (n: usize)
        requires
            self.wf(),
        ensures
            n == self@.dom().len(),
            n == self.key_order().len(),
    {
        proof {
            self.lemma_keys();
        }
        self.keys.len()
    }

    /// The key at position `i` of the key order.
    pub fn key_at(&self, i: usize) -> (k: u32)
        requires
            self.wf(),
            i < self.key_order().len(),
        ensures
            k == self.key_order()[i as int],
            self@.contains_key(k),
    {
        self.keys[i]
    }

    /// The keys, in the order in which they first appeared.
    pub fn key_list(&self) -> (r: &Vec<u32>)
        ensures
            r@ == self.key_order(),
    {
        &self.keys
    }

    /// The related pairs, each once.
    pub fn pair_list(&self) -> (r: &Vec<(u32, u32)>)
        ensures
            r@ == self.pair_order(),
    {
        &self.pairs
    }

    pub fn contains_key(&self, k: u32) -> (b: bool)
        ensures
            b == self@.contains_key(k),
    {
        self.map.contains_key(&k)
    }

    /// Whether `v` is in the set of `k`.
    pub fn contains_pair(&self, k: u32, v: u32) -> (b: bool)
        ensures
            b == related(self@, k, v),
    {
        match self.map.get(&k) {
            Some(s) => s.contains(&v),
            None => false,
        }
    }

    /// Size of the set of `k`; 0 when `k` is not a key.
    pub fn row_len(&self, k: u32) -> (n: usize)
        ensures
            n == row(self@, k).len(),
    {
        match self.map.get(&k) {
            Some(s) => s.len(),
            None => 0,
        }
    }

    pub fn add_key(&mut self, k: u32)
        requires
            old(self).wf(),
        ensures
            final(self).wf(),
            final(self)@ == add_key(old(self)@, k),
            final(self).pair_order() == old(self).pair_order(),
    {
        if !self.map.contains_key(&k) {
            self.map.insert(k, HashSet::new());
            self.keys.push(k);
            proof {
                assert forall|j: u32| #[trigger] self.map@.contains_key(j) implies self.keys@.contains(j) by {
                    if j != k {
                        assert(old(self).keys@.contains(j));
                        let i = choose|i: int| 0 <= i < old(self).keys@.len() && old(self).keys@[i] == j;
                        assert(self.keys@[i] == j);
                    } else {
                        assert(self.keys@[self.keys@.len() - 1] == k);
                    }
                }
            }
        }
        assert(self@ =~= add_key(old(self)@, k));
        assert forall|x: u32, y: u32| #[trigger] related(self@, x, y) implies related(old(self)@, x, y) by {
            if x == k && !old(self)@.contains_key(k) {
                assert(self@[k] == Set::<u32>::empty());
            }
        }
    }

    /// Adds `v` to the set of `k`.
    pub fn insert(&mut self, k: u32, v: u32)
        requires
            old(self).wf(),
        ensures
            final(self).wf(),
            final(self)@ == add_arc(old(self)@, k, v),
    {
        self.add_key(k);
        let ghost mid = self.map@;
        let ghost midv = self@;
        assert(midv == add_key(old(self)@, k));
        assert(midv.contains_key(k));
        assert(mid.contains_key(k));
        assert(midv[k] == mid[k]@);
        let mut s = match self.map.remove(&k) {
            Some(s) => s,
            None => HashSet::new(),
        };
        assert(s == mid[k]);
        assert(s@ == row(old(self)@, k));
        let fresh = s.insert(v);
        self.map.insert(k, s);
        if fresh {
            self.pairs.push((k, v));
        }
        assert(self.map@ == mid.insert(k, s));
        assert(self.map@.dom() =~= mid.dom());
        assert(s@ == row(old(self)@, k).insert(v));
        assert forall|j: u32| j != k && #[trigger] midv.contains_key(j) implies self@.contains_key(j) && self@[j] == midv[j] by {
            assert(mid.contains_key(j));
        }
        assert(self@ =~= add_arc(old(self)@, k, v));
        proof {
            let op = old(self).pairs@;
            assert forall|i: int| 0 <= i < self.pairs@.len() implies related(self@, #[trigger] self.pairs@[i].0, self.pairs@[i].1) by {
                if i < op.len() {
                    assert(self.pairs@[i] == op[i]);
                    assert(related(old(self)@, op[i].0, op[i].1));
                }
            }
            assert forall|x: u32, y: u32| #[trigger] related(self@, x, y) implies self.pairs@.contains((x, y)) by {
                if !(x == k && y == v) {
                    assert(related(old(self)@, x, y));
                    let i = choose|i: int| 0 <= i < op.len() && op[i] == (x, y);
                    assert(self.pairs@[i] == (x, y));
                } else if fresh {
                    assert(self.pairs@[op.len() as int] == (x, y));
                } else {
                    assert(related(old(self)@, x, y));
                    let i = choose|i: int| 0 <= i < op.len() && op[i] == (x, y);
                    assert(self.pairs@[i] == (x, y));
                }
            }
            if fresh {
                assert(!op.contains((k, v))) by {
                    if op.contains((k, v)) {
                        let i = choose|i: int| 0 <= i < op.len() && op[i] == (k, v);
                        assert(related(old(self)@, op[i].0, op[i].1));
                        assert(row(old(self)@, k).contains(v));
                    }
                }
            }
        }
    }
}

} // verus!
