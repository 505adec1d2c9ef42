use crate::path::{corpus_ok, flatten_into, flatten_path, AddressFamily, PathSegment};
use crate::relation::{related, RelationMap};
use vstd::prelude::*;

verus! {

/// Accumulates the retained paths and the neighbor graph of one
/// (year, family) corpus.
pub struct GraphBuilder {
    paths: Vec<Vec<u32>>,
    neighbors: RelationMap,
}

pub open spec fn paths_of(v: Seq<Vec<u32>>) -> Seq<Seq<u32>> {
    v.map_values(|p: Vec<u32>| p@)
}

impl GraphBuilder {
    /// The retained paths, in the order in which they were added.
    pub closed spec fn paths(&self) -> Seq<Seq<u32>> {
        paths_of(self.paths@)
    }

    /// The neighbor graph.
    pub closed spec fn graph(&self) -> Map<u32, Set<u32>> {
        self.neighbors@
    }

    pub closed spec fn wf(&self) -> bool {
        self.neighbors.wf() && corpus_ok(self.paths(), self.graph())
    }

    pub fn new() -> (b: GraphBuilder)
        ensures
            b.wf(),
            b.paths() == Seq::<Seq<u32>>::empty(),
            b.graph() == Map::<u32, Set<u32>>::empty(),
    {
        let b = GraphBuilder { paths: Vec::new(), neighbors: RelationMap::new() };
        assert(b.paths() =~= Seq::<Seq<u32>>::empty());
        b
    }

    /// Folds one announcement's AS path into the corpus. An absent path, or
    /// one that flattens to no ASN, is not retained.
    pub fn add_as_path(&mut self, as_path: &Option<Vec<PathSegment>>)
        requires
            old(self).wf(),
        ensures
            final(self).wf(),
            match as_path {
                None => final(self).paths() == old(self).paths() && final(self).graph()
                    == old(self).graph(),
                Some(segs) => {
                    let st = flatten_path(old(self).graph(), segs@);
                    &&& final(self).graph() == st.1
                    &&& final(self).paths() == if st.0.len() > 0 {
                        old(self).paths().push(st.0)
                    } else {
                        old(self).paths()
                    }
                },
            },
    {
        match as_path {
            None => {},
            Some(segs) => {
                let ghost ps = self.paths();
                let p = flatten_into(&mut self.neighbors, segs);
                if p.len() != 0 {
                    self.paths.push(p);
                    assert(self.paths() =~= ps.push(p@));
                }
                proof {
                    let q = self.paths();
                    let g = self.graph();
                    assert forall|i: int, j: int|
                        0 <= i < q.len() && 0 <= j < q[i].len() implies g.contains_key(
                        #[trigger] q[i][j],
                    ) by {
                        if i < ps.len() {
                            assert(q[i] == ps[i]);
                        }
                    }
                    assert forall|i: int| 0 <= i < q.len() implies #[trigger] q[i].len() > 0 by {
                        if i < ps.len() {
                            assert(q[i] == ps[i]);
                        }
                    }
                }
            },
        }
    }

    /// A corpus from paths and a neighbor graph that already satisfy its
    /// invariant.
    pub fn from_parts(paths: Vec<Vec<u32>>, neighbors: RelationMap) -> (b: GraphBuilder)
        requires
            neighbors.wf(),
            corpus_ok(paths_of(paths@), neighbors@),
        ensures
            b.wf(),
            b.paths() == paths_of(paths@),
            b.graph() == neighbors@,
    {
        GraphBuilder { paths, neighbors }
    }

    /// Takes the corpus apart into its paths and its neighbor graph.
    pub fn into_parts(self) -> (r: (Vec<Vec<u32>>, RelationMap))
        requires
            self.wf(),
        ensures
            r.1.wf(),
            paths_of(r.0@) == self.paths(),
            r.1@ == self.graph(),
            corpus_ok(self.paths(), self.graph()),
    {
        (self.paths, self.neighbors)
    }

    /// Number of vertices of the neighbor graph.
    pub fn count_vertices(&self) -> (n: usize)
        requires
            self.wf(),
        ensures
            n == self.graph().dom().len(),
    {
        self.neighbors.num_keys()
    }
}

/// The neighbor graph is symmetric: `y` is a neighbor of `x` exactly when
/// `x` is a neighbor of `y`.
pub proof fn lemma_builder_symmetric(b: &GraphBuilder, x: u32, y: u32)
    requires
        b.wf(),
    ensures
        related(b.graph(), x, y) <==> related(b.graph(), y, x),
{
}

/// The two corpora, one per address family, drawn from one year's records.
pub struct YearCorpus {
    pub v4: GraphBuilder,
    pub v6: GraphBuilder,
}

impl YearCorpus {
    pub open spec fn wf(&self) -> bool {
        self.v4.wf() && self.v6.wf()
    }

    pub fn new() -> (c: YearCorpus)
        ensures
            c.wf(),
            c.v4.paths().len() == 0 && c.v4.graph() == Map::<u32, Set<u32>>::empty(),
            c.v6.paths().len() == 0 && c.v6.graph() == Map::<u32, Set<u32>>::empty(),
    {
        YearCorpus { v4: GraphBuilder::new(), v6: GraphBuilder::new() }
    }

    /// Routes one announcement to the corpus of its peer's address family.
    pub fn add_record(&mut self, family: AddressFamily, as_path: &Option<Vec<PathSegment>>)
        requires
            old(self).wf(),
        ensures
            final(self).wf(),
            family == AddressFamily::V4 ==> final(self).v6 == old(self).v6,
            family == AddressFamily::V6 ==> final(self).v4 == old(self).v4,
            ({
                let (o, f) = if family == AddressFamily::V4 {
                    (old(self).v4, final(self).v4)
                } else {
                    (old(self).v6, final(self).v6)
                };
                match as_path {
                    None => f.paths() == o.paths() && f.graph() == o.graph(),
                    Some(segs) => {
                        let st = flatten_path(o.graph(), segs@);
                        &&& f.graph() == st.1
                        &&& f.paths() == if st.0.len() > 0 {
                            o.paths().push(st.0)
                        } else {
                            o.paths()
                        }
                    },
                }
            }),
    {
        match family {
            AddressFamily::V4 => self.v4.add_as_path(as_path),
            AddressFamily::V6 => self.v6.add_as_path(as_path),
        }
    }
}

} // verus!
