use crate::relation::{add_edge, add_key, is_symmetric, related, RelationMap};
use vstd::prelude::*;

verus! {

/// The address family that a graph belongs to.
#[derive(Clone, Copy, Debug, PartialEq, Eq, Structural)]
pub enum AddressFamily {
    V4,
    V6,
}

/// One segment of an AS path as announced.
pub enum PathSegment {
    AsSequence(Vec<u32>),
    AsSet(Vec<u32>),
    ConfedSequence(Vec<u32>),
    ConfedSet(Vec<u32>),
}

impl PathSegment {
    pub open spec fn asns(&self) -> Seq<u32> {
        match self {
            PathSegment::AsSequence(v) => v@,
            PathSegment::AsSet(v) => v@,
            PathSegment::ConfedSequence(v) => v@,
            PathSegment::ConfedSet(v) => v@,
        }
    }

    /// Sequences keep adjacency between their members; sets do not.
    pub open spec fn is_ordered(&self) -> bool {
        self is AsSequence || self is ConfedSequence
    }
}

/// What flattening has produced so far: the path, the neighbor graph, and
/// the ASN that the next sequence member is adjacent to, if any.
pub type FlatState = (Seq<u32>, Map<u32, Set<u32>>, Option<u32>);

/// A member of a sequence segment: appended, and linked to the previous ASN.
pub open spec fn chain_asn(st: FlatState, a: u32) -> FlatState {
    (
        st.0.push(a),
        match st.2 {
            Some(p) => add_edge(st.1, a, p),
            None => add_key(st.1, a),
        },
        Some(a),
    )
}

/// A member of a set segment: appended as an isolated vertex.
pub open spec fn isolate_asn(st: FlatState, a: u32) -> FlatState {
    (st.0.push(a), add_key(st.1, a), st.2)
}

pub open spec fn chain_all(st: FlatState, s: Seq<u32>) -> FlatState
    decreases s.len(),
{
    if s.len() == 0 {
        st
    } else {
        chain_asn(chain_all(st, s.drop_last()), s.last())
    }
}

pub open spec fn isolate_all(st: FlatState, s: Seq<u32>) -> FlatState
    decreases s.len(),
{
    if s.len() == 0 {
        st
    } else {
        isolate_asn(isolate_all(st, s.drop_last()), s.last())
    }
}

/// A set segment also breaks the adjacency chain after it.
pub open spec fn flatten_segment(st: FlatState, seg: PathSegment) -> FlatState {
    if seg.is_ordered() {
        chain_all(st, seg.asns())
    } else {
        let r = isolate_all(st, seg.asns());
        (r.0, r.1, None)
    }
}

pub open spec fn flatten(st: FlatState, segs: Seq<PathSegment>) -> FlatState
    decreases segs.len(),
{
    if segs.len() == 0 {
        st
    } else {
        flatten_segment(flatten(st, segs.drop_last()), segs.last())
    }
}

/// Flattening of a whole announced path into graph `g`.
pub open spec fn flatten_path(g: Map<u32, Set<u32>>, segs: Seq<PathSegment>) -> FlatState {
    flatten((Seq::empty(), g, None), segs)
}

/// Every path is non-empty, every ASN on a path is a vertex, and the graph
/// is symmetric.
pub open spec fn corpus_ok(ps: Seq<Seq<u32>>, g: Map<u32, Set<u32>>) -> bool {
    &&& is_symmetric(g)
    &&& forall|i: int| 0 <= i < ps.len() ==> #[trigger] ps[i].len() > 0
    &&& forall|i: int, j: int|
        0 <= i < ps.len() && 0 <= j < ps[i].len() ==> g.contains_key(#[trigger] ps[i][j])
}

pub proof fn lemma_add_key_symmetric(g: Map<u32, Set<u32>>, k: u32)
    requires
        is_symmetric(g),
    ensures
        is_symmetric(add_key(g, k)),
{
    let h = add_key(g, k);
    assert forall|x: u32, y: u32| #[trigger] related(h, x, y) implies related(h, y, x) by {
        assert(related(g, x, y));
        assert(related(g, y, x));
    }
}

pub proof fn lemma_add_edge_symmetric(g: Map<u32, Set<u32>>, a: u32, b: u32)
    requires
        is_symmetric(g),
    ensures
        is_symmetric(add_edge(g, a, b)),
{
    let h = add_edge(g, a, b);
    assert forall|x: u32, y: u32| #[trigger] related(h, x, y) implies related(h, y, x) by {
        if !((x == a && y == b) || (x == b && y == a)) {
            assert(related(g, x, y));
            assert(related(g, y, x));
        }
    }
}

/// Appends the members of a sequence segment.
fn chain_members(g: &mut RelationMap, p: &mut Vec<u32>, prev: &mut Option<u32>, v: &Vec<u32>)
    requires
        old(g).wf(),
        is_symmetric(old(g)@),
        forall|j: int| 0 <= j < old(p)@.len() ==> old(g)@.contains_key(#[trigger] old(p)@[j]),
    ensures
        final(g).wf(),
        is_symmetric(final(g)@),
        forall|j: int| 0 <= j < final(p)@.len() ==> final(g)@.contains_key(#[trigger] final(p)@[j]),
        old(g)@.dom().subset_of(final(g)@.dom()),
        (final(p)@, final(g)@, *final(prev)) == chain_all((old(p)@, old(g)@, *old(prev)), v@),
{
    let ghost st0 = (p@, g@, *prev);
    let mut i: usize = 0;
    while i < v.len()
        invariant
            0 <= i <= v.len(),
            g.wf(),
            is_symmetric(g@),
            forall|j: int| 0 <= j < p@.len() ==> g@.contains_key(#[trigger] p@[j]),
            old(g)@.dom().subset_of(g@.dom()),
            (p@, g@, *prev) == chain_all(st0, v@.take(i as int)),
        decreases v.len() - i,
    {
        let a = v[i];
        assert(v@.take(i + 1).drop_last() == v@.take(i as int));
        let ghost gb = g@;
        match *prev {
            Some(q) => {
                g.insert(a, q);
                g.insert(q, a);
                proof {
                    lemma_add_edge_symmetric(gb, a, q);
                }
            },
            None => {
                g.add_key(a);
                proof {
                    lemma_add_key_symmetric(gb, a);
                }
            },
        }
        p.push(a);
        *prev = Some(a);
        i = i + 1;
    }
    assert(v@.take(v.len() as int) == v@);
}

/// Appends the members of a set segment as isolated vertices.
fn isolate_members(g: &mut RelationMap, p: &mut Vec<u32>, prev: &Option<u32>, v: &Vec<u32>)
    requires
        old(g).wf(),
        is_symmetric(old(g)@),
        forall|j: int| 0 <= j < old(p)@.len() ==> old(g)@.contains_key(#[trigger] old(p)@[j]),
    ensures
        final(g).wf(),
        is_symmetric(final(g)@),
        forall|j: int| 0 <= j < final(p)@.len() ==> final(g)@.contains_key(#[trigger] final(p)@[j]),
        old(g)@.dom().subset_of(final(g)@.dom()),
        (final(p)@, final(g)@, *prev) == isolate_all((old(p)@, old(g)@, *prev), v@),
{
    let ghost st0 = (p@, g@, *prev);
    let mut i: usize = 0;
    while i < v.len()
        invariant
            0 <= i <= v.len(),
            g.wf(),
            is_symmetric(g@),
            forall|j: int| 0 <= j < p@.len() ==> g@.contains_key(#[trigger] p@[j]),
            old(g)@.dom().subset_of(g@.dom()),
            (p@, g@, *prev) == isolate_all(st0, v@.take(i as int)),
        decreases v.len() - i,
    {
        let a = v[i];
        assert(v@.take(i + 1).drop_last() == v@.take(i as int));
        proof {
            lemma_add_key_symmetric(g@, a);
        }
        g.add_key(a);
        p.push(a);
        i = i + 1;
    }
    assert(v@.take(v.len() as int) == v@);
}

/// Flattens one announced path into `g`, returning the ASN sequence.
pub fn flatten_into(g: &mut RelationMap, segs: &Vec<PathSegment>) -> (p: Vec<u32>)
    requires
        old(g).wf(),
        is_symmetric(old(g)@),
    ensures
        final(g).wf(),
        is_symmetric(final(g)@),
        forall|j: int| 0 <= j < p@.len() ==> final(g)@.contains_key(#[trigger] p@[j]),
        old(g)@.dom().subset_of(final(g)@.dom()),
        p@ == flatten_path(old(g)@, segs@).0,
        final(g)@ == flatten_path(old(g)@, segs@).1,
{
    let mut p: Vec<u32> = Vec::new();
    let mut prev: Option<u32> = None;
    let ghost st0: FlatState = (Seq::empty(), g@, None);
    let mut s: usize = 0;
    while s < segs.len()
        invariant
            0 <= s <= segs.len(),
            g.wf(),
            is_symmetric(g@),
            forall|j: int| 0 <= j < p@.len() ==> g@.contains_key(#[trigger] p@[j]),
            old(g)@.dom().subset_of(g@.dom()),
            st0 == (Seq::<u32>::empty(), old(g)@, Option::<u32>::None),
            (p@, g@, prev) == flatten(st0, segs@.take(s as int)),
        decreases segs.len() - s,
    {
        assert(segs@.take(s + 1).drop_last() == segs@.take(s as int));
        match &segs[s] {
            PathSegment::AsSequence(v) => {
                chain_members(g, &mut p, &mut prev, v);
            },
            PathSegment::ConfedSequence(v) => {
                chain_members(g, &mut p, &mut prev, v);
            },
            PathSegment::AsSet(v) => {
                isolate_members(g, &mut p, &prev, v);
                prev = None;
            },
            PathSegment::ConfedSet(v) => {
                isolate_members(g, &mut p, &prev, v);
                prev = None;
            },
        }
        s = s + 1;
    }
    assert(segs@.take(segs.len() as int) == segs@);
    p
}

} // verus!
