use crate::graph::{paths_of, GraphBuilder};
use crate::infer::AsGraph;
use crate::path::corpus_ok;
use crate::relation::{add_arc, add_key, related, RelationMap};
use crate::role::RoleCategory;
use vstd::prelude::*;

verus! {

/// The graph whose vertices are `vs` and the keys of `es`, and in which `y`
/// is a neighbor of `x` exactly when `(x, y)` is in `es`.
pub open spec fn graph_from(vs: Seq<u32>, es: Seq<(u32, u32)>) -> Map<u32, Set<u32>> {
    Map::new(
        |k: u32| vs.contains(k) || exists|y: u32| #[trigger] es.contains((k, y)),
        |k: u32| Set::new(|y: u32| es.contains((k, y))),
    )
}

proof fn lemma_take_contains<T>(s: Seq<T>, j: int)
    requires
        0 <= j < s.len(),
    ensures
        forall|p: T| #[trigger] s.take(j + 1).contains(p) <==> (s.take(j).contains(p) || p == s[j]),
{
    assert(s.take(j + 1) == s.take(j).push(s[j]));
    s.take(j).lemma_push_to_set_commute(s[j]);
    assert forall|p: T| #[trigger] s.take(j + 1).contains(p) <==> (s.take(j).contains(p) || p == s[j]) by {
        assert(s.take(j + 1).to_set().contains(p) == s.take(j + 1).contains(p));
        assert(s.take(j).to_set().contains(p) == s.take(j).contains(p));
    }
}

/// Builds the relation map that a vertex list and a pair list describe.
pub fn relation_from(vs: &Vec<u32>, es: &Vec<(u32, u32)>) -> (m: RelationMap)
    ensures
        m.wf(),
        m@ == graph_from(vs@, es@),
{
    let mut m = RelationMap::new();
    let ghost none = Seq::<(u32, u32)>::empty();
    proof {
        assert(m@ =~~= graph_from(vs@.take(0), none));
    }
    let mut i: usize = 0;
    while i < vs.len()
        invariant
            i <= vs.len(),
            m.wf(),
            m@ == graph_from(vs@.take(i as int), none),
            none == Seq::<(u32, u32)>::empty(),
        decreases vs.len() - i,
    {
        proof {
            lemma_take_contains(vs@, i as int);
            assert(add_key(graph_from(vs@.take(i as int), none), vs@[i as int]) =~~= graph_from(
                vs@.take(i + 1),
                none,
            ));
        }
        m.add_key(vs[i]);
        i = i + 1;
    }
    assert(vs@.take(vs.len() as int) == vs@);
    proof {
        assert(graph_from(vs@, es@.take(0)) =~~= graph_from(vs@, none));
    }
    let mut j: usize = 0;
    while j < es.len()
        invariant
            j <= es.len(),
            m.wf(),
            m@ == graph_from(vs@, es@.take(j as int)),
        decreases es.len() - j,
    {
        let (x, y) = es[j];
        proof {
            lemma_take_contains(es@, j as int);
            let g = graph_from(vs@, es@.take(j as int));
            let h = graph_from(vs@, es@.take(j + 1));
            assert(es@.take(j + 1).contains((x, y)));
            assert forall|k: u32| #[trigger] h.contains_key(k) <==> add_arc(g, x, y).contains_key(k) by {
                if k == x {
                    assert(h.contains_key(k));
                } else {
                    if h.contains_key(k) && !vs@.contains(k) {
                        let z = choose|z: u32| #[trigger] es@.take(j + 1).contains((k, z));
                        assert(es@.take(j as int).contains((k, z)));
                        assert(g.contains_key(k));
                    }
                    if g.contains_key(k) && !vs@.contains(k) {
                        let z = choose|z: u32| #[trigger] es@.take(j as int).contains((k, z));
                        assert(es@.take(j + 1).contains((k, z)));
                    }
                }
            }
            assert forall|k: u32| #[trigger] h.contains_key(k) implies h[k] == add_arc(g, x, y)[k] by {
                assert(add_arc(g, x, y).contains_key(k));
                if !g.contains_key(k) {
                    assert forall|z: u32| !es@.take(j as int).contains((k, z)) by {
                        if es@.take(j as int).contains((k, z)) {
                            assert(g.contains_key(k));
                        }
                    }
                }
                assert(h[k] =~= add_arc(g, x, y)[k]);
            }
            assert(add_arc(g, x, y) =~= h);
        }
        m.insert(x, y);
        j = j + 1;
    }
    assert(es@.take(es.len() as int) == es@);
    m
}

/// A relation map is described exactly by its key list and its pair list.
pub proof fn lemma_relation_rebuild(m: &RelationMap)
    requires
        m.wf(),
    ensures
        graph_from(m.key_order(), m.pair_order()) == m@,
{
    m.lemma_keys();
    let g = graph_from(m.key_order(), m.pair_order());
    assert forall|k: u32| #[trigger] g.contains_key(k) <==> m@.contains_key(k) by {
        if m@.contains_key(k) {
            assert(m.key_order().to_set().contains(k));
        }
        if g.contains_key(k) && !m.key_order().contains(k) {
            let y = choose|y: u32| #[trigger] m.pair_order().contains((k, y));
            let i = choose|i: int| 0 <= i < m.pair_order().len() && m.pair_order()[i] == (k, y);
            assert(related(m@, m.pair_order()[i].0, m.pair_order()[i].1));
        }
    }
    assert forall|k: u32| #[trigger] m@.contains_key(k) implies g[k] == m@[k] by {
        assert forall|y: u32| g[k].contains(y) <==> m@[k].contains(y) by {
            if g[k].contains(y) {
                let i = choose|i: int| 0 <= i < m.pair_order().len() && m.pair_order()[i] == (k, y);
                assert(related(m@, m.pair_order()[i].0, m.pair_order()[i].1));
            }
            if m@[k].contains(y) {
                assert(related(m@, k, y));
            }
        }
        assert(g[k] =~= m@[k]);
    }
    assert(g =~= m@);
}

/// Whether every pair of `es` has its reverse in `m`.
fn pairs_reversible(m: &RelationMap, es: &Vec<(u32, u32)>) -> (b: bool)
    ensures
        b <==> forall|i: int| 0 <= i < es@.len() ==> related(m@, #[trigger] es@[i].1, es@[i].0),
{
    let mut i: usize = 0;
    while i < es.len()
        invariant
            i <= es.len(),
            forall|k: int| 0 <= k < i ==> related(m@, #[trigger] es@[k].1, es@[k].0),
        decreases es.len() - i,
    {
        let (x, y) = es[i];
        if !m.contains_pair(y, x) {
            return false;
        }
        i = i + 1;
    }
    true
}

/// Whether every path is non-empty and made of keys of `m`.
fn paths_covered(m: &RelationMap, paths: &Vec<Vec<u32>>) -> (b: bool)
    ensures
        b <==> (forall|i: int| 0 <= i < paths@.len() ==> #[trigger] paths_of(paths@)[i].len() > 0)
            && (forall|i: int, j: int|
            0 <= i < paths@.len() && 0 <= j < paths_of(paths@)[i].len() ==> m@.contains_key(
                #[trigger] paths_of(paths@)[i][j],
            )),
{
    let ghost ps = paths_of(paths@);
    let mut i: usize = 0;
    while i < paths.len()
        invariant
            i <= paths.len(),
            ps == paths_of(paths@),
            forall|k: int| 0 <= k < i ==> #[trigger] ps[k].len() > 0,
            forall|k: int, j: int| 0 <= k < i && 0 <= j < ps[k].len() ==> m@.contains_key(#[trigger] ps[k][j]),
        decreases paths.len() - i,
    {
        let p = &paths[i];
        assert(ps[i as int] == p@);
        if p.len() == 0 {
            assert(ps[i as int].len() == 0);
            return false;
        }
        let mut j: usize = 0;
        while j < p.len()
            invariant
                j <= p.len(),
                i < paths.len(),
                p == &paths[i as int],
                ps == paths_of(paths@),
                ps[i as int] == p@,
                forall|k: int| 0 <= k < i ==> #[trigger] ps[k].len() > 0,
                forall|k: int, j: int| 0 <= k < i && 0 <= j < ps[k].len() ==> m@.contains_key(#[trigger] ps[k][j]),
                forall|l: int| 0 <= l < j ==> m@.contains_key(#[trigger] p@[l]),
            decreases p.len() - j,
        {
            if !m.contains_key(p[j]) {
                assert(!m@.contains_key(paths_of(paths@)[i as int][j as int]));
                return false;
            }
            j = j + 1;
        }
        i = i + 1;
    }
    true
}

impl AsGraph {
    /// Rebuilds a graph from stored paths, vertex list and neighbor pairs, as
    /// a snapshot holds them. Fails unless they form a valid corpus: every
    /// path non-empty and made of vertices, and the neighbor pairs symmetric.
    pub fn from_corpus(paths: Vec<Vec<u32>>, vertices: &Vec<u32>, pairs: &Vec<(u32, u32)>) -> (r:
        Option<AsGraph>)
        ensures
            r is Some <==> corpus_ok(paths_of(paths@), graph_from(vertices@, pairs@)),
            r matches Some(g) ==> {
                &&& g.wf()
                &&& g.paths() == paths_of(paths@)
                &&& g.neighbors() == graph_from(vertices@, pairs@)
            },
    {
        let m = relation_from(vertices, pairs);
        let sym = pairs_reversible(&m, pairs);
        proof {
            let g = graph_from(vertices@, pairs@);
            if sym {
                assert forall|x: u32, y: u32| #[trigger] related(g, x, y) implies related(g, y, x) by {
                    assert(pairs@.contains((x, y)));
                    let i = choose|i: int| 0 <= i < pairs@.len() && pairs@[i] == (x, y);
                    assert(related(m@, pairs@[i].1, pairs@[i].0));
                }
            } else {
                let i = choose|i: int| 0 <= i < pairs@.len() && !related(m@, #[trigger] pairs@[i].1, pairs@[i].0);
                assert(pairs@.contains((pairs@[i].0, pairs@[i].1)));
                assert(related(g, pairs@[i].0, pairs@[i].1));
            }
        }
        if !sym {
            return None;
        }
        if !paths_covered(&m, &paths) {
            return None;
        }
        Some(AsGraph::new(GraphBuilder::from_parts(paths, m)))
    }
}

/// Rebuilding from what a graph stores gives back the same graph: a graph
/// made from its paths, its vertex list and its neighbor pairs agrees with it
/// field for field.
pub proof fn lemma_round_trip(g: &AsGraph, h: &AsGraph)
    requires
        g.wf(),
        h.wf(),
        h.paths() == g.paths(),
        h.neighbors() == graph_from(g.vertex_order(), g.neighbor_pair_order()),
    ensures
        corpus_ok(g.paths(), graph_from(g.vertex_order(), g.neighbor_pair_order())),
        h.neighbors() == g.neighbors(),
        h.transits() == g.transits(),
        h.relations() == g.relations(),
        forall|role: RoleCategory| #[trigger] h.role_set(role) == g.role_set(role),
{
    lemma_graph_rebuild(g);
    assert forall|role: RoleCategory| #[trigger] h.role_set(role) == g.role_set(role) by {
        assert(h.role_set(role) == crate::infer::role_members(h.neighbors(), h.relations(), role));
        assert(g.role_set(role) == crate::infer::role_members(g.neighbors(), g.relations(), role));
    }
}

proof fn lemma_graph_rebuild(g: &AsGraph)
    requires
        g.wf(),
    ensures
        graph_from(g.vertex_order(), g.neighbor_pair_order()) == g.neighbors(),
{
    g.lemma_neighbor_relation();
    lemma_relation_rebuild(g.neighbor_relation());
}

} // verus!
