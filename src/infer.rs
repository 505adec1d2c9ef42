use crate::graph::{paths_of, GraphBuilder};
use crate::path::corpus_ok;
use crate::peak::{peak_index, peak_of};
use crate::relation::{add_arc, add_edge, related, row, RelationMap};
use crate::role::{role_for, role_spec, RoleCategory};
use std::collections::HashSet;
use vstd::prelude::*;

verus! {

/// Degree of each vertex of `p` in `g`.
pub open spec fn degrees(g: Map<u32, Set<u32>>, p: Seq<u32>) -> Seq<int> {
    p.map_values(|a: u32| row(g, a).len() as int)
}

/// Observation at position `i` of `p`, whose peak is at `j`: a vertex before
/// the peak transits toward its right neighbor, one after it toward its left.
pub open spec fn transit_step(t: Map<u32, Set<u32>>, p: Seq<u32>, j: int, i: int) -> Map<
    u32,
    Set<u32>,
> {
    if i < j {
        add_arc(t, p[i], p[i + 1])
    } else if i > j {
        add_arc(t, p[i], p[i - 1])
    } else {
        t
    }
}

pub open spec fn transit_path(t: Map<u32, Set<u32>>, p: Seq<u32>, j: int, n: nat) -> Map<
    u32,
    Set<u32>,
>
    decreases n,
{
    if n == 0 {
        t
    } else {
        transit_step(transit_path(t, p, j, (n - 1) as nat), p, j, n - 1)
    }
}

/// The transit relation after all of `ps`, peaks taken in the final graph `g`.
pub open spec fn transit_all(g: Map<u32, Set<u32>>, ps: Seq<Seq<u32>>) -> Map<u32, Set<u32>>
    decreases ps.len(),
{
    if ps.len() == 0 {
        Map::empty()
    } else {
        let p = ps.last();
        transit_path(transit_all(g, ps.drop_last()), p, peak_of(degrees(g, p)), p.len())
    }
}

/// Customers, providers, peers and siblings, in that order.
pub type Relations = (Map<u32, Set<u32>>, Map<u32, Set<u32>>, Map<u32, Set<u32>>, Map<u32, Set<u32>>);

pub open spec fn no_relations() -> Relations {
    (Map::empty(), Map::empty(), Map::empty(), Map::empty())
}

/// What the adjacent pair `(x, y)` adds, given the transit relation `t`.
pub open spec fn classify_pair(r: Relations, t: Map<u32, Set<u32>>, x: u32, y: u32) -> Relations {
    let a = related(t, x, y);
    let b = related(t, y, x);
    if a && b {
        (r.0, r.1, r.2, add_edge(r.3, x, y))
    } else if !a && b {
        (add_arc(r.0, x, y), add_arc(r.1, y, x), r.2, r.3)
    } else if a && !b {
        (add_arc(r.0, y, x), add_arc(r.1, x, y), r.2, r.3)
    } else {
        (r.0, r.1, add_edge(r.2, x, y), r.3)
    }
}

/// The first `n` adjacent pairs of `p`.
pub open spec fn classify_path(r: Relations, t: Map<u32, Set<u32>>, p: Seq<u32>, n: nat) -> Relations
    decreases n,
{
    if n == 0 {
        r
    } else {
        classify_pair(classify_path(r, t, p, (n - 1) as nat), t, p[n - 1], p[n as int])
    }
}

pub open spec fn classify_all(t: Map<u32, Set<u32>>, ps: Seq<Seq<u32>>) -> Relations
    decreases ps.len(),
{
    if ps.len() == 0 {
        no_relations()
    } else {
        let p = ps.last();
        classify_path(classify_all(t, ps.drop_last()), t, p, (p.len() - 1) as nat)
    }
}

/// Degrees of the vertices of `p`.
fn path_degrees(g: &RelationMap, p: &Vec<u32>) -> (d: Vec<usize>)
    ensures
        d@.map_values(|x: usize| x as int) == degrees(g@, p@),
{
    let mut d: Vec<usize> = Vec::new();
    let mut i: usize = 0;
    while i < p.len()
        invariant
            i <= p.len(),
            d@.len() == i,
            forall|k: int| 0 <= k < i ==> #[trigger] d@[k] == row(g@, p@[k]).len(),
        decreases p.len() - i,
    {
        d.push(g.row_len(p[i]));
        i = i + 1;
    }
    assert(d@.map_values(|x: usize| x as int) =~= degrees(g@, p@));
    d
}

/// Records the transit observations of one path.
fn observe_path(g: &RelationMap, t: &mut RelationMap, p: &Vec<u32>)
    requires
        old(t).wf(),
        p.len() > 0,
    ensures
        final(t).wf(),
        final(t)@ == transit_path(old(t)@, p@, peak_of(degrees(g@, p@)), p@.len()),
{
    let d = path_degrees(g, p);
    let j = peak_index(&d);
    let ghost t0 = t@;
    let mut i: usize = 0;
    while i < p.len()
        invariant
            i <= p.len(),
            j < p.len(),
            j == peak_of(degrees(g@, p@)),
            t.wf(),
            t@ == transit_path(t0, p@, j as int, i as nat),
        decreases p.len() - i,
    {
        if i < j {
            t.insert(p[i], p[i + 1]);
        } else if i > j {
            t.insert(p[i], p[i - 1]);
        }
        i = i + 1;
    }
}

/// The four relation maps under construction.
struct RelationMaps {
    customers: RelationMap,
    providers: RelationMap,
    peers: RelationMap,
    siblings: RelationMap,
}

impl RelationMaps {
    spec fn wf(&self) -> bool {
        self.customers.wf() && self.providers.wf() && self.peers.wf() && self.siblings.wf()
    }

    spec fn model(&self) -> Relations {
        (self.customers@, self.providers@, self.peers@, self.siblings@)
    }

    /// Classifies the adjacent pair `(x, y)`.
    fn record_pair(&mut self, t: &RelationMap, x: u32, y: u32)
        requires
            old(self).wf(),
        ensures
            final(self).wf(),
            final(self).model() == classify_pair(old(self).model(), t@, x, y),
    {
        let a = t.contains_pair(x, y);
        let b = t.contains_pair(y, x);
        if a && b {
            self.siblings.insert(x, y);
            self.siblings.insert(y, x);
        } else if !a && b {
            self.customers.insert(x, y);
            self.providers.insert(y, x);
        } else if a && !b {
            self.providers.insert(x, y);
            self.customers.insert(y, x);
        } else {
            self.peers.insert(x, y);
            self.peers.insert(y, x);
        }
    }

    /// Classifies every adjacent pair of `p`.
    fn record_path(&mut self, t: &RelationMap, p: &Vec<u32>)
        requires
            old(self).wf(),
            p.len() > 0,
        ensures
            final(self).wf(),
            final(self).model() == classify_path(old(self).model(), t@, p@, (p@.len() - 1) as nat),
    {
        let ghost r0 = self.model();
        let mut i: usize = 0;
        while i + 1 < p.len()
            invariant
                i + 1 <= p.len(),
                self.wf(),
                self.model() == classify_path(r0, t@, p@, i as nat),
            decreases p.len() - i,
        {
            self.record_pair(t, p[i], p[i + 1]);
            i = i + 1;
        }
    }
}

/// Role of `v` under the relations `r`, from its customer and peer counts.
pub open spec fn role_of(r: Relations, v: u32) -> RoleCategory {
    role_spec(row(r.0, v).len(), row(r.2, v).len())
}

/// The vertices of `g` whose role under `r` is `role`.
pub open spec fn role_members(g: Map<u32, Set<u32>>, r: Relations, role: RoleCategory) -> Set<u32> {
    g.dom().filter(|v: u32| role_of(r, v) == role)
}

spec fn prefix_members(s: Seq<u32>, r: Relations, role: RoleCategory) -> Set<u32> {
    s.to_set().filter(|v: u32| role_of(r, v) == role)
}

proof fn lemma_prefix_step(s: Seq<u32>, i: int, r: Relations, role: RoleCategory)
    requires
        0 <= i < s.len(),
    ensures
        prefix_members(s.take(i + 1), r, role) == if role_of(r, s[i]) == role {
            prefix_members(s.take(i), r, role).insert(s[i])
        } else {
            prefix_members(s.take(i), r, role)
        },
{
    assert(s.take(i + 1) == s.take(i).push(s[i]));
    s.take(i).lemma_push_to_set_commute(s[i]);
    assert(prefix_members(s.take(i + 1), r, role) =~= if role_of(r, s[i]) == role {
        prefix_members(s.take(i), r, role).insert(s[i])
    } else {
        prefix_members(s.take(i), r, role)
    });
}

/// The graph of one (year, family): its retained paths, its neighbor graph,
/// the transit relation, the four relation maps and the four role sets.
pub struct AsGraph {
    paths: Vec<Vec<u32>>,
    neighbors: RelationMap,
    transits: RelationMap,
    providers: RelationMap,
    customers: RelationMap,
    peers: RelationMap,
    siblings: RelationMap,
    enterprise_customers: HashSet<u32>,
    small_transit_providers: HashSet<u32>,
    large_transit_providers: HashSet<u32>,
    content_access_hosting_providers: HashSet<u32>,
}

impl AsGraph {
    pub closed spec fn paths(&self) -> Seq<Seq<u32>> {
        paths_of(self.paths@)
    }

    pub closed spec fn neighbors(&self) -> Map<u32, Set<u32>> {
        self.neighbors@
    }

    pub closed spec fn transits(&self) -> Map<u32, Set<u32>> {
        self.transits@
    }

    pub closed spec fn relations(&self) -> Relations {
        (self.customers@, self.providers@, self.peers@, self.siblings@)
    }

    pub closed spec fn role_set(&self, role: RoleCategory) -> Set<u32> {
        match role {
            RoleCategory::EnterpriseCustomer => self.enterprise_customers@,
            RoleCategory::SmallTransitProvider => self.small_transit_providers@,
            RoleCategory::LargeTransitProvider => self.large_transit_providers@,
            RoleCategory::ContentAccessHostingProvider => self.content_access_hosting_providers@,
        }
    }

    /// The vertices of the neighbor graph, in the order they first appeared.
    pub closed spec fn vertex_order(&self) -> Seq<u32> {
        self.neighbors.key_order()
    }

    /// The ordered neighbor pairs, in the order they were first recorded.
    pub closed spec fn neighbor_pair_order(&self) -> Seq<(u32, u32)> {
        self.neighbors.pair_order()
    }

    /// The relation map behind the neighbor graph.
    pub closed spec fn neighbor_relation(&self) -> &RelationMap {
        &self.neighbors
    }

    pub proof fn lemma_neighbor_relation(&self)
        requires
            self.wf(),
        ensures
            self.neighbor_relation().wf(),
            self.neighbor_relation()@ == self.neighbors(),
            self.neighbor_relation().key_order() == self.vertex_order(),
            self.neighbor_relation().pair_order() == self.neighbor_pair_order(),
    {
    }

    pub closed spec fn inv(&self) -> bool {
        &&& self.neighbors.wf()
        &&& self.transits.wf()
        &&& self.providers.wf()
        &&& self.customers.wf()
        &&& self.peers.wf()
        &&& self.siblings.wf()
    }

    /// Everything but the paths and the neighbor graph is what the inference
    /// computes from them.
    pub open spec fn wf(&self) -> bool {
        &&& self.inv()
        &&& corpus_ok(self.paths(), self.neighbors())
        &&& self.transits() == transit_all(self.neighbors(), self.paths())
        &&& self.relations() == classify_all(self.transits(), self.paths())
        &&& forall|role: RoleCategory|
            #[trigger] self.role_set(role) == role_members(self.neighbors(), self.relations(), role)
    }

    /// The retained paths.
    pub fn path_list(&self) -> (r: &Vec<Vec<u32>>)
        ensures
            paths_of(r@) == self.paths(),
    {
        &self.paths
    }

    /// The neighbor graph.
    pub fn neighbor_map(&self) -> (r: &RelationMap)
        requires
            self.wf(),
        ensures
            r.wf(),
            r.key_order() == self.vertex_order(),
            r.pair_order() == self.neighbor_pair_order(),
            r@ == self.neighbors(),
    {
        &self.neighbors
    }

    /// The transit relation.
    pub fn transit_map(&self) -> (r: &RelationMap)
        requires
            self.wf(),
        ensures
            r.wf(),
            r@ == self.transits(),
    {
        &self.transits
    }

    pub fn customer_map(&self) -> (r: &RelationMap)
        requires
            self.wf(),
        ensures
            r.wf(),
            r@ == self.relations().0,
    {
        &self.customers
    }

    pub fn provider_map(&self) -> (r: &RelationMap)
        requires
            self.wf(),
        ensures
            r.wf(),
            r@ == self.relations().1,
    {
        &self.providers
    }

    pub fn peer_map(&self) -> (r: &RelationMap)
        requires
            self.wf(),
        ensures
            r.wf(),
            r@ == self.relations().2,
    {
        &self.peers
    }

    pub fn sibling_map(&self) -> (r: &RelationMap)
        requires
            self.wf(),
        ensures
            r.wf(),
            r@ == self.relations().3,
    {
        &self.siblings
    }

    /// The vertices that hold `role`.
    pub fn role_members_of(&self, role: RoleCategory) -> (r: &HashSet<u32>)
        ensures
            r@ == self.role_set(role),
    {
        match role {
            RoleCategory::EnterpriseCustomer => &self.enterprise_customers,
            RoleCategory::SmallTransitProvider => &self.small_transit_providers,
            RoleCategory::LargeTransitProvider => &self.large_transit_providers,
            RoleCategory::ContentAccessHostingProvider => &self.content_access_hosting_providers,
        }
    }

    /// Infers transit observations, relationships and roles for a corpus.
    pub fn new(b: GraphBuilder) -> (r: AsGraph)
        requires
            b.wf(),
        ensures
            r.wf(),
            r.paths() == b.paths(),
            r.neighbors() == b.graph(),
    {
        let (paths, neighbors) = b.into_parts();
        let ghost ps = paths_of(paths@);
        let ghost g = neighbors@;
        let mut transits = RelationMap::new();
        let mut k: usize = 0;
        while k < paths.len()
            invariant
                k <= paths.len(),
                ps == paths_of(paths@),
                g == neighbors@,
                corpus_ok(ps, g),
                transits.wf(),
                transits@ == transit_all(g, ps.take(k as int)),
            decreases paths.len() - k,
        {
            assert(ps.take(k + 1).drop_last() == ps.take(k as int));
            assert(ps[k as int] == paths@[k as int]@);
            assert(ps[k as int].len() > 0);
            observe_path(&neighbors, &mut transits, &paths[k]);
            k = k + 1;
        }
        assert(ps.take(paths.len() as int) == ps);
        let mut rels = RelationMaps {
            customers: RelationMap::new(),
            providers: RelationMap::new(),
            peers: RelationMap::new(),
            siblings: RelationMap::new(),
        };
        assert(rels.model() == no_relations());
        let mut k: usize = 0;
        while k < paths.len()
            invariant
                k <= paths.len(),
                ps == paths_of(paths@),
                corpus_ok(ps, g),
                rels.wf(),
                rels.model() == classify_all(transits@, ps.take(k as int)),
            decreases paths.len() - k,
        {
            assert(ps.take(k + 1).drop_last() == ps.take(k as int));
            assert(ps[k as int] == paths@[k as int]@);
            assert(ps[k as int].len() > 0);
            rels.record_path(&transits, &paths[k]);
            k = k + 1;
        }
        let ghost r = rels.model();
        let mut ec: HashSet<u32> = HashSet::new();
        let mut stp: HashSet<u32> = HashSet::new();
        let mut ltp: HashSet<u32> = HashSet::new();
        let mut cahp: HashSet<u32> = HashSet::new();
        let ghost order = neighbors.key_order();
        proof {
            neighbors.lemma_keys();
            assert(prefix_members(order.take(0), r, RoleCategory::EnterpriseCustomer) =~= Set::empty());
            assert(prefix_members(order.take(0), r, RoleCategory::SmallTransitProvider) =~= Set::empty());
            assert(prefix_members(order.take(0), r, RoleCategory::LargeTransitProvider) =~= Set::empty());
            assert(prefix_members(order.take(0), r, RoleCategory::ContentAccessHostingProvider) =~= Set::empty());
        }
        let n = neighbors.num_keys();
        let mut i: usize = 0;
        while i < n
            invariant
                i <= n,
                n == order.len(),
                order == neighbors.key_order(),
                neighbors.wf(),
                r == rels.model(),
                ec@ == prefix_members(order.take(i as int), r, RoleCategory::EnterpriseCustomer),
                stp@ == prefix_members(order.take(i as int), r, RoleCategory::SmallTransitProvider),
                ltp@ == prefix_members(order.take(i as int), r, RoleCategory::LargeTransitProvider),
                cahp@ == prefix_members(order.take(i as int), r, RoleCategory::ContentAccessHostingProvider),
            decreases n - i,
        {
            let v = neighbors.key_at(i);
            proof {
                lemma_prefix_step(order, i as int, r, RoleCategory::EnterpriseCustomer);
                lemma_prefix_step(order, i as int, r, RoleCategory::SmallTransitProvider);
                lemma_prefix_step(order, i as int, r, RoleCategory::LargeTransitProvider);
                lemma_prefix_step(order, i as int, r, RoleCategory::ContentAccessHostingProvider);
            }
            let c = rels.customers.row_len(v);
            let p = rels.peers.row_len(v);
            match role_for(c, p) {
                RoleCategory::EnterpriseCustomer => {
                    ec.insert(v);
                },
                RoleCategory::SmallTransitProvider => {
                    stp.insert(v);
                },
                RoleCategory::LargeTransitProvider => {
                    ltp.insert(v);
                },
                RoleCategory::ContentAccessHostingProvider => {
                    cahp.insert(v);
                },
            }
            i = i + 1;
        }
        let RelationMaps { customers, providers, peers, siblings } = rels;
        let res = AsGraph {
            paths,
            neighbors,
            transits,
            providers,
            customers,
            peers,
            siblings,
            enterprise_customers: ec,
            small_transit_providers: stp,
            large_transit_providers: ltp,
            content_access_hosting_providers: cahp,
        };
        proof {
            assert(order.take(n as int) == order);
            assert forall|role: RoleCategory|
                #[trigger] res.role_set(role) == role_members(g, r, role) by {
                assert(res.role_set(role) =~= role_members(g, r, role));
            }
        }
        res
    }
}

/// The neighbor graph of a built graph is symmetric.
pub proof fn lemma_graph_symmetric(a: &AsGraph, x: u32, y: u32)
    requires
        a.wf(),
    ensures
        related(a.neighbors(), x, y) <==> related(a.neighbors(), y, x),
{
}

/// The four role sets partition the vertex set: each vertex of the neighbor
/// graph is in exactly one of them, and nothing else is in any.
pub proof fn lemma_role_partition(a: &AsGraph, v: u32)
    requires
        a.wf(),
    ensures
        a.neighbors().contains_key(v) ==> a.role_set(role_of(a.relations(), v)).contains(v),
        forall|role: RoleCategory| #[trigger] a.role_set(role).contains(v)
            ==> a.neighbors().contains_key(v) && role == role_of(a.relations(), v),
        a.neighbors().contains_key(v) <==> (a.role_set(RoleCategory::EnterpriseCustomer).contains(v)
            || a.role_set(RoleCategory::SmallTransitProvider).contains(v)
            || a.role_set(RoleCategory::LargeTransitProvider).contains(v)
            || a.role_set(RoleCategory::ContentAccessHostingProvider).contains(v)),
{
    assert(a.role_set(role_of(a.relations(), v)) == role_members(a.neighbors(), a.relations(), role_of(a.relations(), v)));
    assert forall|role: RoleCategory| #[trigger] a.role_set(role).contains(v)
        implies a.neighbors().contains_key(v) && role == role_of(a.relations(), v) by {
        assert(a.role_set(role) == role_members(a.neighbors(), a.relations(), role));
    }
    assert(a.role_set(RoleCategory::EnterpriseCustomer).contains(v) ==> a.neighbors().contains_key(v));
    assert(a.role_set(RoleCategory::SmallTransitProvider).contains(v) ==> a.neighbors().contains_key(v));
    assert(a.role_set(RoleCategory::LargeTransitProvider).contains(v) ==> a.neighbors().contains_key(v));
    assert(a.role_set(RoleCategory::ContentAccessHostingProvider).contains(v) ==> a.neighbors().contains_key(v));
}

} // verus!
