use crate::graph::paths_of;
use crate::infer::{role_members, AsGraph};
use crate::relation::{related, row};
use crate::role::RoleCategory;
use vstd::prelude::*;
use vstd::relations::injective_on;

verus! {

/// A non-negative rational number with a positive denominator.
#[derive(Clone, Copy, Debug, PartialEq, Eq, Structural)]
pub struct Ratio {
    pub numerator: u128,
    pub denominator: u128,
}

/// The ordered pairs `(x, y)` with `y` a neighbor of `x`: each undirected
/// edge gives two, a loop one.
pub open spec fn arcs(g: Map<u32, Set<u32>>) -> Set<(u32, u32)> {
    Set::new(|e: (u32, u32)| related(g, e.0, e.1))
}

spec fn arcs_from(g: Map<u32, Set<u32>>, ks: Seq<u32>) -> Set<(u32, u32)> {
    Set::new(|e: (u32, u32)| ks.contains(e.0) && related(g, e.0, e.1))
}

/// Sum of the lengths of the paths.
pub open spec fn total_length(ps: Seq<Seq<u32>>) -> int
    decreases ps.len(),
{
    if ps.len() == 0 {
        0
    } else {
        total_length(ps.drop_last()) + ps.last().len()
    }
}

proof fn lemma_arcs_step(g: Map<u32, Set<u32>>, ks: Seq<u32>, i: int)
    requires
        0 <= i < ks.len(),
        ks.no_duplicates(),
        arcs_from(g, ks.take(i)).finite(),
        g.contains_key(ks[i]),
        g[ks[i]].finite(),
    ensures
        arcs_from(g, ks.take(i + 1)).finite(),
        arcs_from(g, ks.take(i + 1)).len() == arcs_from(g, ks.take(i)).len() + row(g, ks[i]).len(),
{
    let k = ks[i];
    let prev = arcs_from(g, ks.take(i));
    let f = |y: u32| (k, y);
    let new = g[k].map(f);
    assert(injective_on(f, g[k]));
    vstd::set_lib::lemma_map_size(g[k], new, f);
    assert(ks.take(i + 1) == ks.take(i).push(k));
    ks.take(i).lemma_push_to_set_commute(k);
    assert forall|e: (u32, u32)| #[trigger] arcs_from(g, ks.take(i + 1)).contains(e)
        <==> prev.contains(e) || new.contains(e) by {
        if ks.take(i + 1).contains(e.0) {
            assert(ks.take(i + 1).to_set().contains(e.0));
        }
        if ks.take(i).contains(e.0) {
            assert(ks.take(i).to_set().contains(e.0));
            assert(ks.take(i + 1).to_set().contains(e.0));
        }
        if e.0 == k {
            assert(ks.take(i + 1)[i] == k);
        }
        if new.contains(e) {
            let y = choose|y: u32| g[k].contains(y) && f(y) == e;
            assert(e.1 == y);
        }
        if e.0 == k && related(g, e.0, e.1) {
            assert(f(e.1) == e);
        }
    }
    assert(arcs_from(g, ks.take(i + 1)) =~= prev.union(new));
    assert(prev.disjoint(new)) by {
        assert forall|e: (u32, u32)| prev.contains(e) implies !new.contains(e) by {
            if new.contains(e) {
                let y = choose|y: u32| g[k].contains(y) && f(y) == e;
                let j = choose|j: int| 0 <= j < i && ks.take(i)[j] == e.0;
                assert(ks[j] == ks[i]);
            }
        }
    }
    vstd::set_lib::lemma_set_disjoint_lens(prev, new);
}

proof fn lemma_filter_step(s: Seq<u32>, i: int, pred: spec_fn(u32) -> bool)
    requires
        0 <= i < s.len(),
        s.no_duplicates(),
    ensures
        s.take(i).to_set().filter(pred).finite(),
        !s.take(i).to_set().filter(pred).contains(s[i]),
        s.take(i + 1).to_set().filter(pred) == if pred(s[i]) {
            s.take(i).to_set().filter(pred).insert(s[i])
        } else {
            s.take(i).to_set().filter(pred)
        },
{
    assert(s.take(i + 1) == s.take(i).push(s[i]));
    s.take(i).lemma_push_to_set_commute(s[i]);
    vstd::seq_lib::seq_to_set_is_finite(s.take(i));
    if s.take(i).to_set().contains(s[i]) {
        let j = choose|j: int| 0 <= j < i && s.take(i)[j] == s[i];
        assert(s[j] == s[i]);
    }
    assert(s.take(i + 1).to_set().filter(pred) =~= if pred(s[i]) {
        s.take(i).to_set().filter(pred).insert(s[i])
    } else {
        s.take(i).to_set().filter(pred)
    });
}

/// The ASes that hold `role` in either family.
pub open spec fn role_union(v4: &AsGraph, v6: &AsGraph, role: RoleCategory) -> Set<u32> {
    v4.role_set(role).union(v6.role_set(role))
}

/// Number of ASes that hold `role` in either family.
pub fn role_union_size(v4: &AsGraph, v6: &AsGraph, role: RoleCategory) -> (n: u128)
    requires
        v4.wf(),
        v6.wf(),
    ensures
        role_union(v4, v6, role).finite(),
        n == role_union(v4, v6, role).len(),
        n <= 2 * 0xffff_ffff_ffff_ffffu128,
{
    let nb = v4.neighbor_map();
    let s4 = v4.role_members_of(role);
    let s6 = v6.role_members_of(role);
    let nb6 = v6.neighbor_map();
    let ghost ks = nb.key_order();
    let ghost pred = |v: u32| s4@.contains(v) && !s6@.contains(v);
    proof {
        nb.lemma_keys();
        nb6.lemma_keys();
        assert(ks.take(0).to_set().filter(pred) =~= Set::empty());
    }
    let n = nb.num_keys();
    let mut extra: u128 = 0;
    let mut i: usize = 0;
    while i < n
        invariant
            i <= n,
            n == ks.len(),
            nb.wf(),
            ks == nb.key_order(),
            ks.no_duplicates(),
            pred == (|v: u32| s4@.contains(v) && !s6@.contains(v)),
            extra == ks.take(i as int).to_set().filter(pred).len(),
            extra <= i,
        decreases n - i,
    {
        let k = nb.key_at(i);
        proof {
            lemma_filter_step(ks, i as int, pred);
        }
        if s4.contains(&k) && !s6.contains(&k) {
            extra = extra + 1;
        }
        i = i + 1;
    }
    let ghost r4 = v4.role_set(role);
    let ghost r6 = v6.role_set(role);
    proof {
        assert(ks.take(n as int) == ks);
        assert(r4 == role_members(v4.neighbors(), v4.relations(), role));
        assert(r6 == role_members(v6.neighbors(), v6.relations(), role));
        assert(ks.to_set().filter(pred) =~= r4.difference(r6));
        assert(role_union(v4, v6, role) =~= r6.union(r4.difference(r6)));
        assert(r6.disjoint(r4.difference(r6)));
        vstd::set_lib::lemma_set_disjoint_lens(r6, r4.difference(r6));
    }
    s6.len() as u128 + extra
}

/// Fraction of the ASes that hold `role` in either family that hold it in
/// the v6 graph; 0 when no AS holds it.
pub fn role_fraction(v4: &AsGraph, v6: &AsGraph, role: RoleCategory) -> (r: Ratio)
    requires
        v4.wf(),
        v6.wf(),
    ensures
        r.denominator > 0,
        role_union(v4, v6, role).len() == 0 ==> r.numerator == 0 && r.denominator == 1,
        role_union(v4, v6, role).len() > 0 ==> r.numerator == v6.role_set(role).len()
            && r.denominator == role_union(v4, v6, role).len(),
{
    let u = role_union_size(v4, v6, role);
    if u == 0 {
        Ratio { numerator: 0, denominator: 1 }
    } else {
        Ratio { numerator: v6.role_members_of(role).len() as u128, denominator: u }
    }
}

pub open spec fn all_roles() -> Seq<RoleCategory> {
    seq![
        RoleCategory::EnterpriseCustomer,
        RoleCategory::SmallTransitProvider,
        RoleCategory::LargeTransitProvider,
        RoleCategory::ContentAccessHostingProvider,
    ]
}

/// Sum over the four roles of the v6 role-set sizes.
pub open spec fn v6_role_total(v6: &AsGraph) -> nat {
    v6.role_set(RoleCategory::EnterpriseCustomer).len() + v6.role_set(
        RoleCategory::SmallTransitProvider,
    ).len() + v6.role_set(RoleCategory::LargeTransitProvider).len() + v6.role_set(
        RoleCategory::ContentAccessHostingProvider,
    ).len()
}

/// Sum over the four roles of the cross-family union sizes.
pub open spec fn union_role_total(v4: &AsGraph, v6: &AsGraph) -> nat {
    role_union(v4, v6, RoleCategory::EnterpriseCustomer).len() + role_union(
        v4,
        v6,
        RoleCategory::SmallTransitProvider,
    ).len() + role_union(v4, v6, RoleCategory::LargeTransitProvider).len() + role_union(
        v4,
        v6,
        RoleCategory::ContentAccessHostingProvider,
    ).len()
}

/// The four roles pooled: v6 role-set sizes over union sizes, summed over
/// the roles; 0 when every union is empty.
pub fn combined_role_fraction(v4: &AsGraph, v6: &AsGraph) -> (r: Ratio)
    requires
        v4.wf(),
        v6.wf(),
    ensures
        r.denominator > 0,
        union_role_total(v4, v6) == 0 ==> r.numerator == 0 && r.denominator == 1,
        union_role_total(v4, v6) > 0 ==> r.numerator == v6_role_total(v6) && r.denominator
            == union_role_total(v4, v6),
{
    let ec = role_union_size(v4, v6, RoleCategory::EnterpriseCustomer);
    let stp = role_union_size(v4, v6, RoleCategory::SmallTransitProvider);
    let ltp = role_union_size(v4, v6, RoleCategory::LargeTransitProvider);
    let cahp = role_union_size(v4, v6, RoleCategory::ContentAccessHostingProvider);
    let den = ec + stp + ltp + cahp;
    if den == 0 {
        Ratio { numerator: 0, denominator: 1 }
    } else {
        let num = v6.role_members_of(RoleCategory::EnterpriseCustomer).len() as u128
            + v6.role_members_of(RoleCategory::SmallTransitProvider).len() as u128
            + v6.role_members_of(RoleCategory::LargeTransitProvider).len() as u128
            + v6.role_members_of(RoleCategory::ContentAccessHostingProvider).len() as u128;
        Ratio { numerator: num, denominator: den }
    }
}

impl AsGraph {
    /// Number of vertices of the neighbor graph.
    pub fn count_vertices(&self) -> (n: usize)
        requires
            self.wf(),
        ensures
            n == self.neighbors().dom().len(),
    {
        self.neighbor_map().num_keys()
    }

    /// Sum of the neighbor-set sizes: each undirected edge counted from both
    /// of its ends.
    pub fn count_edges(&self) -> (n: u128)
        requires
            self.wf(),
        ensures
            arcs(self.neighbors()).finite(),
            n == arcs(self.neighbors()).len(),
    {
        let nb = self.neighbor_map();
        let ghost g = nb@;
        let ghost ks = nb.key_order();
        proof {
            nb.lemma_keys();
            assert(arcs_from(g, ks.take(0)) =~= Set::empty());
        }
        let n = nb.num_keys();
        let mut total: u128 = 0;
        let mut i: usize = 0;
        while i < n
            invariant
                i <= n,
                n == ks.len(),
                nb.wf(),
                g == nb@,
                ks == nb.key_order(),
                ks.no_duplicates(),
                forall|j: int| 0 <= j < ks.len() ==> g.contains_key(#[trigger] ks[j]),
                forall|k: u32| #[trigger] g.contains_key(k) ==> g[k].finite(),
                arcs_from(g, ks.take(i as int)).finite(),
                total == arcs_from(g, ks.take(i as int)).len(),
                total <= i * 0xffff_ffff_ffff_ffffu128,
            decreases n - i,
        {
            let k = nb.key_at(i);
            let d = nb.row_len(k);
            proof {
                lemma_arcs_step(g, ks, i as int);
                assert((i + 1) * 0xffff_ffff_ffff_ffffu128 == i * 0xffff_ffff_ffff_ffffu128
                    + 0xffff_ffff_ffff_ffffu128) by (nonlinear_arith);
                assert(i * 0xffff_ffff_ffff_ffffu128 <= 0xffff_ffff_ffff_ffffu128 * 0xffff_ffff_ffff_ffffu128)
                    by (nonlinear_arith) requires i <= 0xffff_ffff_ffff_ffffu128;
            }
            total = total + d as u128;
            i = i + 1;
        }
        proof {
            assert(ks.take(n as int) == ks);
            assert(arcs_from(g, ks) =~= arcs(g)) by {
                assert forall|e: (u32, u32)| #[trigger] arcs(g).contains(e) implies ks.contains(e.0) by {
                    assert(ks.to_set().contains(e.0));
                }
            }
        }
        total
    }

    /// Mean length of the retained paths; 0 when there are none.
    pub fn mean_path_length(&self) -> (r: Ratio)
        ensures
            r.denominator > 0,
            self.paths().len() == 0 ==> r.numerator == 0 && r.denominator == 1,
            self.paths().len() > 0 ==> r.numerator == total_length(self.paths())
                && r.denominator == self.paths().len(),
    {
        let ps = self.path_list();
        let ghost m = paths_of(ps@);
        let mut total: u128 = 0;
        let mut k: usize = 0;
        while k < ps.len()
            invariant
                k <= ps.len(),
                m == paths_of(ps@),
                total == total_length(m.take(k as int)),
                total <= k * 0xffff_ffff_ffff_ffffu128,
            decreases ps.len() - k,
        {
            assert(m.take(k + 1).drop_last() == m.take(k as int));
            assert(m[k as int] == ps@[k as int]@);
            proof {
                assert((k + 1) * 0xffff_ffff_ffff_ffffu128 == k * 0xffff_ffff_ffff_ffffu128
                    + 0xffff_ffff_ffff_ffffu128) by (nonlinear_arith);
                assert(k * 0xffff_ffff_ffff_ffffu128 <= 0xffff_ffff_ffff_ffffu128 * 0xffff_ffff_ffff_ffffu128)
                    by (nonlinear_arith) requires k <= 0xffff_ffff_ffff_ffffu128;
            }
            total = total + ps[k].len() as u128;
            k = k + 1;
        }
        assert(m.take(ps.len() as int) == m);
        if ps.len() == 0 {
            Ratio { numerator: 0, denominator: 1 }
        } else {
            Ratio { numerator: total, denominator: ps.len() as u128 }
        }
    }
}

} // verus!
