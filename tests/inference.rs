use as_topology::graph::{GraphBuilder, YearCorpus};
use as_topology::infer::AsGraph;
use as_topology::metrics::{combined_role_fraction, role_fraction, role_union_size, Ratio};
use as_topology::path::{AddressFamily, PathSegment};
use as_topology::peak::peak_index;
use as_topology::role::{role_for, RoleCategory};

fn seq(v: &[u32]) -> PathSegment {
    PathSegment::AsSequence(v.to_vec())
}

fn build(paths: &[Vec<PathSegment>]) -> AsGraph {
    let mut b = GraphBuilder::new();
    for p in paths {
        b.add_as_path(&Some(p.iter().map(clone_segment).collect()));
    }
    AsGraph::new(b)
}

fn clone_segment(s: &PathSegment) -> PathSegment {
    match s {
        PathSegment::AsSequence(v) => PathSegment::AsSequence(v.clone()),
        PathSegment::AsSet(v) => PathSegment::AsSet(v.clone()),
        PathSegment::ConfedSequence(v) => PathSegment::ConfedSequence(v.clone()),
        PathSegment::ConfedSet(v) => PathSegment::ConfedSet(v.clone()),
    }
}

const ALL_ROLES: [RoleCategory; 4] = [
    RoleCategory::EnterpriseCustomer,
    RoleCategory::SmallTransitProvider,
    RoleCategory::LargeTransitProvider,
    RoleCategory::ContentAccessHostingProvider,
];

/// deg(100) = 1, deg(200) = 5, deg(300) = 2.
fn peak_corpus() -> AsGraph {
    build(&[
        vec![seq(&[100, 200, 300])],
        vec![seq(&[200, 400])],
        vec![seq(&[200, 500])],
        vec![seq(&[200, 600])],
        vec![seq(&[300, 700])],
    ])
}

#[test]
fn peak_path_transit_and_relationships() {
    let g = peak_corpus();
    let n = g.neighbor_map();
    assert_eq!(n.row_len(100), 1);
    assert_eq!(n.row_len(200), 5);
    assert_eq!(n.row_len(300), 2);
    assert_eq!(peak_index(&vec![1, 5, 2]), 1);
    let t = g.transit_map();
    assert!(t.contains_pair(100, 200));
    assert!(t.contains_pair(300, 200));
    assert!(!t.contains_key(200));
    assert!(!t.contains_pair(200, 100));
    // (100, 200): 200 is in transit[100], 100 is not in transit[200].
    assert!(g.provider_map().contains_pair(100, 200));
    assert!(g.customer_map().contains_pair(200, 100));
    assert!(!g.peer_map().contains_pair(100, 200));
    assert!(!g.sibling_map().contains_pair(100, 200));
    // (200, 300): likewise, 200 is the senior side.
    assert!(g.customer_map().contains_pair(200, 300));
    assert!(g.provider_map().contains_pair(300, 200));
    assert_eq!(g.customer_map().row_len(200), 5);
}

#[test]
fn peak_leftmost_on_ties() {
    assert_eq!(peak_index(&vec![3, 7, 2, 7, 1]), 1);
    assert_eq!(peak_index(&vec![4, 4, 4]), 0);
    assert_eq!(peak_index(&vec![1, 2, 3, 9]), 3);
    assert_eq!(peak_index(&vec![5]), 0);
}

#[test]
fn set_segment_members_are_isolated() {
    let mut b = GraphBuilder::new();
    b.add_as_path(&Some(vec![
        seq(&[1, 2]),
        PathSegment::AsSet(vec![10, 20]),
        seq(&[3, 4]),
    ]));
    let g = AsGraph::new(b);
    assert_eq!(g.path_list(), &vec![vec![1, 2, 10, 20, 3, 4]]);
    let n = g.neighbor_map();
    assert!(n.contains_pair(1, 2) && n.contains_pair(2, 1));
    assert!(n.contains_key(10) && n.contains_key(20));
    assert_eq!(n.row_len(10), 0);
    assert_eq!(n.row_len(20), 0);
    assert!(!n.contains_pair(2, 10));
    assert!(!n.contains_pair(20, 3));
    assert!(n.contains_pair(3, 4));
    assert_eq!(n.row_len(3), 1);
    assert_eq!(g.count_vertices(), 6);
    assert_eq!(g.count_edges(), 4);
}

#[test]
fn confed_segments_behave_like_their_plain_kinds() {
    let mut b = GraphBuilder::new();
    b.add_as_path(&Some(vec![
        PathSegment::ConfedSequence(vec![7, 8]),
        PathSegment::ConfedSet(vec![9]),
        seq(&[5]),
    ]));
    let g = AsGraph::new(b);
    let n = g.neighbor_map();
    assert!(n.contains_pair(7, 8));
    assert!(!n.contains_pair(9, 5));
    assert!(!n.contains_pair(8, 9));
    assert_eq!(g.count_edges(), 2);
}

#[test]
fn empty_or_missing_paths_are_not_retained() {
    let mut b = GraphBuilder::new();
    b.add_as_path(&None);
    b.add_as_path(&Some(vec![]));
    b.add_as_path(&Some(vec![PathSegment::AsSet(vec![])]));
    assert_eq!(b.count_vertices(), 0);
    let g = AsGraph::new(b);
    assert_eq!(g.path_list().len(), 0);
    assert_eq!(g.count_vertices(), 0);
    assert_eq!(g.count_edges(), 0);
    assert_eq!(g.mean_path_length(), Ratio { numerator: 0, denominator: 1 });
}

#[test]
fn mean_path_length_is_total_over_count() {
    let g = build(&[vec![seq(&[1, 2, 3])], vec![seq(&[1, 4])], vec![seq(&[5, 1, 2, 6])]]);
    assert_eq!(g.mean_path_length(), Ratio { numerator: 9, denominator: 3 });
}

#[test]
fn neighbor_graph_is_symmetric() {
    let g = build(&[vec![seq(&[1, 2, 3, 1])], vec![seq(&[4, 2]), PathSegment::AsSet(vec![5, 6]), seq(&[6, 7])]]);
    let n = g.neighbor_map();
    for x in 0..10u32 {
        for y in 0..10u32 {
            assert_eq!(n.contains_pair(x, y), n.contains_pair(y, x));
        }
    }
}

#[test]
fn prepending_adds_a_self_loop() {
    let g = build(&[vec![seq(&[1, 1, 2])]]);
    let n = g.neighbor_map();
    assert!(n.contains_pair(1, 1));
    assert_eq!(g.count_edges(), 3);
}

#[test]
fn every_vertex_has_exactly_one_role() {
    let g = peak_corpus();
    let n = g.neighbor_map();
    for i in 0..n.num_keys() {
        let v = n.key_at(i);
        let count = ALL_ROLES.iter().filter(|r| g.role_members_of(**r).contains(&v)).count();
        assert_eq!(count, 1);
    }
    let total: usize = ALL_ROLES.iter().map(|r| g.role_members_of(*r).len()).sum();
    assert_eq!(total, g.count_vertices());
    // 200 has five customers and no peers.
    assert!(g.role_members_of(RoleCategory::SmallTransitProvider).contains(&200));
    assert!(g.role_members_of(RoleCategory::EnterpriseCustomer).contains(&100));
}

#[test]
fn role_table_bands() {
    assert_eq!(role_for(0, 0), RoleCategory::EnterpriseCustomer);
    assert_eq!(role_for(2, 1), RoleCategory::EnterpriseCustomer);
    assert_eq!(role_for(2, 2), RoleCategory::ContentAccessHostingProvider);
    assert_eq!(role_for(3, 3), RoleCategory::SmallTransitProvider);
    assert_eq!(role_for(47, 4), RoleCategory::ContentAccessHostingProvider);
    assert_eq!(role_for(48, 100), RoleCategory::SmallTransitProvider);
    assert_eq!(role_for(179, 0), RoleCategory::SmallTransitProvider);
    assert_eq!(role_for(180, 0), RoleCategory::LargeTransitProvider);
    assert_eq!(role_for(1000, 50), RoleCategory::LargeTransitProvider);
}

#[test]
fn peers_when_no_direction_is_observed() {
    // Equal degrees: the peak is the first vertex, so 2 transits toward 1,
    // and 1 never transits toward 2.
    let g = build(&[vec![seq(&[1, 2])]]);
    assert!(g.transit_map().contains_pair(2, 1));
    assert!(g.customer_map().contains_pair(1, 2));
    // Two paths with opposite peaks give mutual transit: siblings.
    let h = build(&[vec![seq(&[1, 2])], vec![seq(&[2, 1])]]);
    assert!(h.transit_map().contains_pair(2, 1) && h.transit_map().contains_pair(1, 2));
    assert!(h.sibling_map().contains_pair(1, 2) && h.sibling_map().contains_pair(2, 1));
    // A path of one vertex gives no observation: a later pair with no
    // transit evidence is a peering.
    let k = build(&[vec![seq(&[1])], vec![seq(&[3]), PathSegment::AsSet(vec![4])]]);
    assert!(!k.transit_map().contains_key(1));
    assert_eq!(k.peer_map().num_keys(), 0);
}

#[test]
fn role_fractions_guard_empty_unions() {
    let empty = build(&[]);
    for r in ALL_ROLES {
        assert_eq!(role_fraction(&empty, &empty, r), Ratio { numerator: 0, denominator: 1 });
    }
    assert_eq!(combined_role_fraction(&empty, &empty), Ratio { numerator: 0, denominator: 1 });
}

#[test]
fn role_fraction_counts_the_union() {
    let v4 = build(&[vec![seq(&[1])], vec![seq(&[2])], vec![seq(&[3])]]);
    let v6 = build(&[vec![seq(&[3])], vec![seq(&[4])]]);
    let ec = RoleCategory::EnterpriseCustomer;
    assert_eq!(role_union_size(&v4, &v6, ec), 4);
    assert_eq!(role_fraction(&v4, &v6, ec), Ratio { numerator: 2, denominator: 4 });
    assert_eq!(
        role_fraction(&v4, &v6, RoleCategory::LargeTransitProvider),
        Ratio { numerator: 0, denominator: 1 }
    );
    assert_eq!(combined_role_fraction(&v4, &v6), Ratio { numerator: 2, denominator: 4 });
}

#[test]
fn records_go_to_their_family() {
    let mut c = YearCorpus::new();
    c.add_record(AddressFamily::V4, &Some(vec![seq(&[1, 2])]));
    c.add_record(AddressFamily::V6, &Some(vec![seq(&[3])]));
    c.add_record(AddressFamily::V6, &None);
    assert_eq!(c.v4.count_vertices(), 2);
    assert_eq!(c.v6.count_vertices(), 1);
    let v6 = AsGraph::new(c.v6);
    assert_eq!(v6.path_list(), &vec![vec![3]]);
}

#[test]
fn corpus_round_trip_rebuilds_the_same_graph() {
    let g = peak_corpus();
    let n = g.neighbor_map();
    let h = AsGraph::from_corpus(g.path_list().clone(), n.key_list(), n.pair_list()).unwrap();
    assert_eq!(h.path_list(), g.path_list());
    for x in [100u32, 200, 300, 400, 500, 600, 700] {
        for y in [100u32, 200, 300, 400, 500, 600, 700] {
            assert_eq!(h.neighbor_map().contains_pair(x, y), n.contains_pair(x, y));
            assert_eq!(h.transit_map().contains_pair(x, y), g.transit_map().contains_pair(x, y));
            assert_eq!(h.customer_map().contains_pair(x, y), g.customer_map().contains_pair(x, y));
            assert_eq!(h.provider_map().contains_pair(x, y), g.provider_map().contains_pair(x, y));
            assert_eq!(h.peer_map().contains_pair(x, y), g.peer_map().contains_pair(x, y));
            assert_eq!(h.sibling_map().contains_pair(x, y), g.sibling_map().contains_pair(x, y));
        }
    }
    for r in ALL_ROLES {
        assert_eq!(h.role_members_of(r), g.role_members_of(r));
    }
    assert_eq!(h.count_edges(), g.count_edges());
}

#[test]
fn corrupt_corpus_is_refused() {
    // Asymmetric neighbor pairs.
    assert!(AsGraph::from_corpus(vec![vec![1, 2]], &vec![1, 2], &vec![(1, 2)]).is_none());
    // A path vertex that is not a vertex.
    assert!(AsGraph::from_corpus(vec![vec![1, 3]], &vec![1, 2], &vec![(1, 2), (2, 1)]).is_none());
    // An empty path.
    assert!(AsGraph::from_corpus(vec![vec![]], &vec![], &vec![]).is_none());
    let ok = AsGraph::from_corpus(vec![vec![1, 2]], &vec![1, 2], &vec![(1, 2), (2, 1)]).unwrap();
    assert_eq!(ok.count_vertices(), 2);
    assert!(ok.customer_map().contains_pair(1, 2));
}
