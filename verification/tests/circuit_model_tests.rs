use resist::nodes::{NodeId, Numbering};
use resist::dsu::Dsu;

#[test]
fn matrix_idx_of_ground_is_none() {
    assert_eq!(NodeId::ground().matrix_idx(), None);
    assert_eq!(NodeId(0).matrix_idx(), None);
}

#[test]
fn matrix_idx_of_node_is_one_less() {
    assert_eq!(NodeId(1).matrix_idx(), Some(0));
    assert_eq!(NodeId(7).matrix_idx(), Some(6));
}

#[test]
fn numbering_counts_nodes_and_equations() {
    let mut n = Numbering::new();
    assert_eq!(n.add_node(), NodeId(1));
    assert_eq!(n.add_node(), NodeId(2));
    assert_eq!(n.add_voltage_source_equation(), 0);
    assert_eq!(n.add_voltage_source_equation(), 1);
    assert_eq!(n.add_node(), NodeId(3));
    assert_eq!(n.num_nodes(), 3);
    assert_eq!(n.num_voltage_sources(), 2);
}

#[test]
fn dsu_starts_with_singletons() {
    let mut d = Dsu::new(4);
    for i in 0..4 {
        assert_eq!(d.find(i), i);
    }
}

#[test]
fn dsu_union_joins_classes() {
    let mut d = Dsu::new(5);
    d.union(0, 1);
    d.union(3, 4);
    assert_eq!(d.find(0), d.find(1));
    assert_eq!(d.find(3), d.find(4));
    assert_ne!(d.find(0), d.find(3));
    assert_ne!(d.find(2), d.find(0));
    d.union(1, 4);
    assert_eq!(d.find(0), d.find(3));
    assert_ne!(d.find(2), d.find(4));
}

#[test]
fn dsu_equal_ranks_keep_first_root() {
    let mut d = Dsu::new(3);
    d.union(1, 2);
    assert_eq!(d.find(2), 1);
    // rank of 1 is now 1, above that of 0: 0 goes below 1
    d.union(0, 2);
    assert_eq!(d.find(0), 1);
}

#[test]
fn dsu_union_is_idempotent() {
    let mut d = Dsu::new(3);
    d.union(0, 1);
    let r = d.find(1);
    d.union(1, 0);
    d.union(0, 0);
    assert_eq!(d.find(0), r);
    assert_eq!(d.find(1), r);
    assert_eq!(d.find(2), 2);
}

#[test]
fn dsu_long_chain_compresses() {
    let mut d = Dsu::new(64);
    for i in 0..63 {
        d.union(i, i + 1);
    }
    let r = d.find(63);
    for i in 0..64 {
        assert_eq!(d.find(i), r);
    }
}
