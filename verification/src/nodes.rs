//! Node identifiers of a circuit under Modified Nodal Analysis.
use vstd::prelude::*;

verus! {

/// A node of a circuit; node `0` is the ground (reference) node.
#[derive(Debug, Clone, Copy, PartialEq, Eq, Hash, Structural)]
pub struct NodeId(pub usize);

impl NodeId {
    /// The reference node, which has no row in the MNA matrix.
    pub fn ground() -> (r: NodeId)
        ensures
            r.0 == 0,
    {
        NodeId(0)
    }

    /// The row of this node in the MNA matrix: none for ground, `n - 1` for node `n`.
    pub fn matrix_idx(&self) -> (r: Option<usize>)
        ensures
            self.0 == 0 ==> r is None,
            self.0 != 0 ==> r == Some((self.0 - 1) as usize),
    {
        if self.0 == 0 {
            None
        } else {
            Some(self.0 - 1)
        }
    }
}

/// How a circuit numbers its unknowns: nodes `1, 2, ...` (0 is ground) and
/// the extra branch-current equations of voltage sources and inductors,
/// `0, 1, ...`.
pub struct Numbering {
    nodes: usize,
    voltage_sources: usize,
}

impl Numbering {
    pub closed spec fn node_count(&self) -> nat {
        self.nodes as nat
    }

    pub closed spec fn equation_count(&self) -> nat {
        self.voltage_sources as nat
    }

    /// No nodes and no extra equations yet.
    pub fn new() -> (r: Numbering)
        ensures
            r.node_count() == 0,
            r.equation_count() == 0,
    {
        Numbering { nodes: 0, voltage_sources: 0 }
    }

    /// A new node, numbered one past the last.
    pub fn add_node(&mut self) -> (r: NodeId)
        requires
            old(self).node_count() < usize::MAX,
        ensures
            final(self).node_count() == old(self).node_count() + 1,
            final(self).equation_count() == old(self).equation_count(),
            r.0 == final(self).node_count(),
    {
        self.nodes = self.nodes + 1;
        NodeId(self.nodes)
    }

    pub fn num_nodes(&self) -> (r: usize)
        ensures
            r == self.node_count(),
    {
        self.nodes
    }

    /// A new branch-current equation; returns its index.
    pub fn add_voltage_source_equation(&mut self) -> (r: usize)
        requires
            old(self).equation_count() < usize::MAX,
        ensures
            final(self).equation_count() == old(self).equation_count() + 1,
            final(self).node_count() == old(self).node_count(),
            r == old(self).equation_count(),
    {
        let eq_idx = self.voltage_sources;
        self.voltage_sources = self.voltage_sources + 1;
        eq_idx
    }

    pub fn num_voltage_sources(&self) -> (r: usize)
        ensures
            r == self.equation_count(),
    {
        self.voltage_sources
    }
}

} // verus!
