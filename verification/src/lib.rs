//! A directed graph of typed computational nodes with lazy, cycle-safe
//! evaluation.
//!
//! Nodes are instantiated from a host-supplied set of kinds (see
//! [`NodeSet`](kind::NodeSet)); each node owns named input ports and at
//! most one output port.  The connection manager keeps the graph
//! consistent (one producer per input, no self-loops, cascade deletion),
//! and the resolver computes a node's output by walking its upstream
//! dependencies depth-first, substituting defaults for unconnected
//! inputs and the "no value" sentinel for cyclic ones.

use vstd::prelude::*;

pub mod graph;
pub mod kind;
pub mod resolve;
pub mod value;

pub use graph::ConnectionError;
pub use graph::Graph;
pub use graph::GraphEvent;
pub use graph::GraphNode;
pub use graph::InputPort;
pub use graph::InputSlot;
pub use graph::OutputPort;
pub use graph::PortDescriptor;
pub use kind::Inputs;
pub use kind::MathNodes;
pub use kind::NodeSet;
pub use value::Value;
pub use value::ValueError;

verus! {

/// Entry point bundling the engine for one node-kind set `N`: building
/// it yields the graph store that the connection manager and resolver
/// operate on.
pub struct NodePlugins<N: NodeSet> {
    _kinds: core::marker::PhantomData<N>,
}

impl<N: NodeSet> NodePlugins<N> {
    /// A fresh bundle.
    pub fn new() -> (r: NodePlugins<N>) {
        NodePlugins { _kinds: core::marker::PhantomData }
    }

    /// Builds the runtime state for the node set: an empty graph.
    pub fn build(self) -> (g: Graph<N>)
        ensures
            g.nodes@.len() == 0,
            g.events@.len() == 0,
            g.wf(),
    {
        Graph::new()
    }
}

} // verus!
