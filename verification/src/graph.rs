//! The graph store and its connection manager.
//!
//! Nodes live in an arena and are addressed by stable integer handles;
//! a removed node leaves a tombstone so other handles stay valid.  Each
//! input slot records its producer directly, which makes `producer_of`
//! an O(1) lookup and makes the single-producer invariant structural.

use vstd::prelude::*;

use crate::kind::NodeSet;
use crate::value::Value;

verus! {

/// Handle of a node's output port.  A node has at most one output, so
/// the node handle identifies it.
#[derive(Clone, Copy, PartialEq, Eq, Structural, Debug)]
pub struct OutputPort {
    pub node: usize,
}

/// Handle of one named input port: a node handle and the index of the
/// slot among that node's inputs.
#[derive(Clone, Copy, PartialEq, Eq, Structural, Debug)]
pub struct InputPort {
    pub node: usize,
    pub slot: usize,
}

/// Static metadata of one input port: its label (the lookup key at
/// resolution time) and the value substituted when no producer feeds it.
pub struct PortDescriptor {
    pub label: String,
    pub default: Value,
}

impl Clone for PortDescriptor {
    fn clone(&self) -> (r: Self)
        ensures
            r == *self,
    {
        PortDescriptor { label: self.label.clone(), default: self.default }
    }
}

/// One input slot of a node: its descriptor plus the handle of the
/// producing node, if any.  `producer` being a single `Option` is what
/// makes "at most one producer per input" structural.
pub struct InputSlot {
    pub descriptor: PortDescriptor,
    pub producer: Option<usize>,
}

/// One node of the arena.  `alive` is false once the node was removed;
/// a dead node keeps its index so other handles stay stable, but carries
/// no connections.
pub struct GraphNode<N> {
    pub kind: N,
    pub inputs: Vec<InputSlot>,
    pub output: Option<String>,
    pub alive: bool,
}

/// Errors of the mutating connection operations.
#[derive(Clone, Copy, PartialEq, Eq, Structural, Debug)]
pub enum ConnectionError {
    /// The two ports belong to the same node (self-loop).
    IncompatibleEndpoint,
    /// The input already carries a connection; `reconnect` is the
    /// sanctioned way to replace it.
    AlreadyConnected,
}

/// A "graph changed" notification, queued by each mutating operation and
/// drained by the host once per presentation cycle.
#[derive(Clone, Copy, PartialEq, Eq, Structural, Debug)]
pub enum GraphEvent {
    NodeAdded { node: usize },
    NodeRemoved { node: usize },
    ConnectionAdded { output: OutputPort, input: InputPort },
    ConnectionRemoved { output: OutputPort, input: InputPort },
}

/// Sibling input ports must carry distinct labels: the label is the
/// lookup key of the resolved-input mapping.
pub open spec fn distinct_labels(ports: Seq<PortDescriptor>) -> bool {
    forall|i: int, j: int|
        0 <= i < ports.len() && 0 <= j < ports.len() && i != j ==> ports[i].label@ != ports[j].label@
}

/// The graph store: the node arena and the outbound notification queue.
pub struct Graph<N: NodeSet> {
    pub nodes: Vec<GraphNode<N>>,
    pub events: Vec<GraphEvent>,
}

impl<N: NodeSet> Graph<N> {
    /// A node handle that addresses a live node.
    pub open spec fn valid_node(self, n: int) -> bool {
        0 <= n < self.nodes@.len() && self.nodes@[n].alive
    }

    /// An input handle that addresses an existing slot of a live node.
    pub open spec fn valid_input(self, i: InputPort) -> bool {
        &&& self.valid_node(i.node as int)
        &&& i.slot < self.nodes@[i.node as int].inputs@.len()
    }

    /// An output handle that addresses the output of a live node.
    pub open spec fn valid_output(self, o: OutputPort) -> bool {
        &&& self.valid_node(o.node as int)
        &&& self.nodes@[o.node as int].output is Some
    }

    /// The producer recorded at input `i`.
    pub open spec fn spec_producer(self, i: InputPort) -> Option<usize> {
        self.nodes@[i.node as int].inputs@[i.slot as int].producer
    }

    /// The connection relation: output `o` feeds input `i`.
    pub open spec fn connects(self, o: OutputPort, i: InputPort) -> bool {
        &&& self.valid_input(i)
        &&& self.spec_producer(i) == Some(o.node)
    }

    /// The producer recorded at slot `s` of node `n` is sound: a live
    /// node with an output, different from `n` (no self-loop), feeding a
    /// live consumer.
    pub open spec fn producer_ok(self, n: int, s: int) -> bool {
        match self.nodes@[n].inputs@[s].producer {
            Some(p) => {
                &&& self.valid_node(p as int)
                &&& self.nodes@[p as int].output is Some
                &&& p != n
                &&& self.nodes@[n].alive
            },
            None => true,
        }
    }

    /// Well-formedness of the store:
    /// - every recorded producer is a live node with an output and is
    ///   not the consuming node itself (no self-loop);
    /// - a dead node carries no connections;
    /// - sibling input labels are distinct.
    pub open spec fn wf(self) -> bool {
        &&& forall|n: int, s: int|
            0 <= n < self.nodes@.len() && 0 <= s < self.nodes@[n].inputs@.len()
                ==> #[trigger] self.producer_ok(n, s)
        &&& forall|n: int| 0 <= n < self.nodes@.len() ==> #[trigger] self.distinct_slot_labels(n)
    }

    /// Labels of node `n`'s input slots are pairwise distinct.
    pub open spec fn distinct_slot_labels(self, n: int) -> bool {
        forall|s1: int, s2: int|
            0 <= s1 < self.nodes@[n].inputs@.len() && 0 <= s2 < self.nodes@[n].inputs@.len() && s1
                != s2 ==> (#[trigger] self.nodes@[n].inputs@[s1]).descriptor.label@ != (
            #[trigger] self.nodes@[n].inputs@[s2]).descriptor.label@
    }

    /// `post` is `pre` with the producer of input `i` set to `p` and
    /// everything else — nodes, ports, descriptors — unchanged.
    pub open spec fn producer_updated(
        pre: Graph<N>,
        post: Graph<N>,
        i: InputPort,
        p: Option<usize>,
    ) -> bool {
        &&& post.nodes@.len() == pre.nodes@.len()
        &&& forall|m: int|
            0 <= m < pre.nodes@.len() && m != i.node ==> post.nodes@[m] == pre.nodes@[m]
        &&& post.nodes@[i.node as int].kind == pre.nodes@[i.node as int].kind
        &&& post.nodes@[i.node as int].output == pre.nodes@[i.node as int].output
        &&& post.nodes@[i.node as int].alive == pre.nodes@[i.node as int].alive
        &&& post.nodes@[i.node as int].inputs@.len() == pre.nodes@[i.node as int].inputs@.len()
        &&& forall|s: int|
            0 <= s < pre.nodes@[i.node as int].inputs@.len() && s != i.slot
                ==> post.nodes@[i.node as int].inputs@[s] == pre.nodes@[i.node as int].inputs@[s]
        &&& post.nodes@[i.node as int].inputs@[i.slot as int].descriptor
            == pre.nodes@[i.node as int].inputs@[i.slot as int].descriptor
        &&& post.nodes@[i.node as int].inputs@[i.slot as int].producer == p
    }

    /// An empty graph.
    pub fn new() -> (g: Graph<N>)
        ensures
            g.nodes@.len() == 0,
            g.events@.len() == 0,
            g.wf(),
    {
        Graph { nodes: Vec::new(), events: Vec::new() }
    }

    /// Instantiates a node from a kind, its input port descriptors and
    /// the label of its output port (`None` for a sink).  Node and ports
    /// come to life together; the fresh node carries no connections.
    /// Returns the node's stable handle and queues `NodeAdded`.
    pub fn add_node(&mut self, kind: N, inputs: Vec<PortDescriptor>, output: Option<String>) -> (id:
        usize)
        requires
            old(self).wf(),
            distinct_labels(inputs@),
        ensures
            final(self).wf(),
            id == old(self).nodes@.len(),
            final(self).valid_node(id as int),
            final(self).nodes@.len() == old(self).nodes@.len() + 1,
            forall|m: int|
                0 <= m < old(self).nodes@.len() ==> final(self).nodes@[m] == old(self).nodes@[m],
            final(self).nodes@[id as int].kind == kind,
            final(self).nodes@[id as int].output == output,
            final(self).nodes@[id as int].alive,
            final(self).nodes@[id as int].inputs@.len() == inputs@.len(),
            forall|s: int|
                0 <= s < inputs@.len() ==> {
                    &&& (#[trigger] final(self).nodes@[id as int].inputs@[s]).descriptor
                        == inputs@[s]
                    &&& final(self).nodes@[id as int].inputs@[s].producer is None
                },
            final(self).events@ == old(self).events@.push(GraphEvent::NodeAdded { node: id }),
    {
        let id = self.nodes.len();
        let mut slots: Vec<InputSlot> = Vec::new();
        let count = inputs.len();
        let mut s: usize = 0;
        while s < count
            invariant
                count == inputs@.len(),
                s == slots@.len(),
                s <= count,
                forall|t: int|
                    0 <= t < s ==> {
                        &&& (#[trigger] slots@[t]).descriptor == inputs@[t]
                        &&& slots@[t].producer is None
                    },
            decreases count - s,
        {
            slots.push(InputSlot { descriptor: inputs[s].clone(), producer: None });
            s = s + 1;
        }
        let node = GraphNode { kind, inputs: slots, output, alive: true };
        self.nodes.push(node);
        self.events.push(GraphEvent::NodeAdded { node: id });
        proof {
            assert forall|n: int, s: int|
                0 <= n < self.nodes@.len() && 0 <= s < self.nodes@[n].inputs@.len() implies
                #[trigger] self.producer_ok(n, s) by {
                if n < id {
                    assert(old(self).producer_ok(n, s));
                }
            }
            assert forall|n: int| 0 <= n < self.nodes@.len() implies #[trigger] self
                .distinct_slot_labels(n) by {
                if n < id {
                    assert(self.nodes@[n] == old(self).nodes@[n]);
                    assert(old(self).distinct_slot_labels(n));
                }
            }
        }
        id
    }

    /// O(1) lookup of the producer feeding input `i`, for the resolver
    /// and for the presentation layer's connection display.
    pub fn producer_of(&self, i: InputPort) -> (r: Option<OutputPort>)
        requires
            self.valid_input(i),
        ensures
            r == match self.spec_producer(i) {
                Some(p) => Some(OutputPort { node: p }),
                None => None::<OutputPort>,
            },
    {
        match self.nodes[i.node].inputs[i.slot].producer {
            Some(p) => Some(OutputPort { node: p }),
            None => None,
        }
    }

    /// Every input port currently fed by output `o`: the fan-out of one
    /// producer, with no input listed twice.
    pub fn consumers_of(&self, o: OutputPort) -> (r: Vec<InputPort>)
        requires
            self.wf(),
        ensures
            forall|k: int| 0 <= k < r@.len() ==> self.connects(o, #[trigger] r@[k]),
            forall|i: InputPort| self.connects(o, i) ==> r@.contains(i),
            forall|k1: int, k2: int| 0 <= k1 < r@.len() && 0 <= k2 < r@.len() && k1 != k2
                ==> r@[k1] != r@[k2],
    {
        let count = self.nodes.len();
        let mut found: Vec<InputPort> = Vec::new();
        let mut m: usize = 0;
        while m < count
            invariant
                self.wf(),
                count == self.nodes@.len(),
                m <= count,
                forall|k: int| 0 <= k < found@.len() ==> self.connects(o, #[trigger] found@[k]),
                forall|k: int| 0 <= k < found@.len() ==> (#[trigger] found@[k]).node < m,
                forall|i: InputPort|
                    self.connects(o, i) && i.node < m ==> found@.contains(i),
                forall|k1: int, k2: int|
                    0 <= k1 < found@.len() && 0 <= k2 < found@.len() && k1 != k2 ==> found@[k1]
                        != found@[k2],
            decreases count - m,
        {
            let slot_count = self.nodes[m].inputs.len();
            let mut s: usize = 0;
            while s < slot_count
                invariant
                    self.wf(),
                    count == self.nodes@.len(),
                    m < count,
                    s <= slot_count,
                    slot_count == self.nodes@[m as int].inputs@.len(),
                    forall|k: int| 0 <= k < found@.len() ==> self.connects(o, #[trigger] found@[k]),
                    forall|k: int|
                        0 <= k < found@.len() ==> (#[trigger] found@[k]).node < m || (
                        found@[k].node == m && found@[k].slot < s),
                    forall|i: InputPort|
                        self.connects(o, i) && (i.node < m || (i.node == m && i.slot < s))
                            ==> found@.contains(i),
                    forall|k1: int, k2: int|
                        0 <= k1 < found@.len() && 0 <= k2 < found@.len() && k1 != k2 ==> found@[k1]
                            != found@[k2],
                decreases slot_count - s,
            {
                let matches_o = match self.nodes[m].inputs[s].producer {
                    Some(p) => p == o.node,
                    None => false,
                };
                let ghost pre_found = found@;
                if matches_o {
                    proof {
                        assert(self.producer_ok(m as int, s as int));
                    }
                    found.push(InputPort { node: m, slot: s });
                }
                s = s + 1;
                proof {
                    assert forall|i: InputPort|
                        self.connects(o, i) && (i.node < m || (i.node == m && i.slot < s)) implies
                        found@.contains(i) by {
                        if i.node == m && i.slot == s - 1 {
                            if matches_o {
                                assert(found@[found@.len() - 1] == i);
                            } else {
                                assert(self.spec_producer(i) != Some(o.node));
                            }
                        } else {
                            assert(pre_found.contains(i));
                            let k = choose|k: int| 0 <= k < pre_found.len() && pre_found[k] == i;
                            assert(found@[k] == i);
                        }
                    }
                }
            }
            m = m + 1;
        }
        found
    }

    /// Records the edge `o -> i`.  Fails with `IncompatibleEndpoint` on
    /// a self-loop, with `AlreadyConnected` when `i` already has a
    /// producer; a failed call leaves the graph untouched.  On success
    /// queues `ConnectionAdded`.
    pub fn connect(&mut self, o: OutputPort, i: InputPort) -> (r: Result<(), ConnectionError>)
        requires
            old(self).wf(),
            old(self).valid_output(o),
            old(self).valid_input(i),
        ensures
            final(self).wf(),
            r == if o.node == i.node {
                Err::<(), ConnectionError>(ConnectionError::IncompatibleEndpoint)
            } else if old(self).spec_producer(i) is Some {
                Err::<(), ConnectionError>(ConnectionError::AlreadyConnected)
            } else {
                Ok::<(), ConnectionError>(())
            },
            r is Err ==> *final(self) == *old(self),
            r is Ok ==> Self::producer_updated(*old(self), *final(self), i, Some(o.node)),
            r is Ok ==> final(self).connects(o, i),
            r is Ok ==> final(self).events@ == old(self).events@.push(
                GraphEvent::ConnectionAdded { output: o, input: i },
            ),
    {
        if o.node == i.node {
            return Err(ConnectionError::IncompatibleEndpoint);
        }
        if self.nodes[i.node].inputs[i.slot].producer.is_some() {
            return Err(ConnectionError::AlreadyConnected);
        }
        self.nodes[i.node].inputs[i.slot].producer = Some(o.node);
        self.events.push(GraphEvent::ConnectionAdded { output: o, input: i });
        proof {
            self.lemma_wf_after_producer_update(*old(self), i);
        }
        Ok(())
    }

    /// Re-establishes well-formedness after one input slot's producer
    /// changed to a sound value, all else staying equal.
    proof fn lemma_wf_after_producer_update(self, pre: Graph<N>, i: InputPort)
        requires
            pre.wf(),
            pre.valid_input(i),
            Self::producer_updated(pre, self, i, self.spec_producer(i)),
            self.producer_ok(i.node as int, i.slot as int),
        ensures
            self.wf(),
    {
        assert forall|n: int, s: int|
            0 <= n < self.nodes@.len() && 0 <= s < self.nodes@[n].inputs@.len() implies
            #[trigger] self.producer_ok(n, s) by {
            if n != i.node || s != i.slot {
                assert(pre.producer_ok(n, s));
                assert(self.nodes@[n].inputs@[s] == pre.nodes@[n].inputs@[s]);
                if n != i.node {
                    assert(self.nodes@[n].alive == pre.nodes@[n].alive);
                }
                match pre.nodes@[n].inputs@[s].producer {
                    Some(p) => {
                        assert(self.nodes@[p as int].alive == pre.nodes@[p as int].alive);
                        assert(self.nodes@[p as int].output == pre.nodes@[p as int].output);
                    },
                    None => {},
                }
            }
        }
        assert forall|n: int| 0 <= n < self.nodes@.len() implies #[trigger] self
            .distinct_slot_labels(n) by {
            assert(pre.distinct_slot_labels(n));
            assert forall|s1: int, s2: int|
                0 <= s1 < self.nodes@[n].inputs@.len() && 0 <= s2 < self.nodes@[n].inputs@.len()
                    && s1 != s2 implies (#[trigger] self.nodes@[n].inputs@[s1]).descriptor.label@
                != (#[trigger] self.nodes@[n].inputs@[s2]).descriptor.label@ by {
                assert(self.nodes@[n].inputs@[s1].descriptor == pre.nodes@[n].inputs@[s1].descriptor);
                assert(self.nodes@[n].inputs@[s2].descriptor == pre.nodes@[n].inputs@[s2].descriptor);
            }
        }
    }

    /// Removes the connection feeding input `i`, if any; a no-op (and no
    /// notification) otherwise.
    pub fn disconnect(&mut self, i: InputPort)
        requires
            old(self).wf(),
            old(self).valid_input(i),
        ensures
            final(self).wf(),
            final(self).spec_producer(i) is None,
            Self::producer_updated(*old(self), *final(self), i, None::<usize>),
            final(self).events@ == match old(self).spec_producer(i) {
                Some(p) => old(self).events@.push(
                    GraphEvent::ConnectionRemoved {
                        output: OutputPort { node: p },
                        input: i,
                    },
                ),
                None => old(self).events@,
            },
    {
        match self.nodes[i.node].inputs[i.slot].producer {
            Some(p) => {
                self.nodes[i.node].inputs[i.slot].producer = None;
                self.events.push(
                    GraphEvent::ConnectionRemoved { output: OutputPort { node: p }, input: i },
                );
                proof {
                    self.lemma_wf_after_producer_update(*old(self), i);
                }
            },
            None => {},
        }
    }

    /// Replaces whatever feeds input `i` by the edge `o -> i`: the
    /// explicit way to change a producer.  Fails only on a self-loop,
    /// leaving the graph untouched; on success the old connection (if
    /// any) is dropped and its removal notified before the addition.
    pub fn reconnect(&mut self, o: OutputPort, i: InputPort) -> (r: Result<(), ConnectionError>)
        requires
            old(self).wf(),
            old(self).valid_output(o),
            old(self).valid_input(i),
        ensures
            final(self).wf(),
            r == if o.node == i.node {
                Err::<(), ConnectionError>(ConnectionError::IncompatibleEndpoint)
            } else {
                Ok::<(), ConnectionError>(())
            },
            r is Err ==> *final(self) == *old(self),
            r is Ok ==> Self::producer_updated(*old(self), *final(self), i, Some(o.node)),
            r is Ok ==> final(self).connects(o, i),
            r is Ok ==> final(self).events@ == (match old(self).spec_producer(i) {
                Some(p) => old(self).events@.push(
                    (GraphEvent::ConnectionRemoved { output: OutputPort { node: p }, input: i }),
                ),
                None => old(self).events@,
            }).push((GraphEvent::ConnectionAdded { output: o, input: i })),
    {
        if o.node == i.node {
            return Err(ConnectionError::IncompatibleEndpoint);
        }
        self.disconnect(i);
        let r = self.connect(o, i);
        proof {
            assert(r is Ok);
        }
        Ok(())
    }

    /// Clears every input slot of node `m` whose producer matches
    /// `from` (every connected slot when `from` is `None`), queueing one
    /// `ConnectionRemoved` notification per dropped edge.
    fn drop_incoming(&mut self, m: usize, from: Option<usize>)
        requires
            old(self).wf(),
            m < old(self).nodes@.len(),
        ensures
            final(self).wf(),
            final(self).nodes@.len() == old(self).nodes@.len(),
            forall|k: int|
                0 <= k < old(self).nodes@.len() && k != m ==> final(self).nodes@[k] == old(
                    self,
                ).nodes@[k],
            final(self).nodes@[m as int].kind == old(self).nodes@[m as int].kind,
            final(self).nodes@[m as int].output == old(self).nodes@[m as int].output,
            final(self).nodes@[m as int].alive == old(self).nodes@[m as int].alive,
            final(self).nodes@[m as int].inputs@.len() == old(self).nodes@[m as int].inputs@.len(),
            forall|t: int|
                0 <= t < old(self).nodes@[m as int].inputs@.len() ==> {
                    &&& (#[trigger] final(self).nodes@[m as int].inputs@[t]).descriptor == old(
                        self,
                    ).nodes@[m as int].inputs@[t].descriptor
                    &&& final(self).nodes@[m as int].inputs@[t].producer == (
                    if Self::drops(old(self).nodes@[m as int].inputs@[t].producer, from) {
                        None::<usize>
                    } else {
                        old(self).nodes@[m as int].inputs@[t].producer
                    })
                },
            final(self).events@.len() >= old(self).events@.len(),
            forall|j: int|
                0 <= j < old(self).events@.len() ==> final(self).events@[j] == old(self).events@[j],
            forall|j: int|
                old(self).events@.len() <= j < final(self).events@.len() ==> ((
                #[trigger] final(self).events@[j]) matches GraphEvent::ConnectionRemoved {
                    output,
                    input,
                } && input.node == m && (from is Some ==> Some(output.node) == from)),
    {
        let slot_count = self.nodes[m].inputs.len();
        let mut s: usize = 0;
        while s < slot_count
            invariant
                self.wf(),
                m < self.nodes@.len(),
                self.nodes@.len() == old(self).nodes@.len(),
                s <= slot_count,
                slot_count == self.nodes@[m as int].inputs@.len(),
                forall|k: int|
                    0 <= k < old(self).nodes@.len() && k != m ==> self.nodes@[k] == old(
                        self,
                    ).nodes@[k],
                self.nodes@[m as int].kind == old(self).nodes@[m as int].kind,
                self.nodes@[m as int].output == old(self).nodes@[m as int].output,
                self.nodes@[m as int].alive == old(self).nodes@[m as int].alive,
                slot_count == old(self).nodes@[m as int].inputs@.len(),
                forall|t: int|
                    0 <= t < slot_count ==> {
                        &&& (#[trigger] self.nodes@[m as int].inputs@[t]).descriptor == old(
                            self,
                        ).nodes@[m as int].inputs@[t].descriptor
                        &&& self.nodes@[m as int].inputs@[t].producer == (
                        if t < s && Self::drops(
                            old(self).nodes@[m as int].inputs@[t].producer,
                            from,
                        ) {
                            None::<usize>
                        } else {
                            old(self).nodes@[m as int].inputs@[t].producer
                        })
                    },
                self.events@.len() >= old(self).events@.len(),
                forall|j: int|
                    0 <= j < old(self).events@.len() ==> self.events@[j] == old(self).events@[j],
                forall|j: int|
                    old(self).events@.len() <= j < self.events@.len() ==> ((
                    #[trigger] self.events@[j]) matches GraphEvent::ConnectionRemoved {
                        output,
                        input,
                    } && input.node == m && (from is Some ==> Some(output.node) == from)),
            decreases slot_count - s,
        {
            let producer = self.nodes[m].inputs[s].producer;
            let hit = match (producer, from) {
                (Some(p), Some(src)) => p == src,
                (Some(_), None) => true,
                (None, _) => false,
            };
            if hit {
                let ghost before = *self;
                let p = match producer {
                    Some(p) => p,
                    None => 0,  // unreachable: `hit` implies a producer
                };
                self.nodes[m].inputs[s].producer = None;
                self.events.push(
                    GraphEvent::ConnectionRemoved {
                        output: OutputPort { node: p },
                        input: InputPort { node: m, slot: s },
                    },
                );
                proof {
                    assert(before.producer_ok(m as int, s as int));
                    assert(before.nodes@[m as int].alive);
                    self.lemma_wf_after_producer_update(
                        before,
                        InputPort { node: m, slot: s },
                    );
                }
            }
            s = s + 1;
        }
    }

    /// Whether `drop_incoming` removes an edge whose producer is
    /// `recorded`, given its `from` filter.
    pub open spec fn drops(recorded: Option<usize>, from: Option<usize>) -> bool {
        match from {
            Some(src) => recorded == Some(src),
            None => recorded is Some,
        }
    }

    /// Removes node `n` and every connection incident to any of its
    /// ports: its own inputs are cleared and every input it fed is left
    /// without a producer.  Handles of other nodes stay valid; queues
    /// one `ConnectionRemoved` per dropped edge and a final
    /// `NodeRemoved`.
    pub fn remove_node(&mut self, n: usize)
        requires
            old(self).wf(),
            old(self).valid_node(n as int),
        ensures
            final(self).wf(),
            final(self).nodes@.len() == old(self).nodes@.len(),
            !final(self).nodes@[n as int].alive,
            forall|m: int|
                0 <= m < old(self).nodes@.len() && m != n ==> {
                    &&& (#[trigger] final(self).nodes@[m]).kind == old(self).nodes@[m].kind
                    &&& final(self).nodes@[m].output == old(self).nodes@[m].output
                    &&& final(self).nodes@[m].alive == old(self).nodes@[m].alive
                    &&& final(self).nodes@[m].inputs@.len() == old(self).nodes@[m].inputs@.len()
                },
            forall|m: int, s: int|
                0 <= m < old(self).nodes@.len() && m != n && 0 <= s
                    < old(self).nodes@[m].inputs@.len() ==> {
                    &&& (#[trigger] final(self).nodes@[m].inputs@[s]).descriptor == old(
                        self,
                    ).nodes@[m].inputs@[s].descriptor
                    &&& final(self).nodes@[m].inputs@[s].producer == (
                    if old(self).nodes@[m].inputs@[s].producer == Some(n) {
                        None::<usize>
                    } else {
                        old(self).nodes@[m].inputs@[s].producer
                    })
                },
            forall|i: InputPort, o: OutputPort|
                final(self).connects(o, i) ==> o.node != n && i.node != n,
            final(self).events@.len() > old(self).events@.len(),
            forall|j: int|
                0 <= j < old(self).events@.len() ==> final(self).events@[j] == old(self).events@[j],
            forall|j: int|
                old(self).events@.len() <= j < final(self).events@.len() - 1 ==> ((
                #[trigger] final(self).events@[j]) matches GraphEvent::ConnectionRemoved {
                    output,
                    input,
                } && (output.node == n || input.node == n)),
            final(self).events@.last() == (GraphEvent::NodeRemoved { node: n }),
    {
        let count = self.nodes.len();

        // Drop every edge that leaves n's output.
        let mut m: usize = 0;
        while m < count
            invariant
                self.wf(),
                n < count,
                count == self.nodes@.len(),
                count == old(self).nodes@.len(),
                m <= count,
                self.nodes@[n as int] == old(self).nodes@[n as int],
                forall|k: int|
                    0 <= k < count && k != n ==> {
                        &&& (#[trigger] self.nodes@[k]).kind == old(self).nodes@[k].kind
                        &&& self.nodes@[k].output == old(self).nodes@[k].output
                        &&& self.nodes@[k].alive == old(self).nodes@[k].alive
                        &&& self.nodes@[k].inputs@.len() == old(self).nodes@[k].inputs@.len()
                    },
                forall|k: int, s: int|
                    0 <= k < count && k != n && 0 <= s < old(self).nodes@[k].inputs@.len() ==> {
                        &&& (#[trigger] self.nodes@[k].inputs@[s]).descriptor == old(
                            self,
                        ).nodes@[k].inputs@[s].descriptor
                        &&& self.nodes@[k].inputs@[s].producer == (
                        if k < m && old(self).nodes@[k].inputs@[s].producer == Some(n) {
                            None::<usize>
                        } else {
                            old(self).nodes@[k].inputs@[s].producer
                        })
                    },
                self.events@.len() >= old(self).events@.len(),
                forall|j: int|
                    0 <= j < old(self).events@.len() ==> self.events@[j] == old(self).events@[j],
                forall|j: int|
                    old(self).events@.len() <= j < self.events@.len() ==> ((
                    #[trigger] self.events@[j]) matches GraphEvent::ConnectionRemoved {
                        output,
                        input,
                    } && output.node == n),
            decreases count - m,
        {
            if m != n {
                let ghost before = *self;
                self.drop_incoming(m, Some(n));
                proof {
                    assert forall|k: int, s: int|
                        0 <= k < count && k != n && 0 <= s
                            < old(self).nodes@[k].inputs@.len() implies {
                        &&& (#[trigger] self.nodes@[k].inputs@[s]).descriptor == old(
                            self,
                        ).nodes@[k].inputs@[s].descriptor
                        &&& self.nodes@[k].inputs@[s].producer == (
                        if k < m + 1 && old(self).nodes@[k].inputs@[s].producer == Some(n) {
                            None::<usize>
                        } else {
                            old(self).nodes@[k].inputs@[s].producer
                        })
                    } by {
                        if k != m {
                            assert(self.nodes@[k] == before.nodes@[k]);
                        }
                    }
                }
            }
            m = m + 1;
        }

        // Drop every edge that enters one of n's own inputs, then the
        // node itself.
        let ghost before_inputs = *self;
        self.drop_incoming(n, None);
        let ghost cleared = *self;
        self.nodes[n].alive = false;
        self.events.push(GraphEvent::NodeRemoved { node: n });
        proof {
            assert forall|k: int, s: int|
                0 <= k < self.nodes@.len() && 0 <= s < self.nodes@[k].inputs@.len() implies
                #[trigger] self.producer_ok(k, s) by {
                if k != n {
                    assert(self.nodes@[k] == cleared.nodes@[k]);
                    assert(cleared.producer_ok(k, s));
                    match self.nodes@[k].inputs@[s].producer {
                        Some(p) => {
                            assert(p != n);
                            assert(self.nodes@[p as int] == cleared.nodes@[p as int]);
                        },
                        None => {},
                    }
                } else {
                    assert(self.nodes@[n as int].inputs@[s].producer is None);
                }
            }
            assert forall|k: int| 0 <= k < self.nodes@.len() implies #[trigger] self
                .distinct_slot_labels(k) by {
                assert(cleared.distinct_slot_labels(k));
                if k != n {
                    assert(self.nodes@[k] == cleared.nodes@[k]);
                } else {
                    assert forall|s1: int, s2: int|
                        0 <= s1 < self.nodes@[k].inputs@.len() && 0 <= s2
                            < self.nodes@[k].inputs@.len() && s1 != s2 implies (
                    #[trigger] self.nodes@[k].inputs@[s1]).descriptor.label@ != (
                    #[trigger] self.nodes@[k].inputs@[s2]).descriptor.label@ by {
                        assert(self.nodes@[k].inputs@[s1] == cleared.nodes@[k].inputs@[s1]);
                        assert(self.nodes@[k].inputs@[s2] == cleared.nodes@[k].inputs@[s2]);
                    }
                }
            }
            assert forall|i: InputPort, o: OutputPort| final(self).connects(o, i) implies o.node
                != n && i.node != n by {
                if final(self).connects(o, i) {
                    assert(final(self).producer_ok(i.node as int, i.slot as int));
                }
            }
        }
    }

    /// Hands the queued notifications to the host and empties the queue.
    pub fn take_events(&mut self) -> (r: Vec<GraphEvent>)
        ensures
            r@ == old(self).events@,
            final(self).events@.len() == 0,
            final(self).nodes@ == old(self).nodes@,
    {
        let mut drained: Vec<GraphEvent> = Vec::new();
        core::mem::swap(&mut drained, &mut self.events);
        drained
    }
}

/// Single-producer law: whatever sequence of `connect`, `reconnect` and
/// `disconnect` calls produced the graph, an input port is fed by at
/// most one output port.
pub proof fn lemma_single_producer<N: NodeSet>(g: Graph<N>, i: InputPort)
    ensures
        forall|o1: OutputPort, o2: OutputPort|
            g.connects(o1, i) && g.connects(o2, i) ==> o1 == o2,
{
}

} // verus!
