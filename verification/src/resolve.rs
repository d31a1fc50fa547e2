//! The resolver: lazy, depth-first, cycle-safe evaluation of a node's
//! output.
//!
//! `resolve_spec` is the mathematical model: a pure function of the
//! graph alone, so two resolutions of an unmodified graph are equal by
//! construction.  Its `decreases` measure — the number of nodes not yet
//! on the active path — is the termination argument: resolution ends on
//! every graph, cyclic ones included.  A connection that would re-enter
//! a node already being resolved contributes the "no value" sentinel to
//! its consumer instead of recursing, and the condition is reported to
//! the caller alongside the value.

use vstd::prelude::*;
use vstd::set_lib::lemma_int_range;
use vstd::set_lib::lemma_len_subset;
use vstd::set_lib::lemma_set_subset_finite;
use vstd::set_lib::set_int_range;

use crate::graph::Graph;
use crate::graph::InputPort;
use crate::kind::Inputs;
use crate::kind::NodeSet;
use crate::value::Value;

verus! {

broadcast use vstd::set::group_set_axioms;

/// The set of node handles marked as being on the active resolution
/// path.
pub open spec fn visiting_set(flags: Seq<bool>) -> Set<int> {
    Set::new(|i: int| 0 <= i < flags.len() && flags[i])
}

impl<N: NodeSet> Graph<N> {
    /// A visiting set the resolver can be in: finitely many handles,
    /// all of them in the arena.
    pub open spec fn visiting_ok(self, visiting: Set<int>) -> bool {
        &&& visiting.finite()
        &&& visiting.subset_of(set_int_range(0, self.nodes@.len() as int))
    }

    /// The model of resolving node `n` while the nodes in `visiting`
    /// are already on the active path: the value exposed at `n`'s
    /// output, and whether a cycle was hit anywhere upstream.
    pub open spec fn resolve_spec(self, n: int, visiting: Set<int>) -> (Value, bool)
        decreases
                self.nodes@.len() - visiting.len(),
                self.nodes@[n].inputs@.len() + 1,
                0int,
        when self.visiting_ok(visiting) && 0 <= n < self.nodes@.len() && !visiting.contains(n)
        via Self::resolve_spec_decreases
    {
        let (inputs, cycle) = self.inputs_spec(n, visiting, self.nodes@[n].inputs@.len() as int);
        (self.nodes@[n].kind.eval_spec(inputs), cycle)
    }

    /// The model of resolving the first `s` input slots of node `n`:
    /// the label-to-value mapping assembled so far, and whether a cycle
    /// was hit.  One slot resolves to its producer's output; to its
    /// declared default when it has no producer; and to the "no value"
    /// sentinel when following the producer would re-enter a node on
    /// the active path.
    pub open spec fn inputs_spec(self, n: int, visiting: Set<int>, s: int) -> (
        Map<Seq<char>, Value>,
        bool,
    )
        decreases self.nodes@.len() - visiting.len(), s, 1int,
        when self.visiting_ok(visiting) && 0 <= n < self.nodes@.len() && !visiting.contains(n) && 0
            <= s <= self.nodes@[n].inputs@.len()
        via Self::inputs_spec_decreases
    {
        if s <= 0 {
            (Map::empty(), false)
        } else {
            let (so_far, cycle0) = self.inputs_spec(n, visiting, s - 1);
            let slot = self.nodes@[n].inputs@[s - 1];
            let (value, cycle1) = match slot.producer {
                None => (slot.descriptor.default, false),
                Some(p) => {
                    if visiting.insert(n).contains(p as int) {
                        (Value::Empty, true)
                    } else if p >= self.nodes@.len() {
                        (Value::Empty, false)
                    } else {
                        self.resolve_spec(p as int, visiting.insert(n))
                    }
                },
            };
            (so_far.insert(slot.descriptor.label@, value), cycle0 || cycle1)
        }
    }

    #[via_fn]
    proof fn resolve_spec_decreases(self, n: int, visiting: Set<int>) {
        self.lemma_visiting_bound(visiting);
    }

    #[via_fn]
    proof fn inputs_spec_decreases(self, n: int, visiting: Set<int>, s: int) {
        self.lemma_visiting_bound(visiting);
        if !visiting.contains(n) {
            self.lemma_visiting_bound(visiting.insert(n));
        }
    }

    /// The flag vector denotes a finite set of in-range handles.
    proof fn lemma_visiting_set_ok(self, flags: Seq<bool>)
        requires
            flags.len() == self.nodes@.len(),
        ensures
            self.visiting_ok(visiting_set(flags)),
    {
        lemma_int_range(0, flags.len() as int);
        assert(visiting_set(flags).subset_of(set_int_range(0, flags.len() as int)));
        lemma_set_subset_finite(set_int_range(0, flags.len() as int), visiting_set(flags));
    }

    /// A visiting set never holds more handles than the arena.
    proof fn lemma_visiting_bound(self, visiting: Set<int>)
        ensures
            self.visiting_ok(visiting) ==> visiting.len() <= self.nodes@.len(),
            self.visiting_ok(visiting) && visiting.subset_of(
                set_int_range(0, self.nodes@.len() as int),
            ) ==> visiting.len() <= self.nodes@.len(),
    {
        if self.visiting_ok(visiting) {
            lemma_int_range(0, self.nodes@.len() as int);
            lemma_len_subset(visiting, set_int_range(0, self.nodes@.len() as int));
        }
    }

    /// Resolves node `n`: computes the value currently exposed at its
    /// output (the "no value" sentinel for a sink) by resolving all of
    /// its inputs first, depth-first and upstream.  Returns the value
    /// and whether a cycle was detected; the result is the model's, so
    /// it depends on the graph alone — resolution consults no other
    /// state and caches nothing between calls.
    pub fn resolve(&self, n: usize) -> (r: (Value, bool))
        requires
            self.wf(),
            self.valid_node(n as int),
        ensures
            r == self.resolve_spec(n as int, Set::<int>::empty()),
    {
        let len = self.nodes.len();
        let mut visiting: Vec<bool> = Vec::new();
        while visiting.len() < len
            invariant
                visiting@.len() <= len,
                forall|j: int| 0 <= j < visiting@.len() ==> !visiting@[j],
            decreases len - visiting@.len(),
        {
            visiting.push(false);
        }
        proof {
            assert(visiting_set(visiting@) =~= Set::<int>::empty());
        }
        let (value, cycle) = self.resolve_at(n, &mut visiting, Ghost(Set::<int>::empty()));
        (value, cycle)
    }

    /// Resolves a specific output port: with at most one output per
    /// node, this is resolving the port's owner.
    pub fn resolve_output(&self, o: crate::graph::OutputPort) -> (r: (Value, bool))
        requires
            self.wf(),
            self.valid_output(o),
        ensures
            r == self.resolve_spec(o.node as int, Set::<int>::empty()),
    {
        self.resolve(o.node)
    }

    /// One step of the depth-first walk: resolves node `n` with the
    /// nodes flagged in `visiting` on the active path.  The flags are
    /// scoped to the walk: set on entry, cleared on return.
    fn resolve_at(&self, n: usize, visiting: &mut Vec<bool>, Ghost(vis): Ghost<Set<int>>) -> (r: (
        Value,
        bool,
    ))
        requires
            self.wf(),
            n < self.nodes@.len(),
            old(visiting)@.len() == self.nodes@.len(),
            vis == visiting_set(old(visiting)@),
            !vis.contains(n as int),
        ensures
            final(visiting)@ == old(visiting)@,
            r == self.resolve_spec(n as int, vis),
        decreases self.nodes@.len() - vis.len(),
    {
        proof {
            self.lemma_visiting_set_ok(old(visiting)@);
        }
        let ghost entry_flags = visiting@;
        visiting.set(n, true);
        proof {
            assert(visiting_set(visiting@) =~= vis.insert(n as int));
        }
        let slot_count = self.nodes[n].inputs.len();
        let mut assembled = Inputs::new();
        let mut cycle = false;
        let mut s: usize = 0;
        proof {
            assert(assembled@ =~= self.inputs_spec(n as int, vis, 0).0);
        }
        while s < slot_count
            invariant
                self.wf(),
                n < self.nodes@.len(),
                slot_count == self.nodes@[n as int].inputs@.len(),
                s <= slot_count,
                visiting@.len() == self.nodes@.len(),
                visiting@ == entry_flags.update(n as int, true),
                entry_flags.len() == self.nodes@.len(),
                vis == visiting_set(entry_flags),
                self.visiting_ok(vis),
                !vis.contains(n as int),
                assembled@ == self.inputs_spec(n as int, vis, s as int).0,
                cycle == self.inputs_spec(n as int, vis, s as int).1,
            decreases slot_count - s,
        {
            proof {
                assert(self.producer_ok(n as int, s as int));
                assert(visiting_set(visiting@) =~= vis.insert(n as int));
            }
            let slot_producer = self.nodes[n].inputs[s].producer;
            let (value, hit) = match slot_producer {
                None => (self.nodes[n].inputs[s].descriptor.default, false),
                Some(p) => {
                    if visiting[p] {
                        (Value::Empty, true)
                    } else {
                        proof {
                            self.lemma_visiting_bound(vis);
                            self.lemma_visiting_bound(vis.insert(n as int));
                            assert(vis.insert(n as int).len() == vis.len() + 1);
                        }
                        let sub = self.resolve_at(p, visiting, Ghost(vis.insert(n as int)));
                        proof {
                            assert(visiting@ == entry_flags.update(n as int, true));
                        }
                        sub
                    }
                },
            };
            let label = self.nodes[n].inputs[s].descriptor.label.clone();
            assembled.push(label, value);
            cycle = cycle || hit;
            proof {
                let t = s as int;
                let slot = self.nodes@[n as int].inputs@[t];
                let prev = self.inputs_spec(n as int, vis, t);
                let next = self.inputs_spec(n as int, vis, t + 1);
                match slot.producer {
                    None => {
                        assert(value == slot.descriptor.default);
                        assert(!hit);
                    },
                    Some(p) => {
                        if vis.insert(n as int).contains(p as int) {
                            assert(value == Value::Empty);
                            assert(hit);
                        } else {
                            assert((value, hit) == self.resolve_spec(
                                p as int,
                                vis.insert(n as int),
                            ));
                        }
                    },
                }
                assert(next.0 == prev.0.insert(slot.descriptor.label@, value));
                assert(next.1 == (prev.1 || hit));
            }
            s = s + 1;
        }
        visiting.set(n, false);
        proof {
            assert(visiting@ =~= entry_flags);
        }
        let value = self.nodes[n].kind.eval(&assembled);
        (value, cycle)
    }
}

/// `augmented` is `base` extended with one fresh constant node `c`
/// (no inputs, an output, emitting the declared default of input `i`
/// whatever its input mapping — it has none), connected to input `i`,
/// which in `base` has no producer.  Nothing else differs.
pub open spec fn default_substituted<N: NodeSet>(
    base: Graph<N>,
    augmented: Graph<N>,
    i: InputPort,
) -> bool {
    let c = base.nodes@.len() as int;
    let node = i.node as int;
    let slot = i.slot as int;
    &&& base.valid_input(i)
    &&& base.spec_producer(i) is None
    &&& augmented.nodes@.len() == base.nodes@.len() + 1
    &&& augmented.nodes@[c].alive
    &&& augmented.nodes@[c].output is Some
    &&& augmented.nodes@[c].inputs@.len() == 0
    &&& augmented.nodes@[c].kind.eval_spec(Map::empty())
        == base.nodes@[node].inputs@[slot].descriptor.default
    &&& forall|k: int|
        0 <= k < base.nodes@.len() && k != node ==> augmented.nodes@[k] == base.nodes@[k]
    &&& augmented.nodes@[node].kind == base.nodes@[node].kind
    &&& augmented.nodes@[node].output == base.nodes@[node].output
    &&& augmented.nodes@[node].alive == base.nodes@[node].alive
    &&& augmented.nodes@[node].inputs@.len() == base.nodes@[node].inputs@.len()
    &&& forall|s: int|
        0 <= s < base.nodes@[node].inputs@.len() && s != slot
            ==> augmented.nodes@[node].inputs@[s] == base.nodes@[node].inputs@[s]
    &&& augmented.nodes@[node].inputs@[slot].descriptor
        == base.nodes@[node].inputs@[slot].descriptor
    &&& augmented.nodes@[node].inputs@[slot].producer == Some(base.nodes@.len() as usize)
}

/// Frame step of the default-substitution law: node by node, the two
/// graphs resolve identically.
proof fn lemma_resolve_frame<N: NodeSet>(
    base: Graph<N>,
    augmented: Graph<N>,
    i: InputPort,
    m: int,
    visiting: Set<int>,
)
    requires
        base.wf(),
        default_substituted(base, augmented, i),
        base.visiting_ok(visiting),
        0 <= m < base.nodes@.len(),
        !visiting.contains(m),
    ensures
        augmented.resolve_spec(m, visiting) == base.resolve_spec(m, visiting),
    decreases base.nodes@.len() - visiting.len(), base.nodes@[m].inputs@.len() + 1, 0int,
{
    base.lemma_visiting_bound(visiting);
    lemma_visiting_extends(base, augmented, visiting);
    lemma_inputs_frame(base, augmented, i, m, visiting, base.nodes@[m].inputs@.len() as int);
    assert(augmented.nodes@[m].kind == base.nodes@[m].kind);
    assert(augmented.nodes@[m].inputs@.len() == base.nodes@[m].inputs@.len());
}

/// Frame step for the assembled input mappings.
proof fn lemma_inputs_frame<N: NodeSet>(
    base: Graph<N>,
    augmented: Graph<N>,
    i: InputPort,
    m: int,
    visiting: Set<int>,
    s: int,
)
    requires
        base.wf(),
        default_substituted(base, augmented, i),
        base.visiting_ok(visiting),
        0 <= m < base.nodes@.len(),
        !visiting.contains(m),
        0 <= s <= base.nodes@[m].inputs@.len(),
    ensures
        augmented.inputs_spec(m, visiting, s) == base.inputs_spec(m, visiting, s),
    decreases base.nodes@.len() - visiting.len(), s, 1int,
{
    base.lemma_visiting_bound(visiting);
    lemma_visiting_extends(base, augmented, visiting);
    vstd::std_specs::vec::axiom_spec_len(&base.nodes);
    vstd::std_specs::vec::axiom_spec_len(&augmented.nodes);
    assert(augmented.nodes@[m].inputs@.len() == base.nodes@[m].inputs@.len());
    if s > 0 {
        lemma_inputs_frame(base, augmented, i, m, visiting, s - 1);
        let slot1 = base.nodes@[m].inputs@[s - 1];
        let slot2 = augmented.nodes@[m].inputs@[s - 1];
        let grown = visiting.insert(m);
        assert(base.visiting_ok(grown));
        base.lemma_visiting_bound(grown);
        if m == i.node && s - 1 == i.slot {
            let c = base.nodes@.len() as int;
            assert(slot1.producer is None);
            assert(slot2.producer == Some(base.nodes@.len() as usize));
            assert(!grown.contains(c));
            assert(augmented.visiting_ok(grown)) by {
                lemma_visiting_extends(base, augmented, grown);
            }
            assert(augmented.inputs_spec(c, grown, 0) == (Map::<Seq<char>, Value>::empty(), false));
            assert(augmented.resolve_spec(c, grown) == (slot1.descriptor.default, false));
            assert(slot2.descriptor == slot1.descriptor);
        } else {
            assert(slot2 == slot1);
            match slot1.producer {
                None => {},
                Some(p) => {
                    assert(base.producer_ok(m, s - 1));
                    if !grown.contains(p as int) {
                        lemma_resolve_frame(base, augmented, i, p as int, grown);
                    }
                },
            }
            assert(augmented.inputs_spec(m, visiting, s) == base.inputs_spec(m, visiting, s));
        }
    } else {
        assert(base.inputs_spec(m, visiting, 0) == (Map::<Seq<char>, Value>::empty(), false));
        assert(augmented.inputs_spec(m, visiting, 0) == (Map::<Seq<char>, Value>::empty(), false));
    }
}

/// A visiting set of the smaller arena fits the larger one.
proof fn lemma_visiting_extends<N: NodeSet>(base: Graph<N>, augmented: Graph<N>, visiting: Set<
    int,
>)
    requires
        augmented.nodes@.len() >= base.nodes@.len(),
        base.visiting_ok(visiting),
    ensures
        augmented.visiting_ok(visiting),
{
    assert(visiting.subset_of(set_int_range(0, augmented.nodes@.len() as int)));
}

/// Default-substitution law: resolving a node one of whose inputs has
/// no producer yields the same outcome as resolving it in the graph
/// where that input is instead fed by a fresh constant node emitting
/// the input's declared default.
pub proof fn lemma_default_substitution<N: NodeSet>(base: Graph<N>, augmented: Graph<N>, i:
    InputPort)
    requires
        base.wf(),
        default_substituted(base, augmented, i),
    ensures
        augmented.resolve_spec(i.node as int, Set::<int>::empty()) == base.resolve_spec(
            i.node as int,
            Set::<int>::empty(),
        ),
{
    assert(base.visiting_ok(Set::<int>::empty())) by {
        assert(Set::<int>::empty().subset_of(set_int_range(0, base.nodes@.len() as int)));
    }
    lemma_resolve_frame(base, augmented, i, i.node as int, Set::<int>::empty());
}

} // verus!
