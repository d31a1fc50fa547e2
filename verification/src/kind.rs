//! Node kind behavior: the host-supplied vocabulary of node computations,
//! and the label-to-value mapping a computation receives.

use vstd::prelude::*;

use crate::value::Value;

verus! {

/// The mathematical content of an [`Inputs`] mapping: entries inserted in
/// order, so a later entry with the same label overrides an earlier one.
pub open spec fn map_of(entries: Seq<(String, Value)>) -> Map<Seq<char>, Value>
    decreases entries.len(),
{
    if entries.len() == 0 {
        Map::empty()
    } else {
        map_of(entries.drop_last()).insert(entries.last().0@, entries.last().1)
    }
}

/// Reading a mapping at a label: the bound value, or `Empty` when the
/// label is absent.  Absence is the consuming kind's concern (it may
/// treat the sentinel as zero, fail, or propagate it).
pub open spec fn lookup(m: Map<Seq<char>, Value>, label: Seq<char>) -> Value {
    if m.dom().contains(label) {
        m[label]
    } else {
        Value::Empty
    }
}

/// The label-to-value mapping assembled by the resolver and handed to a
/// node kind's computation: one entry per declared input port.
pub struct Inputs {
    pub entries: Vec<(String, Value)>,
}

impl View for Inputs {
    type V = Map<Seq<char>, Value>;

    open spec fn view(&self) -> Map<Seq<char>, Value> {
        map_of(self.entries@)
    }
}

/// Skipping entries whose label differs from `label` does not change what
/// the mapping holds at `label`.
proof fn lemma_map_of_skip(entries: Seq<(String, Value)>, label: Seq<char>, i: int)
    requires
        0 <= i <= entries.len(),
        forall|j: int| i <= j < entries.len() ==> entries[j].0@ != label,
    ensures
        lookup(map_of(entries), label) == lookup(map_of(entries.take(i)), label),
        map_of(entries).dom().contains(label) == map_of(entries.take(i)).dom().contains(label),
    decreases entries.len() - i,
{
    if i == entries.len() {
        assert(entries.take(i) =~= entries);
    } else {
        let shorter = entries.drop_last();
        assert(entries.take(entries.len() - 1) =~= shorter);
        lemma_map_of_skip(shorter, label, i);
        assert(shorter.take(i) =~= entries.take(i));
    }
}

impl Inputs {
    /// An empty mapping.
    pub fn new() -> (r: Inputs)
        ensures
            r@ =~= Map::<Seq<char>, Value>::empty(),
    {
        Inputs { entries: Vec::new() }
    }

    /// Binds `label` to `value`, overriding any earlier binding.
    pub fn push(&mut self, label: String, value: Value)
        ensures
            final(self)@ == old(self)@.insert(label@, value),
    {
        self.entries.push((label, value));
        proof {
            assert(self.entries@.drop_last() =~= old(self).entries@);
        }
    }

    /// Reads the value bound to `label`; `Empty` when unbound.
    pub fn get(&self, label: &String) -> (r: Value)
        ensures
            r == lookup(self@, label@),
    {
        let n = self.entries.len();
        let mut i = n;
        while i > 0
            invariant
                i <= n,
                n == self.entries@.len(),
                forall|j: int| i <= j < n ==> self.entries@[j].0@ != label@,
            decreases i,
        {
            i = i - 1;
            if self.entries[i].0.eq(label) {
                proof {
                    lemma_map_of_skip(self.entries@, label@, i + 1);
                    let prefix = self.entries@.take(i + 1);
                    assert(prefix.drop_last() =~= self.entries@.take(i as int));
                    assert(prefix.last() == self.entries@[i as int]);
                }
                return self.entries[i].1;
            }
        }
        proof {
            lemma_map_of_skip(self.entries@, label@, 0);
            assert(self.entries@.take(0) =~= Seq::<(String, Value)>::empty());
        }
        Value::Empty
    }
}

/// A closed set of node kinds: each kind is a pure function from the
/// mapping of its resolved inputs to its output value.
///
/// A kind with no output (a sink) returns the `Empty` sentinel; any
/// externally visible effect of a sink is the host's business and happens
/// outside this trait.
pub trait NodeSet: Sized {
    /// The mathematical model of this kind's computation.
    spec fn eval_spec(&self, inputs: Map<Seq<char>, Value>) -> Value;

    /// Computes the output value for one resolution of a node of this
    /// kind.  Must agree with the model: this is what makes resolution a
    /// pure function of the graph.
    fn eval(&self, inputs: &Inputs) -> (v: Value)
        ensures
            v == self.eval_spec(inputs@),
    ;
}

/// A small arithmetic node vocabulary: a constant source, an adder and a
/// print-style sink.
#[derive(Clone, Copy, PartialEq, Eq, Structural, Debug)]
pub enum MathNodes {
    /// Emits its constant.
    Value(i64),
    /// Emits the wrapping sum of inputs `a` and `b`; an `Empty` input
    /// counts as zero.
    Add,
    /// A sink: consumes input `value`, emits nothing.
    Print,
}

impl NodeSet for MathNodes {
    open spec fn eval_spec(&self, inputs: Map<Seq<char>, Value>) -> Value {
        match *self {
            MathNodes::Value(n) => Value::Number(n),
            MathNodes::Add => Value::Number(
                lookup(inputs, "a"@).spec_number_or(0).wrapping_add(
                    lookup(inputs, "b"@).spec_number_or(0),
                ),
            ),
            MathNodes::Print => Value::Empty,
        }
    }

    fn eval(&self, inputs: &Inputs) -> (v: Value)
        ensures
            v == self.eval_spec(inputs@),
    {
        match *self {
            MathNodes::Value(n) => Value::Number(n),
            MathNodes::Add => {
                let a = inputs.get(&"a".to_owned()).number_or(0);
                let b = inputs.get(&"b".to_owned()).number_or(0);
                Value::Number(a.wrapping_add(b))
            },
            MathNodes::Print => Value::Empty,
        }
    }
}

} // verus!
