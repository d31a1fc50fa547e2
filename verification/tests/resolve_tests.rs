use node_graph::Graph;
use node_graph::InputPort;
use node_graph::MathNodes;
use node_graph::OutputPort;
use node_graph::PortDescriptor;
use node_graph::Value;

fn port(label: &str, default: Value) -> PortDescriptor {
    PortDescriptor { label: label.to_string(), default }
}

fn constant(g: &mut Graph<MathNodes>, n: i64) -> usize {
    g.add_node(MathNodes::Value(n), Vec::new(), Some("value".to_string()))
}

fn adder(g: &mut Graph<MathNodes>) -> usize {
    g.add_node(
        MathNodes::Add,
        vec![port("a", Value::Number(0)), port("b", Value::Number(0))],
        Some("result".to_string()),
    )
}

fn printer(g: &mut Graph<MathNodes>) -> usize {
    g.add_node(MathNodes::Print, vec![port("value", Value::Empty)], None)
}

#[test]
fn end_to_end_arithmetic_scenario() {
    let mut g: Graph<MathNodes> = Graph::new();
    let v1 = constant(&mut g, 5);
    let v2 = constant(&mut g, 7);
    let add = adder(&mut g);
    let print = printer(&mut g);

    assert_eq!(
        g.connect(OutputPort { node: v1 }, InputPort { node: add, slot: 0 }),
        Ok(())
    );
    assert_eq!(
        g.connect(OutputPort { node: v2 }, InputPort { node: add, slot: 1 }),
        Ok(())
    );
    assert_eq!(
        g.connect(OutputPort { node: add }, InputPort { node: print, slot: 0 }),
        Ok(())
    );

    let (value, cycle) = g.resolve(add);
    assert_eq!(value, Value::Number(12));
    assert!(!cycle);

    // The sink consumes Number(12) and exposes the "no value" sentinel.
    let (sink_value, sink_cycle) = g.resolve(print);
    assert_eq!(sink_value, Value::Empty);
    assert!(!sink_cycle);

    // Disconnecting v1 leaves add's first input on its default of 0.
    g.disconnect(InputPort { node: add, slot: 0 });
    let (value, cycle) = g.resolve(add);
    assert_eq!(value, Value::Number(7));
    assert!(!cycle);
}

#[test]
fn constant_resolves_to_its_literal() {
    let mut g: Graph<MathNodes> = Graph::new();
    let v = constant(&mut g, 42);
    assert_eq!(g.resolve(v), (Value::Number(42), false));
}

#[test]
fn unconnected_inputs_use_defaults() {
    let mut g: Graph<MathNodes> = Graph::new();
    let add = g.add_node(
        MathNodes::Add,
        vec![port("a", Value::Number(30)), port("b", Value::Number(4))],
        Some("result".to_string()),
    );
    assert_eq!(g.resolve(add), (Value::Number(34), false));
}

#[test]
fn default_matches_constant_producer() {
    // A node whose input has no producer resolves as if that input
    // were fed by a constant node emitting the declared default.
    let mut unconnected: Graph<MathNodes> = Graph::new();
    let bare = unconnected.add_node(
        MathNodes::Add,
        vec![port("a", Value::Number(25)), port("b", Value::Number(0))],
        Some("result".to_string()),
    );

    let mut substituted: Graph<MathNodes> = Graph::new();
    let fed = substituted.add_node(
        MathNodes::Add,
        vec![port("a", Value::Number(25)), port("b", Value::Number(0))],
        Some("result".to_string()),
    );
    let c = constant(&mut substituted, 25);
    assert_eq!(
        substituted.connect(OutputPort { node: c }, InputPort { node: fed, slot: 0 }),
        Ok(())
    );

    assert_eq!(unconnected.resolve(bare), substituted.resolve(fed));
    assert_eq!(substituted.resolve(fed).0, Value::Number(25));
}

#[test]
fn two_node_cycle_terminates() {
    let mut g: Graph<MathNodes> = Graph::new();
    let a = adder(&mut g);
    let b = adder(&mut g);
    assert_eq!(
        g.connect(OutputPort { node: a }, InputPort { node: b, slot: 0 }),
        Ok(())
    );
    assert_eq!(
        g.connect(OutputPort { node: b }, InputPort { node: a, slot: 0 }),
        Ok(())
    );
    // The offending input contributes the "no value" sentinel, which
    // the adder counts as zero; the condition is reported.
    let (value, cycle) = g.resolve(a);
    assert_eq!(value, Value::Number(0));
    assert!(cycle);
    let (value, cycle) = g.resolve(b);
    assert_eq!(value, Value::Number(0));
    assert!(cycle);
}

#[test]
fn cycle_upstream_is_reported_at_the_querying_node() {
    let mut g: Graph<MathNodes> = Graph::new();
    let a = adder(&mut g);
    let b = adder(&mut g);
    let downstream = adder(&mut g);
    let v = constant(&mut g, 3);
    let _ = g.connect(OutputPort { node: a }, InputPort { node: b, slot: 0 });
    let _ = g.connect(OutputPort { node: b }, InputPort { node: a, slot: 0 });
    let _ = g.connect(OutputPort { node: b }, InputPort { node: downstream, slot: 0 });
    let _ = g.connect(OutputPort { node: v }, InputPort { node: downstream, slot: 1 });
    let (value, cycle) = g.resolve(downstream);
    assert_eq!(value, Value::Number(3));
    assert!(cycle);
}

#[test]
fn resolve_is_deterministic_on_unmodified_graph() {
    let mut g: Graph<MathNodes> = Graph::new();
    let v1 = constant(&mut g, 11);
    let v2 = constant(&mut g, -4);
    let add = adder(&mut g);
    let _ = g.connect(OutputPort { node: v1 }, InputPort { node: add, slot: 0 });
    let _ = g.connect(OutputPort { node: v2 }, InputPort { node: add, slot: 1 });
    let first = g.resolve(add);
    let second = g.resolve(add);
    assert_eq!(first, second);
    assert_eq!(first, (Value::Number(7), false));
}

#[test]
fn resolve_output_matches_resolve() {
    let mut g: Graph<MathNodes> = Graph::new();
    let v = constant(&mut g, 6);
    assert_eq!(g.resolve_output(OutputPort { node: v }), g.resolve(v));
}

#[test]
fn addition_wraps_at_the_numeric_limit() {
    let mut g: Graph<MathNodes> = Graph::new();
    let v1 = constant(&mut g, i64::MAX);
    let v2 = constant(&mut g, 1);
    let add = adder(&mut g);
    let _ = g.connect(OutputPort { node: v1 }, InputPort { node: add, slot: 0 });
    let _ = g.connect(OutputPort { node: v2 }, InputPort { node: add, slot: 1 });
    assert_eq!(g.resolve(add), (Value::Number(i64::MIN), false));
}

#[test]
fn fan_out_feeds_many_consumers() {
    let mut g: Graph<MathNodes> = Graph::new();
    let v = constant(&mut g, 8);
    let add1 = adder(&mut g);
    let add2 = adder(&mut g);
    let _ = g.connect(OutputPort { node: v }, InputPort { node: add1, slot: 0 });
    let _ = g.connect(OutputPort { node: v }, InputPort { node: add1, slot: 1 });
    let _ = g.connect(OutputPort { node: v }, InputPort { node: add2, slot: 0 });
    assert_eq!(g.resolve(add1), (Value::Number(16), false));
    assert_eq!(g.resolve(add2), (Value::Number(8), false));
}

#[test]
fn removing_a_producer_restores_defaults() {
    let mut g: Graph<MathNodes> = Graph::new();
    let v = constant(&mut g, 50);
    let add = adder(&mut g);
    let _ = g.connect(OutputPort { node: v }, InputPort { node: add, slot: 0 });
    assert_eq!(g.resolve(add), (Value::Number(50), false));
    g.remove_node(v);
    assert_eq!(g.resolve(add), (Value::Number(0), false));
}
