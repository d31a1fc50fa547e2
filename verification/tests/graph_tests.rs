use node_graph::ConnectionError;
use node_graph::Graph;
use node_graph::GraphEvent;
use node_graph::InputPort;
use node_graph::MathNodes;
use node_graph::NodePlugins;
use node_graph::OutputPort;
use node_graph::PortDescriptor;
use node_graph::Value;

fn port(label: &str, default: Value) -> PortDescriptor {
    PortDescriptor { label: label.to_string(), default }
}

fn constant(g: &mut Graph<MathNodes>, n: i64) -> usize {
    g.add_node(MathNodes::Value(n), Vec::new(), Some("value".to_string()))
}

fn adder(g: &mut Graph<MathNodes>) -> usize {
    g.add_node(
        MathNodes::Add,
        vec![port("a", Value::Number(0)), port("b", Value::Number(0))],
        Some("result".to_string()),
    )
}

fn printer(g: &mut Graph<MathNodes>) -> usize {
    g.add_node(MathNodes::Print, vec![port("value", Value::Empty)], None)
}

#[test]
fn build_yields_empty_graph() {
    let g: Graph<MathNodes> = NodePlugins::new().build();
    assert_eq!(g.nodes.len(), 0);
    assert_eq!(g.events.len(), 0);
}

#[test]
fn add_node_returns_stable_handles() {
    let mut g: Graph<MathNodes> = Graph::new();
    let a = constant(&mut g, 1);
    let b = constant(&mut g, 2);
    assert_eq!(a, 0);
    assert_eq!(b, 1);
    assert_eq!(g.nodes.len(), 2);
}

#[test]
fn connect_self_loop_is_incompatible() {
    let mut g: Graph<MathNodes> = Graph::new();
    let add = adder(&mut g);
    let r = g.connect(
        OutputPort { node: add },
        InputPort { node: add, slot: 0 },
    );
    assert_eq!(r, Err(ConnectionError::IncompatibleEndpoint));
    assert_eq!(g.producer_of(InputPort { node: add, slot: 0 }), None);
}

#[test]
fn reconnect_self_loop_is_incompatible() {
    let mut g: Graph<MathNodes> = Graph::new();
    let add = adder(&mut g);
    let r = g.reconnect(
        OutputPort { node: add },
        InputPort { node: add, slot: 1 },
    );
    assert_eq!(r, Err(ConnectionError::IncompatibleEndpoint));
}

#[test]
fn connect_occupied_input_is_refused() {
    let mut g: Graph<MathNodes> = Graph::new();
    let v1 = constant(&mut g, 5);
    let v2 = constant(&mut g, 7);
    let add = adder(&mut g);
    let input = InputPort { node: add, slot: 0 };
    assert_eq!(g.connect(OutputPort { node: v1 }, input), Ok(()));
    assert_eq!(
        g.connect(OutputPort { node: v2 }, input),
        Err(ConnectionError::AlreadyConnected)
    );
    // The first producer is still in place: at most one producer ever.
    assert_eq!(g.producer_of(input), Some(OutputPort { node: v1 }));
}

#[test]
fn reconnect_replaces_the_producer() {
    let mut g: Graph<MathNodes> = Graph::new();
    let v1 = constant(&mut g, 5);
    let v2 = constant(&mut g, 7);
    let add = adder(&mut g);
    let input = InputPort { node: add, slot: 0 };
    assert_eq!(g.connect(OutputPort { node: v1 }, input), Ok(()));
    assert_eq!(g.reconnect(OutputPort { node: v2 }, input), Ok(()));
    assert_eq!(g.producer_of(input), Some(OutputPort { node: v2 }));
}

#[test]
fn single_producer_after_call_sequences() {
    let mut g: Graph<MathNodes> = Graph::new();
    let v1 = constant(&mut g, 1);
    let v2 = constant(&mut g, 2);
    let add = adder(&mut g);
    let input = InputPort { node: add, slot: 1 };
    let _ = g.connect(OutputPort { node: v1 }, input);
    let _ = g.connect(OutputPort { node: v2 }, input);
    let _ = g.reconnect(OutputPort { node: v2 }, input);
    g.disconnect(input);
    let _ = g.connect(OutputPort { node: v1 }, input);
    assert_eq!(g.producer_of(input), Some(OutputPort { node: v1 }));
}

#[test]
fn disconnect_clears_and_is_idempotent() {
    let mut g: Graph<MathNodes> = Graph::new();
    let v = constant(&mut g, 3);
    let add = adder(&mut g);
    let input = InputPort { node: add, slot: 0 };
    let _ = g.connect(OutputPort { node: v }, input);
    g.disconnect(input);
    assert_eq!(g.producer_of(input), None);
    g.disconnect(input);
    assert_eq!(g.producer_of(input), None);
}

#[test]
fn remove_node_cascades_over_connections() {
    let mut g: Graph<MathNodes> = Graph::new();
    let v = constant(&mut g, 4);
    let add1 = adder(&mut g);
    let add2 = adder(&mut g);
    // v feeds both adders; add1 feeds add2's second input.
    let _ = g.connect(OutputPort { node: v }, InputPort { node: add1, slot: 0 });
    let _ = g.connect(OutputPort { node: v }, InputPort { node: add2, slot: 0 });
    let _ = g.connect(OutputPort { node: add1 }, InputPort { node: add2, slot: 1 });
    g.remove_node(v);
    // No connection references any of v's ports afterwards.
    assert_eq!(g.producer_of(InputPort { node: add1, slot: 0 }), None);
    assert_eq!(g.producer_of(InputPort { node: add2, slot: 0 }), None);
    // Unrelated connections survive.
    assert_eq!(
        g.producer_of(InputPort { node: add2, slot: 1 }),
        Some(OutputPort { node: add1 })
    );
}

#[test]
fn events_report_graph_changes() {
    let mut g: Graph<MathNodes> = Graph::new();
    let v = constant(&mut g, 9);
    let add = adder(&mut g);
    let input = InputPort { node: add, slot: 0 };
    let _ = g.connect(OutputPort { node: v }, input);
    g.disconnect(input);
    g.remove_node(v);
    let events = g.take_events();
    assert_eq!(
        events,
        vec![
            GraphEvent::NodeAdded { node: v },
            GraphEvent::NodeAdded { node: add },
            GraphEvent::ConnectionAdded { output: OutputPort { node: v }, input },
            GraphEvent::ConnectionRemoved { output: OutputPort { node: v }, input },
            GraphEvent::NodeRemoved { node: v },
        ]
    );
    assert_eq!(g.take_events(), Vec::new());
}

#[test]
fn consumers_report_full_fan_out() {
    let mut g: Graph<MathNodes> = Graph::new();
    let v = constant(&mut g, 2);
    let add1 = adder(&mut g);
    let add2 = adder(&mut g);
    let _ = g.connect(OutputPort { node: v }, InputPort { node: add1, slot: 0 });
    let _ = g.connect(OutputPort { node: v }, InputPort { node: add2, slot: 1 });
    let consumers = g.consumers_of(OutputPort { node: v });
    assert_eq!(
        consumers,
        vec![
            InputPort { node: add1, slot: 0 },
            InputPort { node: add2, slot: 1 },
        ]
    );
    assert_eq!(g.consumers_of(OutputPort { node: add1 }), Vec::new());
}

#[test]
fn failed_connect_emits_no_event() {
    let mut g: Graph<MathNodes> = Graph::new();
    let add = adder(&mut g);
    let _ = g.take_events();
    let _ = g.connect(
        OutputPort { node: add },
        InputPort { node: add, slot: 0 },
    );
    assert_eq!(g.take_events(), Vec::new());
    let _ = printer(&mut g);
}
