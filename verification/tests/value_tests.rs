use node_graph::Inputs;
use node_graph::Value;
use node_graph::ValueError;

#[test]
fn number_conversion_succeeds_on_matching_tag() {
    assert_eq!(Value::Number(17).as_number(), Ok(17));
}

#[test]
fn number_conversion_signals_mismatch_on_empty() {
    assert_eq!(Value::Empty.as_number(), Err(ValueError::TypeMismatch));
}

#[test]
fn number_or_substitutes_only_for_empty() {
    assert_eq!(Value::Number(-2).number_or(9), -2);
    assert_eq!(Value::Empty.number_or(9), 9);
}

#[test]
fn no_value_detection() {
    assert!(Value::Empty.is_no_value());
    assert!(!Value::Number(0).is_no_value());
}

#[test]
fn inputs_mapping_reads_latest_binding() {
    let mut inputs = Inputs::new();
    inputs.push("a".to_string(), Value::Number(1));
    inputs.push("b".to_string(), Value::Number(2));
    inputs.push("a".to_string(), Value::Number(3));
    assert_eq!(inputs.get(&"a".to_string()), Value::Number(3));
    assert_eq!(inputs.get(&"b".to_string()), Value::Number(2));
}

#[test]
fn inputs_mapping_reads_absent_label_as_empty() {
    let inputs = Inputs::new();
    assert_eq!(inputs.get(&"missing".to_string()), Value::Empty);
}
