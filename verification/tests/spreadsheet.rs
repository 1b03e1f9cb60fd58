//! End-to-end behaviour of the cell store against the real formula engine.
use rsheet::coordinator::Coordinator;
use rsheet::protocol::{process_message, Reply};
use rsheet::value::Value;

#[test]
fn plain_formula_evaluates_directly() {
    let mut c = Coordinator::new();
    c.set_cell("A1", "7");
    assert_eq!(c.get_cell("A1"), Value::Int(7));
    c.set_cell("A2", "2 + 3 * 4");
    assert_eq!(c.get_cell("A2"), Value::Int(14));
}

#[test]
fn self_reference_reports_circular_dependency() {
    let mut c = Coordinator::new();
    c.set_cell("A1", "A1");
    let v = c.get_cell("A1");
    assert_eq!(v, Value::Text("Circular dependency detected".to_string()));
    let (reply, changed) = process_message(&mut c, "get A1");
    assert!(changed.is_none());
    match reply {
        Some(Reply::Error(m)) => assert_eq!(m, "Circular dependency"),
        other => panic!("expected a circular-dependency error, got {:?}", describe(&other)),
    }
}

#[test]
fn indirect_cycle_reports_circular_dependency_on_both() {
    let mut c = Coordinator::new();
    c.set_cell("A1", "B1");
    c.set_cell("B1", "A1");
    c.update_cell_values("B1");
    for name in ["A1", "B1"] {
        let msg = format!("get {}", name);
        let (reply, _) = process_message(&mut c, &msg);
        match reply {
            Some(Reply::Error(m)) => assert_eq!(m, "Circular dependency"),
            other => panic!("expected a circular-dependency error for {}, got {:?}", name, describe(&other)),
        }
    }
}

#[test]
fn unset_cell_reads_empty() {
    let c = Coordinator::new();
    assert_eq!(c.get_cell("Z99"), Value::Empty);
}

#[test]
fn get_of_unset_cell_replies_with_empty_value() {
    let mut c = Coordinator::new();
    let (reply, _) = process_message(&mut c, "get Z99");
    match reply {
        Some(Reply::Value(name, v)) => {
            assert_eq!(name, "Z99");
            assert_eq!(v, Value::Empty);
        }
        other => panic!("expected a value reply, got {:?}", describe(&other)),
    }
}

#[test]
fn propagation_updates_dependents_after_sweep() {
    let mut c = Coordinator::new();
    c.set_cell("A1", "1");
    c.set_cell("A2", "A1 + 1");
    assert_eq!(c.get_cell("A2"), Value::Int(2));
    c.set_cell("A1", "5");
    // The write refreshes only the written cell; the dependent cell waits
    // for the sweep.
    assert_eq!(c.get_cell("A2"), Value::Int(2));
    c.update_cell_values("A1");
    assert_eq!(c.get_cell("A2"), Value::Int(6));
}

#[test]
fn range_sum_over_a_column() {
    let mut c = Coordinator::new();
    c.set_cell("A1", "1");
    c.set_cell("A2", "2");
    c.set_cell("A3", "3");
    c.set_cell("B1", "sum(A1_A3)");
    assert_eq!(c.get_cell("B1"), Value::Int(6));
}

#[test]
fn range_sum_over_a_row() {
    let mut c = Coordinator::new();
    c.set_cell("A1", "10");
    c.set_cell("B1", "20");
    c.set_cell("C1", "30");
    c.set_cell("D1", "sum(A1_C1)");
    assert_eq!(c.get_cell("D1"), Value::Int(60));
}

#[test]
fn range_sum_over_a_matrix() {
    let mut c = Coordinator::new();
    c.set_cell("A1", "1");
    c.set_cell("B1", "2");
    c.set_cell("A2", "3");
    c.set_cell("B2", "4");
    c.set_cell("C1", "sum(A1_B2)");
    assert_eq!(c.get_cell("C1"), Value::Int(10));
}

#[test]
fn range_including_unset_cells_treats_them_as_empty() {
    let mut c = Coordinator::new();
    c.set_cell("A1", "1");
    c.set_cell("A3", "3");
    c.set_cell("B1", "sum(A1_A3)");
    // A2 is unset; the engine cannot sum an empty value.
    match c.get_cell("B1") {
        Value::Error(_) => {}
        other => panic!("expected an error value, got {:?}", describe_value(&other)),
    }
}

#[test]
fn repeated_identical_write_stores_the_same_value() {
    let mut c = Coordinator::new();
    c.set_cell("C1", "2 + 2");
    let first = c.get_cell("C1");
    c.set_cell("C1", "2 + 2");
    let second = c.get_cell("C1");
    assert_eq!(first, second);
    assert_eq!(second, Value::Int(4));
}

#[test]
fn repeated_write_survives_its_two_sweeps() {
    let mut c = Coordinator::new();
    c.set_cell("A1", "3");
    c.set_cell("A2", "A1 * 2");
    c.set_cell("A1", "4");
    c.set_cell("A1", "4");
    // Each write announces a sweep; run both.
    c.update_cell_values("A1");
    c.update_cell_values("A1");
    assert_eq!(c.get_cell("A1"), Value::Int(4));
    assert_eq!(c.get_cell("A2"), Value::Int(8));
}

#[test]
fn write_then_read_of_same_cell_is_fresh() {
    let mut c = Coordinator::new();
    c.set_cell("A1", "1");
    c.set_cell("A2", "A1 + 1");
    c.set_cell("A1", "100");
    // No sweep ran, yet the written cell itself reads fresh.
    assert_eq!(c.get_cell("A1"), Value::Int(100));
}

#[test]
fn sweep_skips_the_changed_cell() {
    let mut c = Coordinator::new();
    c.set_cell("A1", "1");
    c.set_cell("A2", "A1 + 1");
    c.set_cell("A1", "9");
    c.update_cell_values("A1");
    assert_eq!(c.get_cell("A1"), Value::Int(9));
    assert_eq!(c.get_cell("A2"), Value::Int(10));
}

#[test]
fn string_formula_evaluates_to_text() {
    let mut c = Coordinator::new();
    c.set_cell("A1", "\"hello\"");
    assert_eq!(c.get_cell("A1"), Value::Text("hello".to_string()));
}

fn describe(r: &Option<Reply>) -> String {
    match r {
        None => "no reply".to_string(),
        Some(Reply::Error(m)) => format!("error reply {}", m),
        Some(Reply::Value(n, _)) => format!("value reply for {}", n),
    }
}

fn describe_value(v: &Value) -> String {
    match v {
        Value::Empty => "empty".to_string(),
        Value::Int(i) => format!("int {}", i),
        Value::Text(t) => format!("text {}", t),
        Value::Error(e) => format!("error {}", e),
    }
}
