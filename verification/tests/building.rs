//! Tests of the graph builder: the two-pass build, its semantic errors, and
//! the shape of the graph it returns.

use route_graph::{open_map, template_to_waypoints, BuilderError, Record, Waypoint};

fn rec(id: u32, x: &str, y: &str, child_ids: Vec<u32>) -> Record {
    Record {
        id,
        coords: (x.to_string(), y.to_string()),
        child_ids,
    }
}

#[test]
fn template_to_waypoints_basic() {
    let test_template = vec![
        rec(1, "0.1", "0.2", vec![2, 3]),
        rec(2, "0.1", "0.2", vec![1, 3]),
        rec(3, "0.1", "0.2", vec![1]),
    ];
    let result = template_to_waypoints(test_template).unwrap();
    assert!(result[0].children.len() > 0);
}

#[test]
fn round_trip_on_well_formed_input() {
    let text = "1(0.1,0.2)[2,3]\n2(0.1,0.2)[1,3]\n3(0.1,0.2)[1]";
    let graph = open_map(text).unwrap();
    assert_eq!(graph.len(), 3);
    for w in &graph {
        assert_eq!(w.coords, ("0.1".to_string(), "0.2".to_string()));
    }
    assert_eq!(graph[0].children, vec![1, 2]);
    assert_eq!(graph[1].children, vec![0, 2]);
    assert_eq!(graph[2].children, vec![0]);
}

#[test]
fn cycle_tolerance() {
    let text = "1(0.1,0.2)[2,3]\n2(0.1,0.2)[1,3]\n3(0.1,0.2)[1]";
    let graph = open_map(text).unwrap();
    let node_one = &graph[0];
    assert_eq!(node_one.children.len(), 2);
    // Node 2 is the record on the second line, so it sits at index 1.
    assert!(node_one.children.contains(&1));
}

#[test]
fn duplicate_id_fails() {
    let err = open_map("1(0,0)[]\n2(0,0)[]\n1(0,0)[]").unwrap_err();
    assert_eq!(err, BuilderError::RepeatedPoint(1));
    let err = open_map("7(0,0)[]\n7(0,0)[]").unwrap_err();
    assert_eq!(err, BuilderError::RepeatedPoint(7));
}

#[test]
fn self_reference_fails() {
    let err = open_map("5(0,0)[5]").unwrap_err();
    assert_eq!(err, BuilderError::SelfReference(5));
}

#[test]
fn dangling_reference_fails() {
    let err = open_map("1(0,0)[9]").unwrap_err();
    assert_eq!(err, BuilderError::UnknownIdForChild(1, 9));
}

#[test]
fn duplicate_found_before_wiring_errors() {
    // Pass one rejects the repeated id even though an earlier line holds a
    // self-reference that pass two would reject.
    let err = open_map("1(0,0)[1]\n2(0,0)[]\n2(0,0)[]").unwrap_err();
    assert_eq!(err, BuilderError::RepeatedPoint(2));
}

#[test]
fn children_checked_in_declared_order() {
    let err = open_map("1(0,0)[9,1]").unwrap_err();
    assert_eq!(err, BuilderError::UnknownIdForChild(1, 9));
    let err = open_map("1(0,0)[1,9]").unwrap_err();
    assert_eq!(err, BuilderError::SelfReference(1));
}

#[test]
fn forward_references_are_wired() {
    // The child is declared before the record that defines it.
    let graph = open_map("1(0,0)[2]\n2(1,1)[]").unwrap();
    assert_eq!(graph[0].children, vec![1]);
    assert_eq!(graph[1].children, Vec::<usize>::new());
}

#[test]
fn empty_map_builds_empty_graph() {
    let graph = open_map("").unwrap();
    assert_eq!(graph, Vec::<Waypoint>::new());
}

#[test]
fn io_error_kind_is_distinct() {
    // The library reads no files: the caller reports an unreadable file
    // through this variant, distinct from every parse and build error.
    let err = BuilderError::IOError("no such file".to_string());
    assert!(matches!(err, BuilderError::IOError(_)));
    assert_ne!(err, BuilderError::RepeatedPoint(0));
}
