use std::time::Duration;

use penumbra::profile::{GraphProfile, NodeProfile};

fn nanos(ms: u64) -> u128 {
    Duration::from_millis(ms).as_nanos()
}

#[test]
fn test_graph_profile_aggregations() {
    let mut profile = GraphProfile {
        backend: "mock",
        total: nanos(50),
        nodes: Vec::new(),
    };

    profile.nodes.push(NodeProfile {
        name: "node1".into(),
        op_type: "Linear",
        build: nanos(1),
        eval: nanos(10),
        input_lens: vec![64],
        output_len: 10,
        counters: vec![("rotations", 2), ("rescales", 1)],
    });

    profile.nodes.push(NodeProfile {
        name: "node2".into(),
        op_type: "Requant",
        build: nanos(2),
        eval: nanos(20),
        input_lens: vec![10],
        output_len: 10,
        counters: vec![("rescales", 3), ("poly_evals", 1)],
    });

    profile.nodes.push(NodeProfile {
        name: "node3".into(),
        op_type: "Linear",
        build: nanos(3),
        eval: nanos(15),
        input_lens: vec![10],
        output_len: 2,
        counters: vec![("rotations", 5)],
    });

    assert_eq!(profile.op_types(), vec!["Linear", "Requant", "Linear"]);

    let stats = profile.by_op_type();
    assert_eq!(stats.len(), 2);
    assert_eq!(stats.get("Linear").unwrap().calls, 2);
    assert_eq!(stats.get("Linear").unwrap().build, nanos(4));
    assert_eq!(stats.get("Linear").unwrap().eval, nanos(25));
    assert_eq!(stats.get("Requant").unwrap().calls, 1);

    let totals = profile.counter_totals();
    assert_eq!(totals.get("rotations"), Some(&7));
    assert_eq!(totals.get("rescales"), Some(&4));
    assert_eq!(totals.get("poly_evals"), Some(&1));
    assert_eq!(totals.get("unknown"), None);
}

#[test]
fn aggregates_come_in_key_order() {
    let node = |op: &'static str, counters: Vec<(&'static str, u64)>| NodeProfile {
        name: "n".to_string(),
        op_type: op,
        build: 1,
        eval: 2,
        input_lens: vec![],
        output_len: 0,
        counters,
    };
    let profile = GraphProfile {
        backend: "mock",
        total: 0,
        nodes: vec![node("B", vec![("y", 1)]), node("A", vec![("x", 2), ("y", 3)]), node("B", vec![])],
    };
    let stats = profile.by_op_type();
    let keys: Vec<&str> = stats.entries.iter().map(|e| e.0).collect();
    assert_eq!(keys, vec!["A", "B"]);
    assert_eq!(stats.get("B").unwrap().calls, 2);
    assert_eq!(stats.get("B").unwrap().eval, 4);
    let totals = profile.counter_totals();
    assert_eq!(totals.entries, vec![("x", 2u64), ("y", 4u64)]);
    let empty = GraphProfile { backend: "mock", total: 0, nodes: vec![] };
    assert_eq!(empty.by_op_type().len(), 0);
    assert!(empty.op_types().is_empty());
}

#[test]
fn aggregates_order_keys_by_their_bytes() {
    let node = |op: &'static str, counters: Vec<(&'static str, u64)>| NodeProfile {
        name: "n".to_string(),
        op_type: op,
        build: 0,
        eval: 0,
        input_lens: vec![],
        output_len: 0,
        counters,
    };
    let profile = GraphProfile {
        backend: "mock",
        total: 0,
        nodes: vec![
            node("Add", vec![("pbs_total", 1), ("Z", 1)]),
            node("Activation", vec![("pbs", 2), ("a", 1)]),
        ],
    };
    let keys: Vec<&str> = profile.by_op_type().entries.iter().map(|e| e.0).collect();
    assert_eq!(keys, vec!["Activation", "Add"]);
    let names: Vec<&str> = profile.counter_totals().entries.iter().map(|e| e.0).collect();
    assert_eq!(names, vec!["Z", "a", "pbs", "pbs_total"]);
}
