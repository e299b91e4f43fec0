use penumbra::ir::{Graph, Node, OpSpec, SCHEMA_VERSION};
use penumbra::bitwidth::{output_bits_ready, propagate_ready};
use penumbra::ir::sizes_ready;
use penumbra::optimize::{optimize_graph, step_fuse, walk_ready, Cow};

fn requant(shift: u32, mult: u64, round_bias: u64, out_bits: usize, clamp_lut: Vec<u64>) -> OpSpec {
    OpSpec::Requant {
        shift,
        mult,
        round_bias,
        out_bits,
        clamp_lut,
        mults: vec![],
        shifts: vec![],
        round_biases: vec![],
        channel_size: None,
    }
}

fn node(name: &str, input: &str, output: &str, op: OpSpec) -> Node {
    Node {
        name: name.to_string(),
        inputs: vec![input.to_string()],
        outputs: vec![output.to_string()],
        op,
    }
}

fn graph(input_bits: usize, outputs: Vec<&str>, nodes: Vec<Node>) -> Graph {
    Graph {
        schema_version: SCHEMA_VERSION.to_string(),
        num_blocks: 4,
        input_bits,
        inputs: vec!["x".to_string()],
        outputs: outputs.into_iter().map(|s| s.to_string()).collect(),
        nodes,
    }
}

#[test]
fn test_rule_r1_requant_activation_fusion() {
    let graph = Graph {
        schema_version: SCHEMA_VERSION.to_string(),
        num_blocks: 4,
        input_bits: 4,
        inputs: vec!["x".to_string()],
        outputs: vec!["z".to_string()],
        nodes: vec![
            Node {
                name: "rq".to_string(),
                inputs: vec!["x".to_string()],
                outputs: vec!["y".to_string()],
                op: OpSpec::Requant {
                    shift: 2,
                    mult: 1,
                    round_bias: 2,
                    out_bits: 2,
                    clamp_lut: vec![0, 1, 2, 3],
                    mults: vec![],
                    shifts: vec![],
                    round_biases: vec![],
                    channel_size: None,
                },
            },
            Node {
                name: "act".to_string(),
                inputs: vec!["y".to_string()],
                outputs: vec!["z".to_string()],
                op: OpSpec::Activation {
                    lut: vec![0, 2, 1, 3],
                    output_bits: 2,
                },
            },
        ],
    };

    let opt = optimize_graph(&graph).expect("optimization succeeds");
    match opt {
        Cow::Owned(g) => {
            assert_eq!(g.nodes.len(), 1, "two nodes fused into one");
            let node = &g.nodes[0];
            assert_eq!(node.name, "rq", "retains producer name");
            assert_eq!(node.inputs, vec!["x"]);
            assert_eq!(node.outputs, vec!["z"], "downstream tensor name preserved");
            if let OpSpec::Requant {
                clamp_lut,
                shift,
                mult,
                round_bias,
                out_bits,
                ..
            } = &node.op
            {
                assert_eq!(*shift, 2);
                assert_eq!(*mult, 1);
                assert_eq!(*round_bias, 2);
                assert_eq!(*out_bits, 2);
                assert_eq!(*clamp_lut, vec![0, 2, 1, 3]);
            } else {
                panic!("fused node should be Requant");
            }
        }
        Cow::Borrowed(_) => panic!("expected fusion to rewrite graph"),
    }
}

#[test]
fn test_rule_r1_does_not_fire_when_multi_consumer_or_graph_output() {
    // Multi-consumer case
    let graph_multi = Graph {
        schema_version: SCHEMA_VERSION.to_string(),
        num_blocks: 4,
        input_bits: 4,
        inputs: vec!["x".to_string()],
        outputs: vec!["z1".to_string(), "z2".to_string()],
        nodes: vec![
            Node {
                name: "rq".to_string(),
                inputs: vec!["x".to_string()],
                outputs: vec!["y".to_string()],
                op: OpSpec::Requant {
                    shift: 2,
                    mult: 1,
                    round_bias: 2,
                    out_bits: 2,
                    clamp_lut: vec![0, 1, 2, 3],
                    mults: vec![],
                    shifts: vec![],
                    round_biases: vec![],
                    channel_size: None,
                },
            },
            Node {
                name: "act1".to_string(),
                inputs: vec!["y".to_string()],
                outputs: vec!["z1".to_string()],
                op: OpSpec::Activation {
                    lut: vec![0, 2, 1, 3],
                    output_bits: 2,
                },
            },
            Node {
                name: "act2".to_string(),
                inputs: vec!["y".to_string()],
                outputs: vec!["z2".to_string()],
                op: OpSpec::Activation {
                    lut: vec![0, 1, 2, 3],
                    output_bits: 2,
                },
            },
        ],
    };
    let opt_multi = optimize_graph(&graph_multi).expect("success");
    assert!(matches!(opt_multi, Cow::Borrowed(_)));

    // Graph output case
    let graph_out = Graph {
        schema_version: SCHEMA_VERSION.to_string(),
        num_blocks: 4,
        input_bits: 4,
        inputs: vec!["x".to_string()],
        outputs: vec!["y".to_string(), "z".to_string()],
        nodes: vec![
            Node {
                name: "rq".to_string(),
                inputs: vec!["x".to_string()],
                outputs: vec!["y".to_string()],
                op: OpSpec::Requant {
                    shift: 2,
                    mult: 1,
                    round_bias: 2,
                    out_bits: 2,
                    clamp_lut: vec![0, 1, 2, 3],
                    mults: vec![],
                    shifts: vec![],
                    round_biases: vec![],
                    channel_size: None,
                },
            },
            Node {
                name: "act".to_string(),
                inputs: vec!["y".to_string()],
                outputs: vec!["z".to_string()],
                op: OpSpec::Activation {
                    lut: vec![0, 2, 1, 3],
                    output_bits: 2,
                },
            },
        ],
    };
    let opt_out = optimize_graph(&graph_out).expect("success");
    assert!(matches!(opt_out, Cow::Borrowed(_)));
}

#[test]
fn test_rule_r2_activation_activation_fusion() {
    let graph = Graph {
        schema_version: SCHEMA_VERSION.to_string(),
        num_blocks: 4,
        input_bits: 2,
        inputs: vec!["x".to_string()],
        outputs: vec!["z".to_string()],
        nodes: vec![
            Node {
                name: "act1".to_string(),
                inputs: vec!["x".to_string()],
                outputs: vec!["y".to_string()],
                op: OpSpec::Activation {
                    lut: vec![1, 2, 3, 0],
                    output_bits: 2,
                },
            },
            Node {
                name: "act2".to_string(),
                inputs: vec!["y".to_string()],
                outputs: vec!["z".to_string()],
                op: OpSpec::Activation {
                    lut: vec![3, 2, 1, 0],
                    output_bits: 2,
                },
            },
        ],
    };

    let opt = optimize_graph(&graph).expect("success");
    match opt {
        Cow::Owned(g) => {
            assert_eq!(g.nodes.len(), 1);
            let node = &g.nodes[0];
            assert_eq!(node.name, "act1");
            assert_eq!(node.outputs, vec!["z"]);
            if let OpSpec::Activation { lut, output_bits } = &node.op {
                assert_eq!(*lut, vec![2, 1, 0, 3]);
                assert_eq!(*output_bits, 2);
            } else {
                panic!("expected Activation op");
            }
        }
        Cow::Borrowed(_) => panic!("expected fusion"),
    }
}

#[test]
fn test_rule_r3_requant_requant_fusion() {
    let graph = Graph {
        schema_version: SCHEMA_VERSION.to_string(),
        num_blocks: 4,
        input_bits: 4,
        inputs: vec!["x".to_string()],
        outputs: vec!["z".to_string()],
        nodes: vec![
            Node {
                name: "rq1".to_string(),
                inputs: vec!["x".to_string()],
                outputs: vec!["y".to_string()],
                op: OpSpec::Requant {
                    shift: 0,
                    mult: 1,
                    round_bias: 0,
                    out_bits: 2,
                    clamp_lut: vec![0, 1, 2, 3],
                    mults: vec![],
                    shifts: vec![],
                    round_biases: vec![],
                    channel_size: None,
                },
            },
            Node {
                name: "rq2".to_string(),
                inputs: vec!["y".to_string()],
                outputs: vec!["z".to_string()],
                op: OpSpec::Requant {
                    shift: 1,
                    mult: 1,
                    round_bias: 0,
                    out_bits: 2,
                    clamp_lut: vec![0, 2, 1, 3],
                    mults: vec![],
                    shifts: vec![],
                    round_biases: vec![],
                    channel_size: None,
                },
            },
        ],
    };

    let opt = optimize_graph(&graph).expect("success");
    match opt {
        Cow::Owned(g) => {
            assert_eq!(g.nodes.len(), 1);
            let node = &g.nodes[0];
            assert_eq!(node.name, "rq1");
            assert_eq!(node.outputs, vec!["z"]);
            if let OpSpec::Requant { clamp_lut, .. } = &node.op {
                // v=0: u=0 -> (0*1)>>1 = 0 -> lut2[0] = 0
                // v=1: u=1 -> (1*1)>>1 = 0 -> lut2[0] = 0
                // v=2: u=2 -> (2*1)>>1 = 1 -> lut2[1] = 2
                // v=3: u=3 -> (3*1)>>1 = 1 -> lut2[1] = 2
                assert_eq!(*clamp_lut, vec![0, 0, 2, 2]);
            } else {
                panic!("expected Requant op");
            }
        }
        Cow::Borrowed(_) => panic!("expected fusion"),
    }

    // Does not fire if second has per-channel overlay
    let mut graph_per_channel = graph.clone();
    if let OpSpec::Requant { mults, .. } = &mut graph_per_channel.nodes[1].op {
        *mults = vec![1];
    }
    let opt_pc = optimize_graph(&graph_per_channel).expect("success");
    assert!(matches!(opt_pc, Cow::Borrowed(_)));
}

#[test]
fn test_fixed_point_chain_collapse() {
    // Requant -> Requant -> Activation collapses to a single Requant
    let graph = Graph {
        schema_version: SCHEMA_VERSION.to_string(),
        num_blocks: 4,
        input_bits: 4,
        inputs: vec!["x".to_string()],
        outputs: vec!["out".to_string()],
        nodes: vec![
            Node {
                name: "rq1".to_string(),
                inputs: vec!["x".to_string()],
                outputs: vec!["t1".to_string()],
                op: OpSpec::Requant {
                    shift: 0,
                    mult: 1,
                    round_bias: 0,
                    out_bits: 2,
                    clamp_lut: vec![0, 1, 2, 3],
                    mults: vec![],
                    shifts: vec![],
                    round_biases: vec![],
                    channel_size: None,
                },
            },
            Node {
                name: "rq2".to_string(),
                inputs: vec!["t1".to_string()],
                outputs: vec!["t2".to_string()],
                op: OpSpec::Requant {
                    shift: 0,
                    mult: 1,
                    round_bias: 0,
                    out_bits: 2,
                    clamp_lut: vec![0, 1, 2, 3],
                    mults: vec![],
                    shifts: vec![],
                    round_biases: vec![],
                    channel_size: None,
                },
            },
            Node {
                name: "act".to_string(),
                inputs: vec!["t2".to_string()],
                outputs: vec!["out".to_string()],
                op: OpSpec::Activation {
                    lut: vec![3, 2, 1, 0],
                    output_bits: 2,
                },
            },
        ],
    };

    let opt = optimize_graph(&graph).expect("success");
    match opt {
        Cow::Owned(g) => {
            assert_eq!(g.nodes.len(), 1, "3 nodes collapse to 1 node");
            assert_eq!(g.nodes[0].name, "rq1");
            assert_eq!(g.nodes[0].outputs, vec!["out"]);
            if let OpSpec::Requant { clamp_lut, .. } = &g.nodes[0].op {
                assert_eq!(*clamp_lut, vec![3, 2, 1, 0]);
            } else {
                panic!("expected Requant op");
            }
        }
        Cow::Borrowed(_) => panic!("expected fusion"),
    }
}

#[test]
fn optimizing_an_optimized_graph_borrows_it() {
    let g = graph(
        4,
        vec!["out"],
        vec![
            node("rq1", "x", "t1", requant(0, 1, 0, 2, vec![0, 1, 2, 3])),
            node("act", "t1", "out", OpSpec::Activation { lut: vec![3, 2, 1, 0], output_bits: 2 }),
        ],
    );
    let once = match optimize_graph(&g).expect("success") {
        Cow::Owned(h) => h,
        Cow::Borrowed(_) => panic!("expected fusion"),
    };
    assert!(matches!(optimize_graph(&once).expect("success"), Cow::Borrowed(_)));
    assert_eq!(once.inputs, g.inputs);
    assert_eq!(once.outputs, g.outputs);
}

#[test]
fn r1_does_not_fire_when_composed_entry_leaves_the_block() {
    let g = graph(
        4,
        vec!["z"],
        vec![
            node("rq", "x", "y", requant(2, 1, 2, 2, vec![0, 1, 2, 3])),
            node("act", "y", "z", OpSpec::Activation { lut: vec![0, 2, 1, 7], output_bits: 3 }),
        ],
    );
    assert!(matches!(optimize_graph(&g).expect("success"), Cow::Borrowed(_)));
}

#[test]
fn r1_does_not_fire_when_fused_table_needs_more_bits() {
    let g = graph(
        4,
        vec!["z"],
        vec![
            node("rq", "x", "y", requant(2, 1, 2, 1, vec![0, 1, 1, 1])),
            node("act", "y", "z", OpSpec::Activation { lut: vec![0, 3, 1, 3], output_bits: 2 }),
        ],
    );
    assert!(matches!(optimize_graph(&g).expect("success"), Cow::Borrowed(_)));
}

#[test]
fn r2_does_not_fire_when_index_leaves_the_second_table() {
    let g = graph(
        2,
        vec!["z"],
        vec![
            node("a1", "x", "y", OpSpec::Activation { lut: vec![0, 5], output_bits: 3 }),
            node("a2", "y", "z", OpSpec::Activation { lut: vec![3, 2, 1, 0], output_bits: 2 }),
        ],
    );
    assert!(matches!(optimize_graph(&g).expect("success"), Cow::Borrowed(_)));
}

#[test]
fn r3_saturates_at_the_second_out_bits() {
    // u * 4 >> 0 saturates at 2^1 - 1 = 1 for every u >= 1.
    let g = graph(
        4,
        vec!["z"],
        vec![
            node("rq1", "x", "y", requant(0, 1, 0, 2, vec![0, 1, 2, 3])),
            node("rq2", "y", "z", requant(0, 4, 0, 1, vec![2, 3, 0, 0])),
        ],
    );
    match optimize_graph(&g).expect("success") {
        Cow::Owned(h) => match &h.nodes[0].op {
            OpSpec::Requant { clamp_lut, .. } => assert_eq!(*clamp_lut, vec![2, 3, 3, 3]),
            _ => panic!("expected Requant op"),
        },
        Cow::Borrowed(_) => panic!("expected fusion"),
    }
}

#[test]
fn producer_must_come_before_its_consumer() {
    let g = graph(
        4,
        vec!["z"],
        vec![
            node("act", "y", "z", OpSpec::Activation { lut: vec![0, 1, 2, 3], output_bits: 2 }),
            node("rq", "x", "y", requant(0, 1, 0, 2, vec![0, 1, 2, 3])),
        ],
    );
    assert!(matches!(step_fuse(&g), Ok(None)));
}

#[test]
fn step_fuse_performs_one_rewrite() {
    let g = graph(
        4,
        vec!["out"],
        vec![
            node("rq1", "x", "t1", requant(0, 1, 0, 2, vec![0, 1, 2, 3])),
            node("rq2", "t1", "t2", requant(0, 1, 0, 2, vec![0, 1, 2, 3])),
            node("act", "t2", "out", OpSpec::Activation { lut: vec![3, 2, 1, 0], output_bits: 2 }),
        ],
    );
    let h = step_fuse(&g).expect("step").expect("a rule fires");
    assert_eq!(h.nodes.len(), 2);
    assert_eq!(h.nodes[0].name, "rq1");
    assert_eq!(h.nodes[0].outputs, vec!["t2"]);
    assert_eq!(h.nodes[1].name, "act");
}

#[test]
fn fused_graph_that_fails_width_propagation_is_refused() {
    // The fused node keeps its output tensor "z", which an input already names.
    let mut g = graph(
        4,
        vec!["w"],
        vec![
            node("rq", "x", "y", requant(0, 1, 0, 2, vec![0, 1, 2, 3])),
            node("act", "y", "x2", OpSpec::Activation { lut: vec![0, 1, 2, 3], output_bits: 2 }),
            node("dup", "x2", "x", OpSpec::Activation { lut: vec![0, 1, 2, 3], output_bits: 2 }),
            node("last", "x", "w", OpSpec::Argmax { threshold: 0 }),
        ],
    );
    g.inputs = vec!["x".to_string()];
    let err = match optimize_graph(&g) {
        Err(e) => e,
        Ok(_) => panic!("expected a width-propagation error"),
    };
    assert!(err.contains("already exists"), "got: {err}");
}

#[test]
fn readiness_checks_catch_overflowing_arithmetic() {
    let ok = graph(
        4,
        vec!["z"],
        vec![
            node("a", "x", "y", requant(0, 1, 0, 2, vec![0, 1, 2, 3])),
            node("b", "y", "z", requant(0, 1, 0, 2, vec![3, 2, 1, 0])),
        ],
    );
    assert!(walk_ready(&ok));
    assert!(propagate_ready(&ok));
    let wide = graph(
        4,
        vec!["z"],
        vec![
            node("a", "x", "y", requant(0, 1, 0, 2, vec![u64::MAX, 1, 2, 3])),
            node("b", "y", "z", requant(0, 2, 0, 2, vec![3, 2, 1, 0])),
        ],
    );
    assert!(!walk_ready(&wide));
    let conv = OpSpec::Conv2d {
        weights: vec![vec![1]],
        bias: vec![0],
        weight_bits: 2,
        in_h: 1,
        in_w: 1,
        in_channels: usize::MAX,
        kernel_h: 2,
        kernel_w: 1,
        stride: 1,
        padding: 0,
    };
    assert!(!sizes_ready(&conv));
    assert!(!output_bits_ready(&conv, &[4]));
    assert!(!output_bits_ready(&OpSpec::Add {}, &[usize::MAX, 1]));
    assert!(output_bits_ready(&OpSpec::Add {}, &[3, 1]));
    assert!(!output_bits_ready(&OpSpec::Add {}, &[3]));
}
