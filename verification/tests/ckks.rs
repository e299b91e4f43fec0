use penumbra::ckks_params::{default_params, log_sparsity, slots, CkksParams};
use penumbra::ckks::{avg_pool_matrix, conv2d_matrix, linear_matrix, matrix_diagonals, schedule_rotations};
use penumbra::ckks_plan::{check_graph_depth_budget, plan_op, LinearKind, OpPlan};
use penumbra::ir::{Graph, Node, OpSpec};

#[test]
fn pool_max_rejected_loudly_at_load_time() {
    let graph = Graph {
        schema_version: "0.6.0".to_string(),
        num_blocks: 4,
        input_bits: 4,
        inputs: vec!["x".to_string()],
        outputs: vec!["y".to_string()],
        nodes: vec![Node {
            name: "max_pool_node".to_string(),
            inputs: vec!["x".to_string()],
            outputs: vec!["y".to_string()],
            op: OpSpec::Pool {
                mode: "max".to_string(),
                in_h: 4,
                in_w: 4,
                channels: 1,
                pool_h: 2,
                pool_w: 2,
                stride: 2,
            },
        }],
    };

    // The default profile: k = 360, log_delta = 30, 256 slots, degree 15.
    let err = check_graph_depth_budget(&graph, 360, 30, 256, 15, &vec![])
        .expect_err("Pool(max) must be rejected on CKKS backend");

    assert!(err.contains("max_pool_node"), "error must name offending node: {err}");
    assert!(err.contains("Pool(max)"), "error must name unsupported op: {err}");
    assert!(err.contains("ckks"), "error must name the backend: {err}");
}

#[test]
fn depth_budget_accumulates_per_node() {
    let node = |name: &str, input: &str, output: &str| Node {
        name: name.to_string(),
        inputs: vec![input.to_string()],
        outputs: vec![output.to_string()],
        op: OpSpec::Activation { lut: vec![0, 1, 2, 3], output_bits: 2 },
    };
    let graph = Graph {
        schema_version: "0.6.0".to_string(),
        num_blocks: 4,
        input_bits: 2,
        inputs: vec!["x".to_string()],
        outputs: vec!["z".to_string()],
        nodes: vec![node("a1", "x", "y"), node("a2", "y", "z")],
    };
    // A degree-3 fit at depth 2 costs 60 bits at log_delta 30; budget 100 - 30 = 70.
    let depths = vec![0, 1, 2, 2];
    let err = check_graph_depth_budget(&graph, 100, 30, 256, 15, &depths).unwrap_err();
    assert_eq!(
        err,
        "depth/scale budget exceeded at node 'a2' (Activation): the graph needs 120 bits of multiplicative budget by this node but the profile holds only 70 (k=100, log_delta=30). Reduce max_poly_degree, or widen the parameter profile."
    );
    assert!(check_graph_depth_budget(&graph, 150, 30, 256, 15, &depths).is_ok());
}

#[test]
fn linear_matrix_lays_rows_end_to_end() {
    let m = linear_matrix(&vec![vec![1, -2, 3], vec![4, 5, 6]], &vec![7, 8]);
    assert_eq!((m.rows, m.cols), (2, 3));
    assert_eq!(m.data, vec![1, -2, 3, 4, 5, 6]);
    assert_eq!(m.bias, vec![7, 8]);
}

#[test]
fn avg_pool_matrix_marks_each_window() {
    // One 2x2 plane, 1x1 windows at stride 1: the identity.
    let m = avg_pool_matrix(1, 2, 2, 1, 1, 1).unwrap();
    assert_eq!((m.rows, m.cols), (4, 4));
    assert_eq!(m.data, vec![1, 0, 0, 0, 0, 1, 0, 0, 0, 0, 1, 0, 0, 0, 0, 1]);
    // One 2x2 plane, one 2x2 window: a single row of ones.
    let m = avg_pool_matrix(1, 2, 2, 2, 2, 2).unwrap();
    assert_eq!((m.rows, m.cols), (1, 4));
    assert_eq!(m.data, vec![1, 1, 1, 1]);
    assert_eq!(m.bias, vec![0]);
    // Two channels stay apart.
    let m = avg_pool_matrix(2, 1, 2, 1, 2, 1).unwrap();
    assert_eq!((m.rows, m.cols), (2, 4));
    assert_eq!(m.data, vec![1, 1, 0, 0, 0, 0, 1, 1]);
}

#[test]
fn conv2d_matrix_places_kernel_weights() {
    // A 2x2 kernel over a 3x3 plane, stride 1, no padding: a 2x2 output.
    let kernel = vec![1, 2, 3, 4];
    let m = conv2d_matrix(&vec![kernel], &vec![9], 3, 3, 1, 2, 2, 1, 0).unwrap();
    assert_eq!((m.rows, m.cols), (4, 9));
    let expected = vec![
        1, 2, 0, 3, 4, 0, 0, 0, 0,
        0, 1, 2, 0, 3, 4, 0, 0, 0,
        0, 0, 0, 1, 2, 0, 3, 4, 0,
        0, 0, 0, 0, 1, 2, 0, 3, 4,
    ];
    assert_eq!(m.data, expected);
    assert_eq!(m.bias, vec![9, 9, 9, 9]);
    // Padding 1 with a 3x3 kernel over a 1x1 plane: only the centre tap lands.
    let m = conv2d_matrix(&vec![vec![1, 2, 3, 4, 5, 6, 7, 8, 9]], &vec![0], 1, 1, 1, 3, 3, 1, 1).unwrap();
    assert_eq!((m.rows, m.cols), (1, 1));
    assert_eq!(m.data, vec![5]);
}

#[test]
fn diagonals_of_a_small_matrix() {
    let m = linear_matrix(&vec![vec![1, 2], vec![0, 4]], &vec![0, 0]);
    let ds = matrix_diagonals(&m, 4).unwrap();
    // d = 0: (1, 4, 0, 0); d = 1: (2, 0, 0, 0); d = 2, 3: zero.
    assert_eq!(ds, vec![(0, vec![1, 4, 0, 0]), (1, vec![2, 0, 0, 0])]);
    let err = matrix_diagonals(&m, 1).unwrap_err();
    assert_eq!(err, "matrix dimension (2, 2) exceeds backend lt_slots 1");
}

#[test]
fn rotation_schedule_covers_baby_and_giant_steps() {
    let r = schedule_rotations(4, 16);
    assert_eq!(r, vec![1, 2, 3, 4, 8, 12]);
    assert_eq!(schedule_rotations(16, 256).len(), 30);
    assert_eq!(schedule_rotations(1, 1), Vec::<i64>::new());
}

#[test]
fn plans_follow_the_op() {
    let plan = plan_op(&OpSpec::Argmax { threshold: 3 }, 256, 330, 30).unwrap();
    assert!(matches!(plan, OpPlan::Argmax { threshold: 3, degree: 16, max_depth: 11 }));
    let rq = OpSpec::Requant {
        shift: 4,
        mult: 3,
        round_bias: 8,
        out_bits: 2,
        clamp_lut: vec![0, 1, 2, 3],
        mults: vec![],
        shifts: vec![],
        round_biases: vec![],
        channel_size: None,
    };
    match plan_op(&rq, 256, 10, 30).unwrap() {
        OpPlan::RequantPerTensor { mult, shift, round_bias, out_bits, input_bits, max_depth } => {
            assert_eq!((mult, shift, round_bias, out_bits, input_bits, max_depth), (3, 4, 8, 2, 14, 1));
        }
        _ => panic!("expected a per-tensor rescale"),
    }
    let lin = OpSpec::Linear { weights: vec![vec![1, 0], vec![0, 1]], bias: vec![0, 5], weight_bits: 2 };
    match plan_op(&lin, 4, 330, 30).unwrap() {
        OpPlan::LinearMap { kind: LinearKind::Linear { weight_bits }, rows, cols, bias, diagonals } => {
            assert_eq!((weight_bits, rows, cols), (2, 2, 2));
            assert_eq!(bias, vec![0, 5]);
            assert_eq!(diagonals, vec![(0, vec![1, 1, 0, 0])]);
        }
        _ => panic!("expected a linear map"),
    }
    let bad = OpSpec::Linear { weights: vec![vec![1, 2], vec![3, 4]], bias: vec![0], weight_bits: 4 };
    assert!(plan_op(&bad, 256, 330, 30).unwrap_err().contains("need one bias per row"));
    assert!(matches!(plan_op(&OpSpec::Add {}, 256, 330, 30), Ok(OpPlan::Add)));
}

#[test]
fn default_profile_sizes() {
    let p = default_params();
    assert_eq!(slots(&p), 8192);
    assert_eq!(log_sparsity(&p), 5);
    assert_eq!(p.log_n(), 14);
    assert_eq!(p.log_budget(), 330);
    let small = CkksParams { n: 512, lt_slots: 64, k: 20, log_delta: 25, ..default_params() };
    assert_eq!(slots(&small), 256);
    assert_eq!(log_sparsity(&small), 2);
    assert_eq!(small.log_n(), 9);
    assert_eq!(small.log_budget(), 0);
}
