use penumbra::backend::{Backend, Counters, EvalCtx, Lengths, Op, Tensor, Tensors, Values, Wire};
use penumbra::bitwidth::{chain_budget_verdict, check_bit_width_budget};
use penumbra::bridge::{evaluate_rows, run_evaluate_batch, run_predict};
use penumbra::eval::{evaluate, evaluate_graph, evaluate_graph_profiled, Clock};
use penumbra::profile::GraphProfile;
use penumbra::session::Session;
use penumbra::ir::{Graph, GraphModel, Node, OpModel, OpSpec, SCHEMA_VERSION};

/// Rejects every op, so `build_op` is the only reachable failure.
struct RejectingBackend;

/// The op type a model of an op spec names.
fn model_type(op: &OpModel) -> &'static str {
    match op {
        OpModel::Linear { .. } => "Linear",
        OpModel::Conv2d { .. } => "Conv2d",
        OpModel::Activation { .. } => "Activation",
        OpModel::Argmax { .. } => "Argmax",
        OpModel::Requant { .. } => "Requant",
        OpModel::Pool { .. } => "Pool",
        OpModel::Add => "Add",
    }
}

impl Backend for RejectingBackend {
    type Ciphertext = i64;
    type ServerKey = ();
    type ClientKey = ();

    fn name(&self) -> &'static str {
        "stub"
    }

    fn spec_name(&self) -> &'static str {
        self.name()
    }

    fn build_accepts(&self, _op: OpModel) -> bool {
        false
    }

    fn build_refusal(&self, op: OpModel) -> String {
        format!("operator {} is unsupported on backend 'stub'", model_type(&op))
    }

    fn build_op(&self, spec: &OpSpec) -> Result<Box<dyn Op<i64, ()>>, String> {
        Err(format!("operator {} is unsupported on backend 'stub'", spec.op_type()))
    }

    fn budget_refusal(&self, _graph: GraphModel) -> Option<String> {
        None
    }

    fn check_graph_budget(&self, _graph: &Graph) -> Result<(), String> {
        Ok(())
    }

    fn apply_op(&self, _op: OpModel, _sk: (), _num_blocks: usize, _ins: Tensors<i64>) -> Tensor<i64> {
        unreachable!("a model of the op, never run")
    }

    fn op_cost(&self, _op: OpModel, _input_lens: Lengths) -> Counters {
        unreachable!("a model of the op's counters, never run")
    }

    fn key_pair(&self, _ck: (), _sk: (), _num_blocks: usize) -> bool {
        unreachable!("a model of key generation, never run")
    }

    fn encrypts(&self, _ck: (), _input: Values, _cts: Tensor<i64>) -> bool {
        unreachable!("a model of encryption, never run")
    }

    fn label_of(&self, _ck: (), _out: Tensor<i64>) -> i64 {
        unreachable!("a model of decryption, never run")
    }

    fn values_of(&self, _ck: (), _out: Tensor<i64>) -> Values {
        unreachable!("a model of decryption, never run")
    }

    fn cts_wire(&self, _cts: Tensor<i64>) -> Wire {
        unreachable!("a model of serialization, never run")
    }

    fn client_key_wire(&self, _ck: (), _num_blocks: usize) -> Wire {
        unreachable!("a model of serialization, never run")
    }

    fn server_key_wire(&self, _sk: (), _num_blocks: usize) -> Wire {
        unreachable!("a model of serialization, never run")
    }

    fn create_trivial_zero(&self, _sk: &(), _num_blocks: usize) -> i64 {
        panic!("evaluation is unreachable: build_op rejects first")
    }

    fn add(&self, _sk: &(), _a: &i64, _b: &i64) -> i64 {
        panic!("evaluation is unreachable: build_op rejects first")
    }

    fn scalar_mul(&self, _sk: &(), _a: &i64, _scalar: i64) -> i64 {
        panic!("evaluation is unreachable: build_op rejects first")
    }

    fn scalar_add(&self, _sk: &(), _a: &i64, _scalar: i64) -> i64 {
        panic!("evaluation is unreachable: build_op rejects first")
    }

    fn scalar_ge(&self, _sk: &(), _a: &i64, _threshold: i64) -> i64 {
        panic!("evaluation is unreachable: build_op rejects first")
    }

    fn max(&self, _sk: &(), _a: &i64, _b: &i64) -> i64 {
        panic!("evaluation is unreachable: build_op rejects first")
    }

    fn scalar_max(&self, _sk: &(), _a: &i64, _scalar: i64) -> i64 {
        panic!("evaluation is unreachable: build_op rejects first")
    }

    fn scalar_min(&self, _sk: &(), _a: &i64, _scalar: i64) -> i64 {
        panic!("evaluation is unreachable: build_op rejects first")
    }

    fn scalar_right_shift(&self, _sk: &(), _a: &i64, _shift: u32) -> i64 {
        panic!("evaluation is unreachable: build_op rejects first")
    }

    fn apply_lut(&self, _sk: &(), _a: &i64, _lut: &[u64], _num_blocks: usize) -> i64 {
        panic!("evaluation is unreachable: build_op rejects first")
    }

    fn keygen(&self, _num_blocks: usize) -> ((), ()) {
        panic!("evaluation is unreachable: build_op rejects first")
    }

    fn encrypt(&self, _ck: &(), _input: &[i64]) -> Vec<i64> {
        panic!("evaluation is unreachable: build_op rejects first")
    }

    fn decrypt_label(&self, _ck: &(), _out: &[i64]) -> i64 {
        panic!("evaluation is unreachable: build_op rejects first")
    }

    fn decrypt_vec(&self, _ck: &(), _out: &[i64]) -> Vec<i64> {
        panic!("evaluation is unreachable: build_op rejects first")
    }

    fn serialize_cts(&self, _cts: &[i64]) -> Result<Vec<u8>, String> {
        panic!("evaluation is unreachable: build_op rejects first")
    }

    fn deserialize_cts(&self, _bytes: &[u8]) -> Result<Vec<i64>, String> {
        panic!("evaluation is unreachable: build_op rejects first")
    }

    fn serialize_client_key(&self, _ck: &(), _num_blocks: usize) -> Result<Vec<u8>, String> {
        panic!("evaluation is unreachable: build_op rejects first")
    }

    fn serialize_server_key(&self, _sk: &(), _num_blocks: usize) -> Result<Vec<u8>, String> {
        panic!("evaluation is unreachable: build_op rejects first")
    }
}

/// A plaintext stand-in: `Activation` maps each value through its table and
/// `Add` sums its two inputs elementwise; everything else is refused.
struct PlainBackend;

struct PlainLut(Vec<u64>);

struct PlainAdd;

impl Op<i64, ()> for PlainLut {
    fn eval_n_spec(&self, _sk: (), _num_blocks: usize, _inputs: Tensors<i64>) -> Tensor<i64> {
        unreachable!("a model of the op, never run")
    }
    fn cost_spec(&self, _input_lens: Lengths) -> Counters {
        unreachable!("a model of the op's counters, never run")
    }
    fn eval(&self, _ctx: &EvalCtx<()>, inputs: &Vec<i64>) -> Vec<i64> {
        inputs.iter().map(|&v| self.0[v as usize] as i64).collect()
    }
    fn eval_n(&self, ctx: &EvalCtx<()>, inputs: &[&Vec<i64>]) -> Vec<i64> {
        self.eval(ctx, inputs[0])
    }
    fn out_bits_spec(&self, input_bits: usize) -> usize {
        self.output_bits(input_bits)
    }
    fn output_bits(&self, _input_bits: usize) -> usize {
        2
    }
    fn output_bits_n(&self, _input_bits: &[usize]) -> usize {
        2
    }
    fn internal_bits_n(&self, _input_bits: &[usize]) -> usize {
        2
    }
    fn cost(&self, _input_lens: &[usize]) -> Vec<(&'static str, u64)> {
        vec![("pbs", 1)]
    }
}

impl Op<i64, ()> for PlainAdd {
    fn eval_n_spec(&self, _sk: (), _num_blocks: usize, _inputs: Tensors<i64>) -> Tensor<i64> {
        unreachable!("a model of the op, never run")
    }
    fn cost_spec(&self, _input_lens: Lengths) -> Counters {
        unreachable!("a model of the op's counters, never run")
    }
    fn eval(&self, _ctx: &EvalCtx<()>, inputs: &Vec<i64>) -> Vec<i64> {
        inputs.clone()
    }
    fn eval_n(&self, _ctx: &EvalCtx<()>, inputs: &[&Vec<i64>]) -> Vec<i64> {
        inputs[0].iter().zip(inputs[1].iter()).map(|(a, b)| a + b).collect()
    }
    fn out_bits_spec(&self, input_bits: usize) -> usize {
        self.output_bits(input_bits)
    }
    fn output_bits(&self, input_bits: usize) -> usize {
        input_bits + 1
    }
    fn output_bits_n(&self, input_bits: &[usize]) -> usize {
        input_bits.iter().copied().max().unwrap_or(0) + 1
    }
    fn internal_bits_n(&self, input_bits: &[usize]) -> usize {
        self.output_bits_n(input_bits)
    }
    fn cost(&self, _input_lens: &[usize]) -> Vec<(&'static str, u64)> {
        Vec::new()
    }
}

impl Backend for PlainBackend {
    type Ciphertext = i64;
    type ServerKey = ();
    type ClientKey = ();

    fn name(&self) -> &'static str {
        "plain"
    }

    fn spec_name(&self) -> &'static str {
        self.name()
    }

    fn build_accepts(&self, op: OpModel) -> bool {
        matches!(op, OpModel::Activation { .. } | OpModel::Add)
    }

    fn build_refusal(&self, op: OpModel) -> String {
        format!("operator {} is unsupported on backend 'plain'", model_type(&op))
    }

    fn build_op(&self, spec: &OpSpec) -> Result<Box<dyn Op<i64, ()>>, String> {
        match spec {
            OpSpec::Activation { lut, .. } => Ok(Box::new(PlainLut(lut.clone()))),
            OpSpec::Add {} => Ok(Box::new(PlainAdd)),
            other => Err(format!("operator {} is unsupported on backend 'plain'", other.op_type())),
        }
    }

    fn budget_refusal(&self, _graph: GraphModel) -> Option<String> {
        None
    }

    fn check_graph_budget(&self, _graph: &Graph) -> Result<(), String> {
        Ok(())
    }

    fn apply_op(&self, _op: OpModel, _sk: (), _num_blocks: usize, _ins: Tensors<i64>) -> Tensor<i64> {
        unreachable!("a model of the op, never run")
    }

    fn op_cost(&self, _op: OpModel, _input_lens: Lengths) -> Counters {
        unreachable!("a model of the op's counters, never run")
    }

    fn key_pair(&self, _ck: (), _sk: (), _num_blocks: usize) -> bool {
        unreachable!("a model of key generation, never run")
    }

    fn encrypts(&self, _ck: (), _input: Values, _cts: Tensor<i64>) -> bool {
        unreachable!("a model of encryption, never run")
    }

    fn label_of(&self, _ck: (), _out: Tensor<i64>) -> i64 {
        unreachable!("a model of decryption, never run")
    }

    fn values_of(&self, _ck: (), _out: Tensor<i64>) -> Values {
        unreachable!("a model of decryption, never run")
    }

    fn cts_wire(&self, _cts: Tensor<i64>) -> Wire {
        unreachable!("a model of serialization, never run")
    }

    fn client_key_wire(&self, _ck: (), _num_blocks: usize) -> Wire {
        unreachable!("a model of serialization, never run")
    }

    fn server_key_wire(&self, _sk: (), _num_blocks: usize) -> Wire {
        unreachable!("a model of serialization, never run")
    }

    fn create_trivial_zero(&self, _sk: &(), _num_blocks: usize) -> i64 {
        0
    }

    fn add(&self, _sk: &(), a: &i64, b: &i64) -> i64 {
        a + b
    }

    fn scalar_mul(&self, _sk: &(), a: &i64, scalar: i64) -> i64 {
        a * scalar
    }

    fn scalar_add(&self, _sk: &(), a: &i64, scalar: i64) -> i64 {
        a + scalar
    }

    fn scalar_ge(&self, _sk: &(), a: &i64, threshold: i64) -> i64 {
        (*a >= threshold) as i64
    }

    fn max(&self, _sk: &(), a: &i64, b: &i64) -> i64 {
        (*a).max(*b)
    }

    fn scalar_max(&self, _sk: &(), a: &i64, scalar: i64) -> i64 {
        (*a).max(scalar)
    }

    fn scalar_min(&self, _sk: &(), a: &i64, scalar: i64) -> i64 {
        (*a).min(scalar)
    }

    fn scalar_right_shift(&self, _sk: &(), a: &i64, shift: u32) -> i64 {
        a >> shift
    }

    fn apply_lut(&self, _sk: &(), a: &i64, lut: &[u64], _num_blocks: usize) -> i64 {
        lut[*a as usize] as i64
    }

    fn keygen(&self, _num_blocks: usize) -> ((), ()) {
        ((), ())
    }

    fn encrypt(&self, _ck: &(), input: &[i64]) -> Vec<i64> {
        input.to_vec()
    }

    fn decrypt_label(&self, _ck: &(), out: &[i64]) -> i64 {
        out[0]
    }

    fn decrypt_vec(&self, _ck: &(), out: &[i64]) -> Vec<i64> {
        out.to_vec()
    }

    fn serialize_cts(&self, _cts: &[i64]) -> Result<Vec<u8>, String> {
        Ok(Vec::new())
    }

    fn deserialize_cts(&self, _bytes: &[u8]) -> Result<Vec<i64>, String> {
        Ok(Vec::new())
    }

    fn serialize_client_key(&self, _ck: &(), _num_blocks: usize) -> Result<Vec<u8>, String> {
        Ok(Vec::new())
    }

    fn serialize_server_key(&self, _sk: &(), _num_blocks: usize) -> Result<Vec<u8>, String> {
        Ok(Vec::new())
    }
}

fn node(name: &str, inputs: Vec<&str>, outputs: Vec<&str>, op: OpSpec) -> Node {
    Node {
        name: name.to_string(),
        inputs: inputs.into_iter().map(|s| s.to_string()).collect(),
        outputs: outputs.into_iter().map(|s| s.to_string()).collect(),
        op,
    }
}

fn graph(inputs: Vec<&str>, outputs: Vec<&str>, nodes: Vec<Node>) -> Graph {
    Graph {
        schema_version: SCHEMA_VERSION.to_string(),
        num_blocks: 4,
        input_bits: 2,
        inputs: inputs.into_iter().map(|s| s.to_string()).collect(),
        outputs: outputs.into_iter().map(|s| s.to_string()).collect(),
        nodes,
    }
}

fn lut(table: Vec<u64>) -> OpSpec {
    OpSpec::Activation { lut: table, output_bits: 2 }
}

#[test]
fn build_op_rejection_names_the_node() {
    let graph = Graph {
        schema_version: SCHEMA_VERSION.to_string(),
        num_blocks: 4,
        input_bits: 4,
        inputs: vec!["x".to_string()],
        outputs: vec!["y".to_string()],
        nodes: vec![Node {
            name: "layer0".to_string(),
            inputs: vec!["x".to_string()],
            outputs: vec!["y".to_string()],
            op: OpSpec::Add {},
        }],
    };

    let inputs = vec![("x".to_string(), vec![1i64, 2, 3])];

    let err = match evaluate_graph(&RejectingBackend, &EvalCtx::new(&(), 4), &graph, inputs) {
        Err(e) => e,
        Ok(_) => panic!("a rejecting backend must fail the walk"),
    };

    assert!(err.contains("node 'layer0'"), "error must name the offending node: {err}");
    assert!(
        err.contains("unsupported on backend 'stub'"),
        "error must preserve the backend's own message: {err}"
    );
}

#[test]
fn walk_evaluates_nodes_in_order() {
    let g = graph(
        vec!["a", "b"],
        vec!["out"],
        vec![
            node("sum", vec!["a", "b"], vec!["s"], OpSpec::Add {}),
            node("act", vec!["s"], vec!["out"], lut(vec![3, 2, 1, 0])),
        ],
    );
    let inputs = vec![("a".to_string(), vec![0i64, 1]), ("b".to_string(), vec![1i64, 2])];
    let outs = evaluate_graph(&PlainBackend, &EvalCtx::new(&(), 4), &g, inputs).expect("walk succeeds");
    assert_eq!(outs.len(), 1);
    assert_eq!(outs.get("out"), Some(&vec![2i64, 0]));
}

#[test]
fn walk_fuses_activation_chains_before_evaluating() {
    let g = graph(
        vec!["x"],
        vec!["z"],
        vec![
            node("a1", vec!["x"], vec!["y"], lut(vec![1, 2, 3, 0])),
            node("a2", vec!["y"], vec!["z"], lut(vec![3, 2, 1, 0])),
        ],
    );
    let outs = evaluate_graph(&PlainBackend, &EvalCtx::new(&(), 4), &g, vec![("x".to_string(), vec![0i64, 1, 2, 3])])
        .expect("walk succeeds");
    assert_eq!(outs.get("z"), Some(&vec![2i64, 1, 0, 3]));
}

#[test]
fn walk_refuses_mismatched_inputs() {
    let g = graph(vec!["x"], vec!["y"], vec![node("a", vec!["x"], vec!["y"], lut(vec![0, 1, 2, 3]))]);
    let err = match evaluate_graph(&PlainBackend, &EvalCtx::new(&(), 4), &g, vec![("w".to_string(), vec![0i64])]) {
        Err(e) => e,
        Ok(_) => panic!("mismatched inputs must fail"),
    };
    assert_eq!(err, "graph inputs [\"x\"] do not match the provided input tensors [\"w\"]");
}

#[test]
fn walk_refuses_a_read_of_an_unproduced_tensor() {
    let g = graph(vec!["x"], vec!["y"], vec![node("a", vec!["q"], vec!["y"], lut(vec![0, 1, 2, 3]))]);
    let err = match evaluate_graph(&PlainBackend, &EvalCtx::new(&(), 4), &g, vec![("x".to_string(), vec![0i64])]) {
        Err(e) => e,
        Ok(_) => panic!("an unproduced tensor must fail"),
    };
    assert_eq!(
        err,
        "node 'a' reads tensor 'q', which no earlier node produced and is not a graph input \u{2014} node order is not a valid topological order"
    );
}

#[test]
fn walk_refuses_overwrite_and_missing_outputs() {
    let g = graph(vec!["x"], vec!["x"], vec![node("a", vec!["x"], vec!["x"], lut(vec![0, 1, 2, 3]))]);
    let err = match evaluate_graph(&PlainBackend, &EvalCtx::new(&(), 4), &g, vec![("x".to_string(), vec![0i64])]) {
        Err(e) => e,
        Ok(_) => panic!("an overwrite must fail"),
    };
    assert_eq!(
        err,
        "node 'a' writes tensor 'x', which already exists \u{2014} tensor names must be unique (no silent overwrite)"
    );
    let g = graph(vec!["x"], vec!["nowhere"], vec![node("a", vec!["x"], vec!["y"], lut(vec![0, 1, 2, 3]))]);
    let err = match evaluate_graph(&PlainBackend, &EvalCtx::new(&(), 4), &g, vec![("x".to_string(), vec![0i64])]) {
        Err(e) => e,
        Ok(_) => panic!("a missing output must fail"),
    };
    assert_eq!(err, "graph declares output 'nowhere' but no node produced it");
}

#[test]
fn walk_refuses_node_without_inputs_or_with_two_outputs() {
    let g = graph(vec!["x"], vec!["y"], vec![node("a", vec![], vec!["y"], lut(vec![0, 1, 2, 3]))]);
    let err = match evaluate_graph(&PlainBackend, &EvalCtx::new(&(), 4), &g, vec![("x".to_string(), vec![0i64])]) {
        Err(e) => e,
        Ok(_) => panic!("a node without inputs must fail"),
    };
    assert_eq!(err, "node 'a' (Activation) has no inputs");
    let g = graph(vec!["x"], vec!["y"], vec![node("a", vec!["x"], vec!["y", "z"], lut(vec![0, 1, 2, 3]))]);
    let err = match evaluate_graph(&PlainBackend, &EvalCtx::new(&(), 4), &g, vec![("x".to_string(), vec![0i64])]) {
        Err(e) => e,
        Ok(_) => panic!("two outputs must fail"),
    };
    assert_eq!(err, "node 'a' (Activation) declares 2 outputs; the current ops produce one output tensor");
}

#[test]
fn evaluate_threads_a_chain() {
    let ops: Vec<Box<dyn Op<i64, ()>>> = vec![Box::new(PlainLut(vec![1, 2, 3, 0])), Box::new(PlainLut(vec![1, 2, 3, 0]))];
    let out = evaluate::<PlainBackend>(&EvalCtx::new(&(), 4), &ops, vec![0i64, 3]);
    assert_eq!(out, vec![2i64, 1]);
    let none: Vec<Box<dyn Op<i64, ()>>> = Vec::new();
    assert_eq!(evaluate::<PlainBackend>(&EvalCtx::new(&(), 4), &none, vec![5i64]), vec![5i64]);
}

#[test]
fn chain_budget_names_the_first_op_over_capacity() {
    let ops: Vec<Box<dyn Op<i64, ()>>> = vec![Box::new(PlainAdd), Box::new(PlainAdd), Box::new(PlainAdd)];
    // Widths 3, 4, 5 against a capacity of 2 blocks x 2 bits = 4.
    let err = check_bit_width_budget::<PlainBackend>(&ops, 2, 2).unwrap_err();
    assert_eq!(
        err,
        "bit-width budget exceeded at op #2: requires 5 bits but the radix holds only 4 (2 blocks \u{d7} 2 bits). Reduce precision or widen num_blocks (a Requant here is Phase 4)."
    );
    assert!(check_bit_width_budget::<PlainBackend>(&ops, 2, 3).is_ok());
    assert!(chain_budget_verdict(&[1, 2, 3], 2).is_ok());
    assert!(chain_budget_verdict(&[5, 1], 2).unwrap_err().contains("op #0: requires 5 bits"));
}

/// A clock that advances by one nanosecond per reading.
struct TickClock(std::cell::Cell<u128>);

impl Clock for TickClock {
    fn now_nanos(&self) -> u128 {
        let t = self.0.get();
        self.0.set(t + 1);
        t
    }
}

#[test]
fn profiled_walk_records_each_node() {
    let g = graph(
        vec!["a", "b"],
        vec!["out"],
        vec![
            node("sum", vec!["a", "b"], vec!["s"], OpSpec::Add {}),
            node("act", vec!["s"], vec!["out"], lut(vec![3, 2, 1, 0])),
        ],
    );
    let inputs = vec![("a".to_string(), vec![0i64, 1]), ("b".to_string(), vec![1i64, 2])];
    let mut profile = GraphProfile { backend: "", total: 0, nodes: Vec::new() };
    let clock = TickClock(std::cell::Cell::new(0));
    let outs = evaluate_graph_profiled(&PlainBackend, &EvalCtx::new(&(), 4), &g, inputs, &clock, &mut profile)
        .expect("walk succeeds");
    assert_eq!(outs.get("out"), Some(&vec![2i64, 0]));
    assert_eq!(profile.backend, "plain");
    assert_eq!(profile.op_types(), vec!["Add", "Activation"]);
    assert_eq!(profile.nodes[0].name, "sum");
    assert_eq!(profile.nodes[0].input_lens, vec![2, 2]);
    assert_eq!(profile.nodes[1].counters, vec![("pbs", 1)]);
    assert_eq!(profile.nodes[1].output_len, 2);
    assert!(profile.total > 0);
    assert_eq!(profile.counter_totals().get("pbs"), Some(&1));
}

#[test]
fn session_runs_a_single_input_graph() {
    let g = graph(vec!["x"], vec!["y"], vec![node("a", vec!["x"], vec!["y"], lut(vec![1, 2, 3, 0]))]);
    let clock = TickClock(std::cell::Cell::new(0));
    let session = Session::new(PlainBackend, &g, &clock).expect("keys");
    assert_eq!(session.num_blocks, 4);
    let cts = session.encrypt(&[0, 3]);
    let (out, profile) = session.eval(&g, &cts, &clock).expect("eval");
    assert_eq!(session.decrypt(&out), vec![1, 0]);
    assert_eq!(profile.nodes.len(), 1);
    assert_eq!(session.ct_bytes(&out), Ok(0));
    assert_eq!(session.key_bytes(), Ok((0, 0)));
    let two = graph(vec!["x", "z"], vec!["y"], vec![]);
    let err = match session.eval(&two, &cts, &clock) {
        Err(e) => e,
        Ok(_) => panic!("two inputs must be refused"),
    };
    assert_eq!(err, "Session::eval expects single-input graph; got 2 inputs: [\"x\", \"z\"]");
}

#[test]
fn session_refuses_a_graph_without_one_output() {
    let g = graph(vec!["x"], vec!["y"], vec![node("a", vec!["x"], vec!["y"], lut(vec![1, 2, 3, 0]))]);
    let clock = TickClock(std::cell::Cell::new(0));
    let session = Session::new(PlainBackend, &g, &clock).expect("keys");
    let cts = session.encrypt(&[2]);
    let (out, _) = session.eval(&g, &cts, &clock).expect("eval");
    assert_eq!(session.decrypt_label(&out), 3);
    let no_out = graph(vec!["x"], vec![], vec![]);
    let err = match session.eval(&no_out, &cts, &clock) {
        Err(e) => e,
        Ok(_) => panic!("a graph without one output must be refused"),
    };
    assert_eq!(err, "Session::eval expects single-output graph; got 0 outputs: []");
}

#[test]
fn bridge_evaluates_a_batch_row_by_row() {
    let g = graph(vec!["x"], vec!["y"], vec![node("a", vec!["x"], vec!["y"], lut(vec![1, 2, 3, 0]))]);
    let batch = vec![vec![0i64, 1], vec![3i64], vec![]];
    let out = run_evaluate_batch(&PlainBackend, &g, &(), batch).expect("batch");
    assert_eq!(out, vec![vec![1i64, 2], vec![0i64], vec![]]);
    let empty = run_evaluate_batch(&PlainBackend, &g, &(), Vec::new()).expect("empty batch");
    assert!(empty.is_empty());
}

#[test]
fn bridge_predicts_cleartext_rows() {
    let g = graph(vec!["x"], vec!["y"], vec![node("a", vec!["x"], vec!["y"], lut(vec![3, 2, 1, 0]))]);
    let out = run_predict(&PlainBackend, &g, &[vec![0, 1], vec![2, 3]]).expect("predict");
    assert_eq!(out, vec![vec![3i64, 2], vec![1i64, 0]]);
}

#[test]
fn bridge_refuses_graphs_without_one_input_and_one_output() {
    let two_in = graph(vec!["x", "z"], vec!["y"], vec![]);
    let err = run_evaluate_batch(&PlainBackend, &two_in, &(), Vec::new()).unwrap_err();
    assert_eq!(
        err,
        "evaluate expects a single-input graph, got 2 inputs [\"x\", \"z\"]; multi-input graphs are not yet supported by the bridge"
    );
    let err = run_predict(&PlainBackend, &two_in, &[]).unwrap_err();
    assert_eq!(
        err,
        "predict expects a single-input graph, got 2 inputs [\"x\", \"z\"]; multi-input graphs are not yet supported by the bridge"
    );
    let no_out = graph(vec!["x"], vec![], vec![]);
    let err = run_evaluate_batch(&PlainBackend, &no_out, &(), Vec::new()).unwrap_err();
    assert_eq!(err, "evaluate expects a single-output graph, got 0 outputs []");
    let err = run_predict(&PlainBackend, &no_out, &[]).unwrap_err();
    assert_eq!(err, "predict expects a single-output graph, got 0 outputs []");
}

#[test]
fn bridge_names_the_failing_sample() {
    let g = graph(vec!["x"], vec!["y"], vec![node("a", vec!["x"], vec!["y"], OpSpec::Argmax { threshold: 0 })]);
    let err = run_evaluate_batch(&PlainBackend, &g, &(), vec![vec![1i64]]).unwrap_err();
    assert_eq!(
        err,
        "evaluating sample 0: node 'a': operator Argmax is unsupported on backend 'plain'"
    );
    let ok = graph(vec!["x"], vec!["y"], vec![node("a", vec!["x"], vec!["y"], lut(vec![0, 1, 2, 3]))]);
    let out = evaluate_rows(&PlainBackend, &EvalCtx::new(&(), 4), &ok, vec![vec![2i64], vec![1i64]]).expect("rows");
    assert_eq!(out, vec![vec![2i64], vec![1i64]]);
    let broken = graph(vec!["x"], vec!["y"], vec![node("a", vec!["q"], vec!["y"], lut(vec![0, 1, 2, 3]))]);
    let err = run_predict(&PlainBackend, &broken, &[vec![0], vec![1]]).unwrap_err();
    assert!(err.starts_with("evaluating sample 0: node 'a' reads tensor 'q'"), "{err}");
}

#[test]
fn build_refusal_keeps_the_backend_message() {
    let g = graph(vec!["x"], vec!["y"], vec![node("layer0", vec!["x"], vec!["y"], OpSpec::Add {})]);
    let err = match evaluate_graph(&RejectingBackend, &EvalCtx::new(&(), 4), &g, vec![("x".to_string(), vec![1i64, 2, 3])]) {
        Err(e) => e,
        Ok(_) => panic!("a rejecting backend must fail the walk"),
    };
    assert_eq!(err, "node 'layer0': operator Add is unsupported on backend 'stub'");
}

#[test]
fn chain_budget_hands_each_op_the_previous_width() {
    // Widths 3, 4, 5 from input 2: the chain is refused at its third op only
    // when each op sees the previous op's output.
    let ops: Vec<Box<dyn Op<i64, ()>>> = vec![Box::new(PlainAdd), Box::new(PlainAdd), Box::new(PlainAdd)];
    let err = check_bit_width_budget::<PlainBackend>(&ops, 2, 2).unwrap_err();
    assert!(err.starts_with("bit-width budget exceeded at op #2: requires 5 bits"), "{err}");
    assert!(check_bit_width_budget::<PlainBackend>(&ops, 1, 2).is_ok());
}
