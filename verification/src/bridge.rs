//! In-process inference over batches of rows: the checks and per-sample loops
//! behind the Python-facing entry points.

use vstd::prelude::*;

use crate::backend::{Backend, EvalCtx, Tensor};
use crate::bitwidth::propagate_defined;
use crate::eval::{
    clone_of, debug_list, debug_list_text, graph_run, input_values, provided_names, run_values, walk_env,
    walked_graph, NoClock,
};
use crate::profile::GraphProfile;
use crate::ir::{cat, names, Graph, GraphModel};
use crate::optimize::{first_fusion, lemma_optimize_shape, optimize_defined, optimize_spec};
use crate::text::{dec, usize_text};

verus! {

/// The refusal of a graph without exactly one input by the entry point `entry`.
pub open spec fn single_input_refusal(entry: Seq<char>, inputs: Seq<Seq<char>>) -> Seq<char> {
    entry + " expects a single-input graph, got "@ + dec(inputs.len()) + " inputs "@
        + debug_list_text(inputs) + "; multi-input graphs are not yet supported by the bridge"@
}

/// The refusal of a graph without exactly one output by the entry point `entry`.
pub open spec fn single_output_refusal(entry: Seq<char>, outputs: Seq<Seq<char>>) -> Seq<char> {
    entry + " expects a single-output graph, got "@ + dec(outputs.len()) + " outputs "@
        + debug_list_text(outputs)
}

/// What leads the refusal of the `i`-th sample of a batch.
pub open spec fn sample_prefix(i: nat) -> Seq<char> {
    "evaluating sample "@ + dec(i) + ": "@
}

/// What the walker makes of a single-input graph run on its one input tensor:
/// the tensors at the end, or its refusal. It does not depend on the tensor's
/// values, so every sample of a batch has the same outcome.
pub open spec fn sample_outcome<B: Backend>(b: &B, graph: GraphModel) -> Result<Set<Seq<char>>, Seq<char>> {
    graph_run(b, graph, graph.inputs.to_set())
}

/// The value a single-input, single-output graph computes from `row`: its one
/// output, once the walker has run it with its one input bound to `row`,
/// under server key `sk` at `num_blocks` radix blocks.
pub open spec fn sample_value<B: Backend>(
    b: &B,
    graph: GraphModel,
    sk: B::ServerKey,
    num_blocks: usize,
    row: Tensor<B::Ciphertext>,
) -> Tensor<B::Ciphertext> {
    run_values(b, graph, sk, num_blocks, Map::empty().insert(graph.inputs[0], row))[graph.outputs[0]]
}

/// Whether `out` is what the forward pass yields for the cleartext `row`
/// under the key pair `(ck, sk)`: `row` encrypted as `ct`, the graph run on it
/// at the graph's radix width giving a clone `p` of its output, and `out` that
/// clone decrypted.
pub open spec fn predicted_row<B: Backend>(
    b: &B,
    graph: GraphModel,
    ck: B::ClientKey,
    sk: B::ServerKey,
    row: Seq<i64>,
    ct: Tensor<B::Ciphertext>,
    p: Tensor<B::Ciphertext>,
    out: Seq<i64>,
) -> bool {
    &&& b.encrypts(ck, row, ct)
    &&& clone_of(sample_value(b, graph, sk, graph.num_blocks, ct), p)
    &&& out == b.values_of(ck, p)
}

/// Whether `out` is what the forward pass yields for `rows` under the key pair
/// `(ck, sk)` made for the graph's radix width, row by row as `predicted_row` says, with `cts` the encrypted
/// rows and `ps` the graph's outputs on them.
pub open spec fn predicted_rows<B: Backend>(
    b: &B,
    graph: GraphModel,
    ck: B::ClientKey,
    sk: B::ServerKey,
    rows: Seq<Vec<i64>>,
    cts: Seq<Tensor<B::Ciphertext>>,
    ps: Seq<Tensor<B::Ciphertext>>,
    out: Seq<Vec<i64>>,
) -> bool {
    &&& b.key_pair(ck, sk, graph.num_blocks)
    &&& cts.len() == out.len()
    &&& ps.len() == out.len()
    &&& out.len() <= rows.len()
    &&& forall|i: int|
        0 <= i < out.len() ==> #[trigger] predicted_row(b, graph, ck, sk, rows[i]@, cts[i], ps[i], out[i]@)
}

/// The outcome of running `n` samples of a single-input graph: each result
/// once per sample when the walk succeeds, else the refusal of sample 0; no
/// samples always succeed.
pub open spec fn batch_outcome<B: Backend, T>(b: &B, graph: GraphModel, n: nat, r: Result<Vec<T>, String>) -> bool {
    if n == 0 {
        r matches Ok(out) && out@.len() == 0
    } else {
        match sample_outcome(b, graph) {
            Ok(_) => r matches Ok(out) && out@.len() == n,
            Err(e) => r matches Err(x) && x@ == sample_prefix(0) + e,
        }
    }
}

/// Refuse a graph that does not have exactly one input and one output.
fn check_single_io(entry: &str, graph: &Graph) -> (r: Result<(), String>)
    ensures
        graph.inputs@.len() != 1 ==> (r matches Err(e) && e@ == single_input_refusal(
            entry@,
            names(graph.inputs@),
        )),
        graph.inputs@.len() == 1 && graph.outputs@.len() != 1 ==> (r matches Err(e) && e@
            == single_output_refusal(entry@, names(graph.outputs@))),
        graph.inputs@.len() == 1 && graph.outputs@.len() == 1 ==> r is Ok,
{
    if graph.inputs.len() != 1 {
        let m = cat(String::from_str(entry), " expects a single-input graph, got ");
        let m = cat(m, usize_text(graph.inputs.len()).as_str());
        let m = cat(m, " inputs ");
        let m = cat(m, debug_list(&graph.inputs).as_str());
        return Err(cat(m, "; multi-input graphs are not yet supported by the bridge"));
    }
    if graph.outputs.len() != 1 {
        let m = cat(String::from_str(entry), " expects a single-output graph, got ");
        let m = cat(m, usize_text(graph.outputs.len()).as_str());
        let m = cat(m, " outputs ");
        return Err(cat(m, debug_list(&graph.outputs).as_str()));
    }
    Ok(())
}

/// Run sample `i` of a batch through the walker: bind `row` to the graph's one
/// input and return its one output tensor.
fn evaluate_sample<B: Backend>(
    backend: &B,
    ctx: &EvalCtx<B::ServerKey>,
    graph: &Graph,
    row: Vec<B::Ciphertext>,
    i: usize,
) -> (r: Result<Vec<B::Ciphertext>, String>)
    requires
        graph.inputs@.len() == 1,
        graph.outputs@.len() == 1,
        optimize_defined(graph@, graph@.nodes.len()),
        first_fusion(graph@, 0) is Some ==> propagate_defined(optimize_spec(graph@)),
    ensures
        match sample_outcome(backend, graph@) {
            Ok(_) => r matches Ok(o) && clone_of(
                sample_value(backend, graph@, *ctx.sk, ctx.num_blocks, row@),
                o@,
            ),
            Err(e) => r matches Err(x) && x@ == sample_prefix(i as nat) + e,
        },
{
    let ghost value = row@;
    let input_name = graph.inputs[0].clone();
    let mut env: Vec<(String, Vec<B::Ciphertext>)> = Vec::new();
    env.push((input_name, row));
    proof {
        assert(provided_names(env@) =~= names(graph.inputs@));
        assert(env@.drop_first() =~= Seq::<(String, Vec<B::Ciphertext>)>::empty());
        assert(input_values(env@.drop_first()) == Map::<Seq<char>, Tensor<B::Ciphertext>>::empty());
        assert(env@[0].0@ == graph@.inputs[0]);
        assert(env@[0].1@ == value);
        assert(input_values(env@) =~= Map::<Seq<char>, Tensor<B::Ciphertext>>::empty().insert(graph@.inputs[0], value));
    }
    let mut unused = GraphProfile { backend: "", total: 0, nodes: Vec::new() };
    let (outputs, _) = match walk_env(backend, ctx, graph, env, &NoClock, &mut unused, false) {
        Ok(o) => o,
        Err(e) => {
            let m = cat(String::from_str("evaluating sample "), usize_text(i).as_str());
            let m = cat(m, ": ");
            let m = cat(m, e.as_str());
            return Err(m);
        },
    };
    let output_name = &graph.outputs[0];
    proof {
        lemma_optimize_shape(graph@);
        assert(walked_graph(graph@).outputs == graph@.outputs);
        assert(graph@.outputs[0] == output_name@);
        assert(graph@.outputs.to_set().contains(output_name@));
    }
    match outputs.get(output_name.as_str()) {
        Some(out) => Ok(out.clone()),
        None => {
            let m = cat(String::from_str("sample "), usize_text(i).as_str());
            let m = cat(m, ": graph did not produce output '");
            let m = cat(m, output_name.as_str());
            Err(cat(m, "'"))
        },
    }
}

/// Evaluate each row of a batch in turn on a single-input, single-output graph,
/// collecting the output tensors in row order. The first sample whose walk
/// fails ends the batch with its refusal, prefixed by the sample's index.
#[verifier::loop_isolation(false)]
pub fn evaluate_rows<B: Backend>(
    backend: &B,
    ctx: &EvalCtx<B::ServerKey>,
    graph: &Graph,
    batch: Vec<Vec<B::Ciphertext>>,
) -> (r: Result<Vec<Vec<B::Ciphertext>>, String>)
    requires
        graph.inputs@.len() == 1,
        graph.outputs@.len() == 1,
        optimize_defined(graph@, graph@.nodes.len()),
        first_fusion(graph@, 0) is Some ==> propagate_defined(optimize_spec(graph@)),
    ensures
        r matches Ok(out) ==> out@.len() == batch@.len(),
        r matches Ok(out) ==> forall|i: int|
            0 <= i < out@.len() ==> clone_of(
                sample_value(backend, graph@, *ctx.sk, ctx.num_blocks, batch@[i]@),
                (#[trigger] out@[i])@,
            ),
        batch@.len() == 0 ==> r is Ok,
        batch@.len() > 0 ==> match sample_outcome(backend, graph@) {
            Ok(_) => r is Ok,
            Err(e) => r matches Err(x) && x@ == sample_prefix(0) + e,
        },
{
    let ghost all = batch@;
    let n = batch.len();
    assert(all.len() == n);
    let mut rest = batch;
    let mut out: Vec<Vec<B::Ciphertext>> = Vec::new();
    let mut i: usize = 0;
    while rest.len() > 0
        invariant
            all == batch@,
            all.len() <= usize::MAX,
            i <= all.len(),
            rest@ == all.subrange(i as int, all.len() as int),
            out@.len() == i,
            forall|j: int|
                0 <= j < i ==> clone_of(
                    sample_value(backend, graph@, *ctx.sk, ctx.num_blocks, all[j]@),
                    (#[trigger] out@[j])@,
                ),
            i > 0 ==> sample_outcome(backend, graph@) is Ok,
            graph.inputs@.len() == 1,
            graph.outputs@.len() == 1,
            optimize_defined(graph@, graph@.nodes.len()),
            first_fusion(graph@, 0) is Some ==> propagate_defined(optimize_spec(graph@)),
        decreases rest@.len(),
    {
        assert(rest@.len() == all.len() - i);
        let row = rest.remove(0);
        match evaluate_sample(backend, ctx, graph, row, i) {
            Ok(o) => out.push(o),
            Err(e) => {
                return Err(e);
            },
        }
        i = i + 1;
    }
    Ok(out)
}

/// Evaluate a batch of encrypted rows under the public server key `sk`: refuse
/// a graph without exactly one input and one output, run the backend's budget
/// preflight (whose refusal is the backend's own), then evaluate each row in
/// turn as `evaluate_rows` does.
pub fn run_evaluate_batch<B: Backend>(
    backend: &B,
    graph: &Graph,
    sk: &B::ServerKey,
    batch: Vec<Vec<B::Ciphertext>>,
) -> (r: Result<Vec<Vec<B::Ciphertext>>, String>)
    requires
        optimize_defined(graph@, graph@.nodes.len()),
        first_fusion(graph@, 0) is Some ==> propagate_defined(optimize_spec(graph@)),
    ensures
        graph.inputs@.len() != 1 ==> (r matches Err(e) && e@ == single_input_refusal(
            "evaluate"@,
            names(graph.inputs@),
        )),
        graph.inputs@.len() == 1 && graph.outputs@.len() != 1 ==> (r matches Err(e) && e@
            == single_output_refusal("evaluate"@, names(graph.outputs@))),
        r matches Ok(out) ==> graph.inputs@.len() == 1 && graph.outputs@.len() == 1
            && out@.len() == batch@.len(),
        r matches Ok(out) ==> forall|i: int|
            0 <= i < out@.len() ==> clone_of(
                sample_value(backend, graph@, *sk, graph.num_blocks, batch@[i]@),
                (#[trigger] out@[i])@,
            ),
        graph.inputs@.len() == 1 && graph.outputs@.len() == 1 ==> match backend.budget_refusal(graph@) {
            Some(e) => r matches Err(x) && x@ == e@,
            None => batch_outcome(backend, graph@, batch@.len(), r),
        },
{
    match check_single_io("evaluate", graph) {
        Ok(()) => {},
        Err(e) => {
            return Err(e);
        },
    }
    match backend.check_graph_budget(graph) {
        Ok(()) => {},
        Err(e) => {
            return Err(e);
        },
    }
    let ctx = EvalCtx::new(sk, graph.num_blocks);
    evaluate_rows(backend, &ctx, graph, batch)
}

/// The all-in-one forward pass over cleartext rows: refuse a graph without
/// exactly one input and one output, run the backend's budget preflight,
/// generate one key pair for the graph's radix width, then encrypt, evaluate
/// and decrypt each row in turn. A failing sample ends the run with its
/// refusal, prefixed by the sample's index.
pub fn run_predict<B: Backend>(backend: &B, graph: &Graph, rows: &[Vec<i64>]) -> (r: Result<
    Vec<Vec<i64>>,
    String,
>)
    requires
        optimize_defined(graph@, graph@.nodes.len()),
        first_fusion(graph@, 0) is Some ==> propagate_defined(optimize_spec(graph@)),
    ensures
        graph.inputs@.len() != 1 ==> (r matches Err(e) && e@ == single_input_refusal(
            "predict"@,
            names(graph.inputs@),
        )),
        graph.inputs@.len() == 1 && graph.outputs@.len() != 1 ==> (r matches Err(e) && e@
            == single_output_refusal("predict"@, names(graph.outputs@))),
        r matches Ok(out) ==> graph.inputs@.len() == 1 && graph.outputs@.len() == 1
            && out@.len() == rows@.len(),
        r matches Ok(out) ==> exists|
            ck: B::ClientKey,
            sk: B::ServerKey,
            cts: Seq<Tensor<B::Ciphertext>>,
            ps: Seq<Tensor<B::Ciphertext>>,
        | #[trigger] predicted_rows(backend, graph@, ck, sk, rows@, cts, ps, out@),
        graph.inputs@.len() == 1 && graph.outputs@.len() == 1 ==> match backend.budget_refusal(graph@) {
            Some(e) => r matches Err(x) && x@ == e@,
            None => batch_outcome(backend, graph@, rows@.len(), r),
        },
{
    match check_single_io("predict", graph) {
        Ok(()) => {},
        Err(e) => {
            return Err(e);
        },
    }
    match backend.check_graph_budget(graph) {
        Ok(()) => {},
        Err(e) => {
            return Err(e);
        },
    }
    let (ck, sk) = backend.keygen(graph.num_blocks);
    let ctx = EvalCtx::new(&sk, graph.num_blocks);
    let mut outputs: Vec<Vec<i64>> = Vec::new();
    let ghost mut cts_seen: Seq<Tensor<B::Ciphertext>> = Seq::empty();
    let ghost mut ps_seen: Seq<Tensor<B::Ciphertext>> = Seq::empty();
    let mut i: usize = 0;
    while i < rows.len()
        invariant
            i <= rows@.len(),
            outputs@.len() == i,
            predicted_rows(backend, graph@, ck, sk, rows@, cts_seen, ps_seen, outputs@),
            *ctx.sk == sk,
            ctx.num_blocks == graph.num_blocks,
            i > 0 ==> sample_outcome(backend, graph@) is Ok,
            backend.budget_refusal(graph@) is None,
            graph.inputs@.len() == 1,
            graph.outputs@.len() == 1,
            optimize_defined(graph@, graph@.nodes.len()),
            first_fusion(graph@, 0) is Some ==> propagate_defined(optimize_spec(graph@)),
        decreases rows@.len() - i,
    {
        let cts = backend.encrypt(&ck, rows[i].as_slice());
        let ghost encrypted = cts@;
        let produced = match evaluate_sample(backend, &ctx, graph, cts, i) {
            Ok(p) => p,
            Err(e) => {
                return Err(e);
            },
        };
        let ghost old_outputs = outputs@;
        outputs.push(backend.decrypt_vec(&ck, produced.as_slice()));
        proof {
            let old_cts = cts_seen;
            let old_ps = ps_seen;
            cts_seen = cts_seen.push(encrypted);
            ps_seen = ps_seen.push(produced@);
            assert forall|j: int| 0 <= j < outputs@.len() implies #[trigger] predicted_row(
                backend,
                graph@,
                ck,
                sk,
                rows@[j]@,
                cts_seen[j],
                ps_seen[j],
                outputs@[j]@,
            ) by {
                if j < i {
                    assert(outputs@[j] == old_outputs[j]);
                    assert(cts_seen[j] == old_cts[j]);
                    assert(ps_seen[j] == old_ps[j]);
                } else {
                    assert(cts_seen[j] == encrypted);
                    assert(ps_seen[j] == produced@);
                }
            }
            assert(predicted_rows(backend, graph@, ck, sk, rows@, cts_seen, ps_seen, outputs@));
        }
        i = i + 1;
    }
    let res: Result<Vec<Vec<i64>>, String> = Ok(outputs);
    assert(predicted_rows(backend, graph@, ck, sk, rows@, cts_seen, ps_seen, res->Ok_0@));
    res
}

} // verus!
