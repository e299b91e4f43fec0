//! The graph walker: evaluates a graph under FHE by building each node's op on
//! the active backend and dispatching it over the tensors computed so far.

use vstd::hash_map::StringHashMap;
use vstd::prelude::*;

use crate::backend::{tensors_of, Backend, EvalCtx, Op, Tensor};
use crate::bitwidth::{propagate_defined, propagate_spec};
use crate::ir::{cat, debug_str, debug_text, names, op_type_name, Graph, GraphModel, NodeModel};
use crate::optimize::{first_fusion, optimize_defined, optimize_graph, optimize_spec, Cow};
use crate::profile::{GraphProfile, NodeProfile};
use crate::seqs::{first_where, lemma_first_where, lemma_first_where_at, lemma_first_where_none};
use crate::text::{dec, str_eq, usize_text};

verus! {

/// The tensor the first `n` ops of a chain compute from `input`, each op
/// applied to the previous op's output.
pub open spec fn chain_value<Ct, Sk>(
    ops: Seq<Box<dyn Op<Ct, Sk>>>,
    sk: Sk,
    num_blocks: usize,
    input: Tensor<Ct>,
    n: nat,
) -> Tensor<Ct>
    decreases n,
{
    if n == 0 {
        input
    } else {
        ops[n - 1].eval_n_spec(sk, num_blocks, seq![chain_value(ops, sk, num_blocks, input, (n - 1) as nat)])
    }
}

/// Evaluate a linear chain of ops over an encrypted input, threading each op's
/// output into the next; returns the last output (the input itself for no ops).
pub fn evaluate<B: Backend>(
    ctx: &EvalCtx<B::ServerKey>,
    ops: &[Box<dyn Op<B::Ciphertext, B::ServerKey>>],
    input: Vec<B::Ciphertext>,
) -> (r: Vec<B::Ciphertext>)
    ensures
        ops@.len() == 0 ==> r == input,
        r@ == chain_value(ops@, *ctx.sk, ctx.num_blocks, input@, ops@.len()),
{
    let mut acc = input;
    let mut i: usize = 0;
    while i < ops.len()
        invariant
            i <= ops@.len(),
            i == 0 ==> acc == input,
            acc@ == chain_value(ops@, *ctx.sk, ctx.num_blocks, input@, i as nat),
        decreases ops@.len() - i,
    {
        acc = ops[i].eval(ctx, &acc);
        i = i + 1;
    }
    acc
}

/// The `{:?}` forms of the strings, joined with `", "`.
pub open spec fn debug_items(v: Seq<Seq<char>>) -> Seq<char>
    decreases v.len(),
{
    if v.len() == 0 {
        seq![]
    } else if v.len() == 1 {
        debug_text(v[0])
    } else {
        debug_items(v.drop_last()) + ", "@ + debug_text(v.last())
    }
}

/// What `{:?}` writes for a list of strings: each string's `{:?}` form,
/// separated by `", "`, in square brackets.
pub open spec fn debug_list_text(v: Seq<Seq<char>>) -> Seq<char> {
    "["@ + debug_items(v) + "]"@
}

/// Formats a list of strings as `{:?}` does.
pub(crate) fn debug_list(v: &Vec<String>) -> (r: String)
    ensures
        r@ == debug_list_text(names(v@)),
{
    let mut out = String::from_str("[");
    let mut j: usize = 0;
    while j < v.len()
        invariant
            j <= v@.len(),
            out@ == "["@ + debug_items(names(v@).take(j as int)),
        decreases v@.len() - j,
    {
        assert(names(v@).take(j + 1).drop_last() =~= names(v@).take(j as int));
        assert(names(v@)[j as int] == v@[j as int]@);
        if j > 0 {
            out = cat(out, ", ");
        } else {
            assert(names(v@).take(1) =~= seq![names(v@)[0]]);
        }
        out = cat(out, debug_str(v[j].as_str()).as_str());
        assert(out@ =~= "["@ + debug_items(names(v@).take(j + 1)));
        j = j + 1;
    }
    assert(names(v@).take(v@.len() as int) =~= names(v@));
    cat(out, "]")
}

/// A tensor that is not among `env`.
pub open spec fn absent_from(env: Set<Seq<char>>) -> spec_fn(Seq<char>) -> bool {
    |t: Seq<char>| !env.contains(t)
}

/// The prefix that names a node in a refusal.
pub open spec fn node_prefix(node: NodeModel) -> Seq<char> {
    "node '"@ + node.name
}

/// The refusal of a node with no inputs.
pub open spec fn no_inputs_msg(node: NodeModel) -> Seq<char> {
    node_prefix(node) + "' ("@ + op_type_name(node.op) + ") has no inputs"@
}

/// The refusal of a node that reads a tensor nothing produced.
pub open spec fn unread_msg(node: NodeModel, t: Seq<char>) -> Seq<char> {
    node_prefix(node) + "' reads tensor '"@ + t
        + "', which no earlier node produced and is not a graph input \u{2014} node order is not a valid topological order"@
}

/// The refusal of a node that does not declare exactly one output.
pub open spec fn outputs_count_msg(node: NodeModel) -> Seq<char> {
    node_prefix(node) + "' ("@ + op_type_name(node.op) + ") declares "@ + dec(node.outputs.len())
        + " outputs; the current ops produce one output tensor"@
}

/// The refusal of a node that would overwrite an existing tensor.
pub open spec fn overwrite_msg(node: NodeModel, t: Seq<char>) -> Seq<char> {
    node_prefix(node) + "' writes tensor '"@ + t
        + "', which already exists \u{2014} tensor names must be unique (no silent overwrite)"@
}

/// The refusal when a declared graph output was never produced.
pub open spec fn missing_output_msg(t: Seq<char>) -> Seq<char> {
    "graph declares output '"@ + t + "' but no node produced it"@
}

/// The refusal when the provided inputs are not the declared ones.
pub open spec fn input_mismatch_msg(declared: Seq<Seq<char>>, provided: Seq<Seq<char>>) -> Seq<char> {
    "graph inputs "@ + debug_list_text(declared) + " do not match the provided input tensors "@
        + debug_list_text(provided)
}

/// The refusal of a node whose op the backend does not build: the node's name,
/// then the backend's own message `e`.
pub open spec fn build_refusal_msg(node: NodeModel, e: Seq<char>) -> Seq<char> {
    node_prefix(node) + "': "@ + e
}

/// The walker's own refusal of a node, given the tensors that exist before it.
pub open spec fn node_refusal(node: NodeModel, env: Set<Seq<char>>) -> Option<Seq<char>> {
    if node.inputs.len() == 0 {
        Some(no_inputs_msg(node))
    } else {
        match first_where(node.inputs, absent_from(env)) {
            Some(i) => Some(unread_msg(node, node.inputs[i])),
            None => if node.outputs.len() != 1 {
                Some(outputs_count_msg(node))
            } else if env.contains(node.outputs[0]) {
                Some(overwrite_msg(node, node.outputs[0]))
            } else {
                None
            },
        }
    }
}

/// The walk of the nodes from `k` on over the tensors `env`, as the walker does
/// it node by node: the backend builds the node's op (or refuses it), then the
/// walker checks the node's inputs and output. The result is the set of tensors
/// at the end, or the first refusal.
pub open spec fn walk_from<B: Backend>(
    b: &B,
    nodes: Seq<NodeModel>,
    k: nat,
    env: Set<Seq<char>>,
) -> Result<Set<Seq<char>>, Seq<char>>
    decreases nodes.len() - k,
{
    if k >= nodes.len() {
        Ok(env)
    } else {
        let node = nodes[k as int];
        if !b.build_accepts(node.op) {
            Err(build_refusal_msg(node, b.build_refusal(node.op)@))
        } else {
            match node_refusal(node, env) {
                Some(e) => Err(e),
                None => walk_from(b, nodes, k + 1, env.insert(node.outputs[0])),
            }
        }
    }
}

/// The walk of a graph's nodes from its `declared` input tensors, then the check
/// that every declared output was produced: the tensors at the end, or the first
/// refusal.
pub open spec fn walk_graph<B: Backend>(b: &B, g: GraphModel, declared: Set<Seq<char>>) -> Result<
    Set<Seq<char>>,
    Seq<char>,
> {
    match walk_from(b, g.nodes, 0, declared) {
        Err(e) => Err(e),
        Ok(fin) => match first_where(g.outputs, absent_from(fin)) {
            Some(i) => Err(missing_output_msg(g.outputs[i])),
            None => Ok(fin),
        },
    }
}

/// The graph the walker runs: the optimized graph when a fusion applies.
pub open spec fn walked_graph(g: GraphModel) -> GraphModel {
    if first_fusion(g, 0) is Some {
        optimize_spec(g)
    } else {
        g
    }
}

/// The names of the provided input tensors.
pub open spec fn provided_names<Ct>(inputs: Seq<(String, Vec<Ct>)>) -> Seq<Seq<char>> {
    inputs.map_values(|p: (String, Vec<Ct>)| p.0@)
}

/// Whether every element of `a` occurs in `b`.
fn all_within(a: &Vec<String>, b: &Vec<String>) -> (r: bool)
    ensures
        r == (forall|i: int| 0 <= i < a@.len() ==> names(b@).contains(#[trigger] names(a@)[i])),
{
    let mut i: usize = 0;
    while i < a.len()
        invariant
            i <= a@.len(),
            forall|j: int| 0 <= j < i ==> names(b@).contains(#[trigger] names(a@)[j]),
        decreases a@.len() - i,
    {
        let mut found = false;
        let mut j: usize = 0;
        while j < b.len()
            invariant
                j <= b@.len(),
                i < a@.len(),
                found ==> names(b@).contains(names(a@)[i as int]),
                !found ==> forall|k: int| 0 <= k < j ==> names(b@)[k] != names(a@)[i as int],
            decreases b@.len() - j,
        {
            if str_eq(b[j].as_str(), a[i].as_str()) {
                assert(names(b@)[j as int] == names(a@)[i as int]);
                found = true;
            }
            j = j + 1;
        }
        if !found {
            assert(!names(b@).contains(names(a@)[i as int]));
            return false;
        }
        i = i + 1;
    }
    true
}

/// A source of time in nanoseconds, read to profile a walk.
pub trait Clock {
    /// The current time in nanoseconds.
    fn now_nanos(&self) -> u128;
}

/// A clock for walks that record no profile.
pub struct NoClock;

impl Clock for NoClock {
    /// Always 0: a walk timed on this clock takes no time.
    fn now_nanos(&self) -> (r: u128)
        ensures
            r == 0,
    {
        0
    }
}

/// Nanoseconds from `start` to `end`, 0 if the clock went back.
pub(crate) fn elapsed(start: u128, end: u128) -> (r: u128)
    ensures
        r == if end >= start { end - start } else { 0 },
{
    if end >= start {
        end - start
    } else {
        0
    }
}

/// Whether a profile records these nodes, one entry each in walk order, with
/// their names, op types and number of inputs.
pub open spec fn records_nodes(ps: Seq<NodeProfile>, nodes: Seq<NodeModel>) -> bool {
    &&& ps.len() == nodes.len()
    &&& forall|i: int|
        0 <= i < ps.len() ==> {
            &&& (#[trigger] ps[i]).name@ == nodes[i].name
            &&& ps[i].op_type@ == op_type_name(nodes[i].op)
            &&& ps[i].input_lens@.len() == nodes[i].inputs.len()
        }
}

/// The tensor values once the first `k` nodes are walked over the values
/// `start`, each node's output valued as in `walk_values`.
pub open spec fn walk_prefix<B: Backend>(
    b: &B,
    sk: B::ServerKey,
    num_blocks: usize,
    nodes: Seq<NodeModel>,
    k: nat,
    start: Map<Seq<char>, Tensor<B::Ciphertext>>,
) -> Map<Seq<char>, Tensor<B::Ciphertext>>
    decreases k,
{
    if k == 0 {
        start
    } else {
        let vals = walk_prefix(b, sk, num_blocks, nodes, (k - 1) as nat, start);
        let node = nodes[k - 1];
        vals.insert(
            node.outputs[0],
            b.apply_op(node.op, sk, num_blocks, node.inputs.map_values(|t: Seq<char>| vals[t])),
        )
    }
}

/// Whether each profile entry holds what its node measured in the walk over
/// the values `start`: the lengths of the node's input tensors and of its
/// output tensor, valued as the walk holds them when the node runs, and the
/// counters its op reports for those input lengths.
pub open spec fn records_measures<B: Backend>(
    b: &B,
    sk: B::ServerKey,
    num_blocks: usize,
    ps: Seq<NodeProfile>,
    nodes: Seq<NodeModel>,
    start: Map<Seq<char>, Tensor<B::Ciphertext>>,
) -> bool {
    forall|i: int|
        0 <= i < ps.len() ==> {
            &&& (#[trigger] ps[i]).input_lens@.len() == nodes[i].inputs.len()
            &&& forall|j: int|
                0 <= j < nodes[i].inputs.len() ==> #[trigger] ps[i].input_lens@[j] == walk_prefix(
                    b,
                    sk,
                    num_blocks,
                    nodes,
                    i as nat,
                    start,
                )[nodes[i].inputs[j]].len()
            &&& ps[i].output_len == walk_prefix(b, sk, num_blocks, nodes, (i + 1) as nat, start)[nodes[i].outputs[0]].len()
            &&& ps[i].counters@ == b.op_cost(nodes[i].op, ps[i].input_lens@)
        }
}

/// What walking a graph amounts to, by its model: the width-propagation error
/// of the optimized graph, or the walk of the graph the walker runs.
pub open spec fn graph_run<B: Backend>(b: &B, graph: GraphModel, declared: Set<Seq<char>>) -> Result<
    Set<Seq<char>>,
    Seq<char>,
> {
    let g = walked_graph(graph);
    if first_fusion(graph, 0) is Some && propagate_spec(g) is Err {
        Err(propagate_spec(g)->Err_0)
    } else {
        walk_graph(b, g, declared)
    }
}

/// The value of each provided input tensor, by name.
pub open spec fn input_values<Ct>(inputs: Seq<(String, Vec<Ct>)>) -> Map<Seq<char>, Tensor<Ct>>
    decreases inputs.len(),
{
    if inputs.len() == 0 {
        Map::empty()
    } else {
        input_values(inputs.drop_first()).insert(inputs[0].0@, inputs[0].1@)
    }
}

/// The tensor values once the nodes from `k` on are walked over the values
/// `vals`: each node's one output is what the backend's op for it computes from
/// the values of the node's inputs, in order.
pub open spec fn walk_values<B: Backend>(
    b: &B,
    sk: B::ServerKey,
    num_blocks: usize,
    nodes: Seq<NodeModel>,
    k: nat,
    vals: Map<Seq<char>, Tensor<B::Ciphertext>>,
) -> Map<Seq<char>, Tensor<B::Ciphertext>>
    decreases nodes.len() - k,
{
    if k >= nodes.len() {
        vals
    } else {
        let node = nodes[k as int];
        let out = b.apply_op(node.op, sk, num_blocks, node.inputs.map_values(|t: Seq<char>| vals[t]));
        walk_values(b, sk, num_blocks, nodes, k + 1, vals.insert(node.outputs[0], out))
    }
}

/// The value of every tensor once the walker has run `graph` from the values
/// `start`, under server key `sk` at `num_blocks` radix blocks.
pub open spec fn run_values<B: Backend>(
    b: &B,
    graph: GraphModel,
    sk: B::ServerKey,
    num_blocks: usize,
    start: Map<Seq<char>, Tensor<B::Ciphertext>>,
) -> Map<Seq<char>, Tensor<B::Ciphertext>> {
    walk_values(b, sk, num_blocks, walked_graph(graph).nodes, 0, start)
}

/// Whether `c` is a clone of the tensor `a`, ciphertext by ciphertext.
pub open spec fn clone_of<Ct: Clone>(a: Tensor<Ct>, c: Tensor<Ct>) -> bool {
    &&& c.len() == a.len()
    &&& forall|i: int| 0 <= i < a.len() ==> cloned::<Ct>(a[i], c[i])
}

/// The outcome of a walk, as `evaluate_graph` states it: the refusal of inputs
/// that are not the declared ones, else the refusal `graph_run` gives, else a
/// clone of the computed value of every declared output.
pub open spec fn walk_outcome<B: Backend>(
    b: &B,
    graph: GraphModel,
    declared_names: Seq<Seq<char>>,
    inputs: Seq<(String, Vec<B::Ciphertext>)>,
    sk: B::ServerKey,
    num_blocks: usize,
    r: Result<StringHashMap<Vec<B::Ciphertext>>, String>,
) -> bool {
    let provided = provided_names(inputs);
    if declared_names.to_set() != provided.to_set() {
        r matches Err(e) && e@ == input_mismatch_msg(declared_names, provided)
    } else {
        match graph_run(b, graph, declared_names.to_set()) {
            Err(e) => r matches Err(x) && x@ == e,
            Ok(_) => r matches Ok(outs) && outs@.dom() == walked_graph(graph).outputs.to_set()
                && forall|t: Seq<char>|
                #[trigger] outs@.contains_key(t) ==> clone_of(
                    run_values(b, graph, sk, num_blocks, input_values(inputs))[t],
                    outs@[t]@,
                ),
        }
    }
}

/// The outcome of the walk up to its final tensors: as `walk_outcome`, but on
/// success every tensor the walk holds, each with its computed value.
pub open spec fn env_outcome<B: Backend>(
    b: &B,
    graph: GraphModel,
    declared_names: Seq<Seq<char>>,
    inputs: Seq<(String, Vec<B::Ciphertext>)>,
    sk: B::ServerKey,
    num_blocks: usize,
    r: Result<(StringHashMap<Vec<B::Ciphertext>>, u128), String>,
) -> bool {
    let provided = provided_names(inputs);
    if declared_names.to_set() != provided.to_set() {
        r matches Err(e) && e@ == input_mismatch_msg(declared_names, provided)
    } else {
        match graph_run(b, graph, declared_names.to_set()) {
            Err(e) => r matches Err(x) && x@ == e,
            Ok(fin) => r matches Ok((env, _)) && env@.dom() == fin && forall|t: Seq<char>|
                #[trigger] env@.contains_key(t) ==> env@[t]@ == run_values(
                    b,
                    graph,
                    sk,
                    num_blocks,
                    input_values(inputs),
                )[t],
        }
    }
}

/// Evaluate a graph under FHE, returning the named output tensors.
///
/// `inputs` holds each graph input's encrypted tensor, one entry per name. The
/// graph is optimized first; each node's op is then built on `backend`, the
/// nodes are walked in their serialized order, each node's input tensors are
/// resolved in order and handed to `Op::eval_n`, and its one output is stored.
pub fn evaluate_graph<B: Backend>(
    backend: &B,
    ctx: &EvalCtx<B::ServerKey>,
    graph: &Graph,
    inputs: Vec<(String, Vec<B::Ciphertext>)>,
) -> (r: Result<StringHashMap<Vec<B::Ciphertext>>, String>)
    requires
        optimize_defined(graph@, graph@.nodes.len()),
        first_fusion(graph@, 0) is Some ==> propagate_defined(optimize_spec(graph@)),
        forall|i: int, j: int|
            0 <= i < j < inputs@.len() ==> #[trigger] inputs@[i].0@ != #[trigger] inputs@[j].0@,
    ensures
        walk_outcome(backend, graph@, names(graph.inputs@), inputs@, *ctx.sk, ctx.num_blocks, r),
{
    let mut unused = GraphProfile { backend: "", total: 0, nodes: Vec::new() };
    evaluate_graph_inner(backend, ctx, graph, inputs, &NoClock, &mut unused, false)
}

/// Walk the graph exactly as `evaluate_graph` does, recording into `profile`
/// the backend's name, and for each node walked its name, op type, build and
/// eval time, input and output lengths and the op's cost counters, and on
/// success the total time, all read from `clock`.
pub fn evaluate_graph_profiled<B: Backend, C: Clock>(
    backend: &B,
    ctx: &EvalCtx<B::ServerKey>,
    graph: &Graph,
    inputs: Vec<(String, Vec<B::Ciphertext>)>,
    clock: &C,
    profile: &mut GraphProfile,
) -> (r: Result<StringHashMap<Vec<B::Ciphertext>>, String>)
    requires
        optimize_defined(graph@, graph@.nodes.len()),
        first_fusion(graph@, 0) is Some ==> propagate_defined(optimize_spec(graph@)),
        forall|i: int, j: int|
            0 <= i < j < inputs@.len() ==> #[trigger] inputs@[i].0@ != #[trigger] inputs@[j].0@,
    ensures
        walk_outcome(backend, graph@, names(graph.inputs@), inputs@, *ctx.sk, ctx.num_blocks, r),
        r is Ok ==> records_nodes(final(profile).nodes@, walked_graph(graph@).nodes),
        r is Ok ==> records_measures(
            backend,
            *ctx.sk,
            ctx.num_blocks,
            final(profile).nodes@,
            walked_graph(graph@).nodes,
            input_values(inputs@),
        ),
        r is Ok ==> final(profile).backend == backend.spec_name(),
{
    evaluate_graph_inner(backend, ctx, graph, inputs, clock, profile, true)
}

/// The walk, then a clone of each declared output's tensor; a profile is
/// recorded only when `record` holds.
fn evaluate_graph_inner<B: Backend, C: Clock>(
    backend: &B,
    ctx: &EvalCtx<B::ServerKey>,
    graph: &Graph,
    inputs: Vec<(String, Vec<B::Ciphertext>)>,
    clock: &C,
    profile: &mut GraphProfile,
    record: bool,
) -> (r: Result<StringHashMap<Vec<B::Ciphertext>>, String>)
    requires
        optimize_defined(graph@, graph@.nodes.len()),
        first_fusion(graph@, 0) is Some ==> propagate_defined(optimize_spec(graph@)),
        forall|i: int, j: int|
            0 <= i < j < inputs@.len() ==> #[trigger] inputs@[i].0@ != #[trigger] inputs@[j].0@,
    ensures
        walk_outcome(backend, graph@, names(graph.inputs@), inputs@, *ctx.sk, ctx.num_blocks, r),
        record && r is Ok ==> records_nodes(final(profile).nodes@, walked_graph(graph@).nodes),
        record && r is Ok ==> records_measures(
            backend,
            *ctx.sk,
            ctx.num_blocks,
            final(profile).nodes@,
            walked_graph(graph@).nodes,
            input_values(inputs@),
        ),
        record && r is Ok ==> final(profile).backend == backend.spec_name(),
{
    let ghost all_inputs = inputs@;
    let (env, t_total) = match walk_env(backend, ctx, graph, inputs, clock, profile, record) {
        Ok(p) => p,
        Err(e) => {
            return Err(e);
        },
    };
    let ghost vals = run_values(backend, graph@, *ctx.sk, ctx.num_blocks, input_values(all_inputs));
    proof {
        crate::optimize::lemma_optimize_shape(graph@);
    }
    let ghost outs = graph@.outputs;
    assert(outs == walked_graph(graph@).outputs);
    proof {
        let fin = env@.dom();
        lemma_first_where(outs, absent_from(fin));
        assert forall|i: int| 0 <= i < outs.len() implies env@.contains_key(#[trigger] outs[i]) by {
            assert(!absent_from(fin)(outs[i]));
        }
    }
    let mut result: StringHashMap<Vec<B::Ciphertext>> = StringHashMap::new();
    let mut j: usize = 0;
    while j < graph.outputs.len()
        invariant
            j <= outs.len(),
            outs == graph@.outputs,
            forall|i: int| 0 <= i < outs.len() ==> env@.contains_key(#[trigger] outs[i]),
            forall|t: Seq<char>| #[trigger] env@.contains_key(t) ==> env@[t]@ == vals[t],
            result@.dom() == outs.take(j as int).to_set(),
            forall|t: Seq<char>| #[trigger] result@.contains_key(t) ==> clone_of(vals[t], result@[t]@),
        decreases outs.len() - j,
    {
        assert(env@.contains_key(outs[j as int]));
        match env.get(graph.outputs[j].as_str()) {
            Some(v) => {
                let c = v.clone();
                assert(clone_of(vals[outs[j as int]], c@));
                result.insert(graph.outputs[j].clone(), c);
                assert(outs.take(j + 1).to_set() =~= outs.take(j as int).to_set().insert(outs[j as int])) by {
                    assert(outs.take(j + 1) =~= outs.take(j as int).push(outs[j as int]));
                    outs.take(j as int).lemma_push_to_set_commute(outs[j as int]);
                }
            },
            None => {
                let m = cat(String::from_str("graph declares output '"), graph.outputs[j].as_str());
                let m = cat(m, "' but no node produced it");
                return Err(m);
            },
        }
        j = j + 1;
    }
    assert(outs.take(outs.len() as int) =~= outs);
    if record {
        profile.total = elapsed(t_total, clock.now_nanos());
    }
    Ok(result)
}

/// The walk itself: check the provided inputs against the declared ones,
/// optimize, then build and run each node in turn. On success, every tensor
/// the walk holds and the clock's reading when the walk began; a profile is
/// recorded only when `record` holds, and left unchanged otherwise.
#[verifier::loop_isolation(false)]
pub(crate) fn walk_env<B: Backend, C: Clock>(
    backend: &B,
    ctx: &EvalCtx<B::ServerKey>,
    graph: &Graph,
    inputs: Vec<(String, Vec<B::Ciphertext>)>,
    clock: &C,
    profile: &mut GraphProfile,
    record: bool,
) -> (r: Result<(StringHashMap<Vec<B::Ciphertext>>, u128), String>)
    requires
        optimize_defined(graph@, graph@.nodes.len()),
        first_fusion(graph@, 0) is Some ==> propagate_defined(optimize_spec(graph@)),
        forall|i: int, j: int|
            0 <= i < j < inputs@.len() ==> #[trigger] inputs@[i].0@ != #[trigger] inputs@[j].0@,
    ensures
        env_outcome(backend, graph@, names(graph.inputs@), inputs@, *ctx.sk, ctx.num_blocks, r),
        record && r is Ok ==> records_nodes(final(profile).nodes@, walked_graph(graph@).nodes),
        record && r is Ok ==> records_measures(
            backend,
            *ctx.sk,
            ctx.num_blocks,
            final(profile).nodes@,
            walked_graph(graph@).nodes,
            input_values(inputs@),
        ),
        record && r is Ok ==> final(profile).backend == backend.spec_name(),
{
    let mut provided: Vec<String> = Vec::new();
    let mut i: usize = 0;
    while i < inputs.len()
        invariant
            i <= inputs@.len(),
            names(provided@) == provided_names(inputs@).take(i as int),
        decreases inputs@.len() - i,
    {
        provided.push(inputs[i].0.clone());
        assert(provided_names(inputs@).take(i + 1) =~= provided_names(inputs@).take(i as int).push(
            inputs@[i as int].0@,
        ));
        assert(names(provided@) =~= provided_names(inputs@).take(i + 1));
        i = i + 1;
    }
    assert(provided_names(inputs@).take(inputs@.len() as int) =~= provided_names(inputs@));
    let covers = all_within(&graph.inputs, &provided);
    let within = all_within(&provided, &graph.inputs);
    if !covers || !within {
        proof {
            if names(graph.inputs@).to_set() == names(provided@).to_set() {
                if !covers {
                    let w = choose|i: int| 0 <= i < graph.inputs@.len() && !names(provided@).contains(names(graph.inputs@)[i]);
                    assert(names(graph.inputs@).to_set().contains(names(graph.inputs@)[w]));
                } else {
                    let w = choose|i: int| 0 <= i < provided@.len() && !names(graph.inputs@).contains(names(provided@)[i]);
                    assert(names(provided@).to_set().contains(names(provided@)[w]));
                }
            }
        }
        let m = cat(String::from_str("graph inputs "), debug_list(&graph.inputs).as_str());
        let m = cat(m, " do not match the provided input tensors ");
        let m = cat(m, debug_list(&provided).as_str());
        return Err(m);
    }
    let ghost declared = names(graph.inputs@).to_set();
    assert(declared =~= provided_names(inputs@).to_set()) by {
        assert forall|t: Seq<char>| declared.contains(t) <==> provided_names(inputs@).to_set().contains(t) by {
            if declared.contains(t) {
                let w = choose|i: int| 0 <= i < names(graph.inputs@).len() && names(graph.inputs@)[i] == t;
                assert(names(provided@).contains(names(graph.inputs@)[w]));
            }
            if provided_names(inputs@).to_set().contains(t) {
                let w = choose|i: int| 0 <= i < names(provided@).len() && names(provided@)[i] == t;
                assert(names(graph.inputs@).contains(names(provided@)[w]));
            }
        }
    }
    let optimized = match optimize_graph(graph) {
        Ok(c) => c,
        Err(e) => {
            return Err(e);
        },
    };
    let g: &Graph = match &optimized {
        Cow::Borrowed(b) => b,
        Cow::Owned(h) => h,
    };
    assert(g@ == walked_graph(graph@));
    proof {
        crate::optimize::lemma_optimize_shape(graph@);
    }
    let mut t_total: u128 = 0;
    if record {
        profile.backend = backend.name();
        profile.nodes.clear();
        t_total = clock.now_nanos();
    }
    let mut env: StringHashMap<Vec<B::Ciphertext>> = StringHashMap::new();
    let mut rest = inputs;
    let ghost all_inputs = rest@;
    while rest.len() > 0
        invariant
            provided_names(all_inputs).to_set() == declared,
            all_inputs.len() >= rest@.len(),
            rest@ == all_inputs.take(rest@.len() as int),
            env@.dom() == provided_names(all_inputs.skip(rest@.len() as int)).to_set(),
            env@.dom() == input_values(all_inputs.skip(rest@.len() as int)).dom(),
            forall|t: Seq<char>| #[trigger] env@.contains_key(t)
                ==> env@[t]@ == input_values(all_inputs.skip(rest@.len() as int))[t],
        decreases rest@.len(),
    {
        let ghost before = rest@;
        let (name, value) = rest.pop().unwrap();
        proof {
            assert(all_inputs.skip(rest@.len() as int).drop_first() =~= all_inputs.skip(before.len() as int));
            assert(all_inputs.skip(rest@.len() as int)[0] == (name, value));
            assert(rest@ =~= all_inputs.take(rest@.len() as int));
            assert(all_inputs.skip(rest@.len() as int) =~= seq![(name, value)] + all_inputs.skip(before.len() as int));
            assert(provided_names(seq![(name, value)] + all_inputs.skip(before.len() as int)) =~= seq![name@] + provided_names(all_inputs.skip(before.len() as int)));
            vstd::seq_lib::seq_to_set_distributes_over_add(
                seq![name@],
                provided_names(all_inputs.skip(before.len() as int)),
            );
            assert(seq![name@].to_set() =~= Set::empty().insert(name@)) by {
                assert(seq![name@].contains(name@) ) by { assert(seq![name@][0] == name@); }
            }
        }
        env.insert(name, value);
    }
    assert(all_inputs.skip(0) =~= all_inputs);
    let ghost nodes = g@.nodes;
    let ghost outs = g@.outputs;
    let ghost mut tensors: Set<Seq<char>> = declared;
    let ghost sk = *ctx.sk;
    let ghost nb = ctx.num_blocks;
    let ghost vals0 = input_values(all_inputs);
    let ghost mut vals = vals0;
    let mut k: usize = 0;
    while k < g.nodes.len()
        invariant
            k <= nodes.len(),
            nodes == g@.nodes,
            outs == g@.outputs,
            env@.dom() == tensors,
            walk_from(backend, nodes, 0, declared) == walk_from(backend, nodes, k as nat, tensors),
            vals.dom() == tensors,
            forall|t: Seq<char>| #[trigger] env@.contains_key(t) ==> env@[t]@ == vals[t],
            walk_values(backend, sk, nb, nodes, 0, vals0) == walk_values(backend, sk, nb, nodes, k as nat, vals),
            vals == walk_prefix(backend, sk, nb, nodes, k as nat, vals0),
            record ==> records_nodes(profile.nodes@, nodes.take(k as int)),
            record ==> records_measures(backend, sk, nb, profile.nodes@, nodes, vals0),
            record ==> profile.backend == backend.spec_name(),
        decreases nodes.len() - k,
    {
        let node = &g.nodes[k];
        assert(nodes[k as int] == node@);
        let t_build = if record {
            clock.now_nanos()
        } else {
            0
        };
        let op = match backend.build_op(&node.op) {
            Ok(op) => op,
            Err(e) => {
                let m = cat(String::from_str("node '"), node.name.as_str());
                let m = cat(m, "': ");
                let m = cat(m, e.as_str());
                return Err(m);
            },
        };
        let build = if record {
            elapsed(t_build, clock.now_nanos())
        } else {
            0
        };
        if node.inputs.len() == 0 {
            let m = cat(String::from_str("node '"), node.name.as_str());
            let m = cat(m, "' (");
            let m = cat(m, node.op.op_type());
            let m = cat(m, ") has no inputs");
            return Err(m);
        }
        let ghost absent = absent_from(tensors);
        let mut input_cts: Vec<&Vec<B::Ciphertext>> = Vec::new();
        let mut i: usize = 0;
        while i < node.inputs.len()
            invariant
                i <= node.inputs@.len(),
                env@.dom() == tensors,
                absent == absent_from(tensors),
                forall|j: int| 0 <= j < i ==> !absent(#[trigger] node@.inputs[j]),
                input_cts@.len() == i,
                forall|j: int| 0 <= j < i ==> (#[trigger] input_cts@[j])@ == vals[node@.inputs[j]],
            decreases node.inputs@.len() - i,
        {
            match env.get(node.inputs[i].as_str()) {
                Some(v) => {
                    input_cts.push(v);
                },
                None => {
                    proof { lemma_first_where_at(node@.inputs, absent, i as int); }
                    let m = cat(String::from_str("node '"), node.name.as_str());
                    let m = cat(m, "' reads tensor '");
                    let m = cat(m, node.inputs[i].as_str());
                    let m = cat(
                        m,
                        "', which no earlier node produced and is not a graph input \u{2014} node order is not a valid topological order",
                    );
                            return Err(m);
                },
            }
            i = i + 1;
        }
        proof { lemma_first_where_none(node@.inputs, absent); }
        let ghost ins = node@.inputs.map_values(|t: Seq<char>| vals[t]);
        assert(tensors_of(input_cts@) =~= ins);
        let mut input_lens: Vec<usize> = Vec::new();
        let mut li: usize = 0;
        while li < input_cts.len()
            invariant
                li <= input_cts@.len(),
                input_lens@.len() == li,
                forall|j: int| 0 <= j < li ==> #[trigger] input_lens@[j] == input_cts@[j]@.len(),
            decreases input_cts@.len() - li,
        {
            input_lens.push(input_cts[li].len());
            li = li + 1;
        }
        let t_eval = if record {
            clock.now_nanos()
        } else {
            0
        };
        let result = op.eval_n(ctx, input_cts.as_slice());
        if record {
            let eval = elapsed(t_eval, clock.now_nanos());
            let counters = op.cost(input_lens.as_slice());
            let output_len = result.len();
            let ghost old_ps = profile.nodes@;
            profile.nodes.push(NodeProfile {
                name: node.name.clone(),
                op_type: node.op.op_type(),
                build,
                eval,
                input_lens,
                output_len,
                counters,
            });
            assert(nodes.take(k + 1) =~= nodes.take(k as int).push(node@));
            assert(input_lens@.len() == node@.inputs.len());
            assert(records_measures(backend, sk, nb, profile.nodes@, nodes, vals0)) by {
                let ps = profile.nodes@;
                assert forall|i: int| 0 <= i < ps.len() implies {
                    &&& (#[trigger] ps[i]).input_lens@.len() == nodes[i].inputs.len()
                    &&& forall|j: int|
                        0 <= j < nodes[i].inputs.len() ==> #[trigger] ps[i].input_lens@[j] == walk_prefix(
                            backend,
                            sk,
                            nb,
                            nodes,
                            i as nat,
                            vals0,
                        )[nodes[i].inputs[j]].len()
                    &&& ps[i].output_len == walk_prefix(backend, sk, nb, nodes, (i + 1) as nat, vals0)[nodes[i].outputs[0]].len()
                    &&& ps[i].counters@ == backend.op_cost(nodes[i].op, ps[i].input_lens@)
                } by {
                    if i == k {
                        assert(ps[i].input_lens == input_lens);
                        assert forall|j: int| 0 <= j < nodes[i].inputs.len() implies #[trigger] ps[i].input_lens@[j]
                            == walk_prefix(backend, sk, nb, nodes, i as nat, vals0)[nodes[i].inputs[j]].len() by {
                            assert(input_lens@[j] == input_cts@[j]@.len());
                        }
                        assert(walk_prefix(backend, sk, nb, nodes, (i + 1) as nat, vals0)[nodes[i].outputs[0]] == result@);
                    } else {
                        assert(ps[i] == old_ps[i]);
                    }
                }
            }
            assert(records_nodes(profile.nodes@, nodes.take(k + 1))) by {
                let ps = profile.nodes@;
                let ns = nodes.take(k + 1);
                assert forall|j: int| 0 <= j < ps.len() implies {
                    &&& (#[trigger] ps[j]).name@ == ns[j].name
                    &&& ps[j].op_type@ == op_type_name(ns[j].op)
                    &&& ps[j].input_lens@.len() == ns[j].inputs.len()
                } by {
                    if j < k {
                        assert(ns[j] == nodes.take(k as int)[j]);
                    }
                }
            }
        }
        if node.outputs.len() != 1 {
            let m = cat(String::from_str("node '"), node.name.as_str());
            let m = cat(m, "' (");
            let m = cat(m, node.op.op_type());
            let m = cat(m, ") declares ");
            let m = cat(m, usize_text(node.outputs.len()).as_str());
            let m = cat(m, " outputs; the current ops produce one output tensor");
            return Err(m);
        }
        let output_name = &node.outputs[0];
        if env.contains_key(output_name.as_str()) {
            let m = cat(String::from_str("node '"), node.name.as_str());
            let m = cat(m, "' writes tensor '");
            let m = cat(m, output_name.as_str());
            let m = cat(
                m,
                "', which already exists \u{2014} tensor names must be unique (no silent overwrite)",
            );
            return Err(m);
        }
        assert(result@ == backend.apply_op(node@.op, sk, nb, ins));
        env.insert(output_name.clone(), result);
        proof {
            tensors = tensors.insert(node@.outputs[0]);
            vals = vals.insert(node@.outputs[0], backend.apply_op(node@.op, sk, nb, ins));
        }
        k = k + 1;
    }
    let ghost absent = absent_from(tensors);
    let mut j: usize = 0;
    while j < g.outputs.len()
        invariant
            j <= outs.len(),
            outs == g@.outputs,
            env@.dom() == tensors,
            absent == absent_from(tensors),
            forall|i: int| 0 <= i < j ==> !absent(#[trigger] outs[i]),
        decreases outs.len() - j,
    {
        if !env.contains_key(g.outputs[j].as_str()) {
            proof { lemma_first_where_at(outs, absent, j as int); }
            let m = cat(String::from_str("graph declares output '"), g.outputs[j].as_str());
            let m = cat(m, "' but no node produced it");
            return Err(m);
        }
        j = j + 1;
    }
    assert(nodes.take(nodes.len() as int) =~= nodes);
    proof {
        lemma_first_where_none(outs, absent);
        assert(walk_from(backend, nodes, 0, declared) == Ok::<Set<Seq<char>>, Seq<char>>(tensors));
        assert(walk_values(backend, sk, nb, nodes, nodes.len(), vals) == vals);
    }
    Ok((env, t_total))
}

} // verus!
