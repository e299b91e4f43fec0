//! Bit-width growth rules and budget propagation: how accumulator precision
//! grows across the nodes of a graph, and whether every intermediate fits the
//! radix capacity.

use vstd::prelude::*;

use vstd::hash_map::StringHashMap;

use crate::backend::{Backend, Op};

use crate::ir::{cat, names, op_type_name, sizes_fit, validate_spec, Graph, GraphModel, NodeModel, OpModel, OpSpec};
use crate::seqs::{first_where, lemma_first_where, lemma_first_where_at, lemma_first_where_none};
use crate::text::{dec, usize_text};


verus! {

/// Number of message bits per radix block in the default TFHE profile.
pub const MESSAGE_BITS: usize = 2;

/// `2^e`.
pub open spec fn p2(e: nat) -> nat
    decreases e,
{
    if e == 0 {
        1
    } else {
        2 * p2((e - 1) as nat)
    }
}

/// The number of binary digits of `n` (0 for 0).
pub open spec fn bitlen(n: nat) -> nat
    decreases n,
{
    if n == 0 {
        0
    } else {
        1 + bitlen(n / 2)
    }
}

/// The ceiling of `log2(n)`, with 0 for `n <= 1`.
pub open spec fn clog2(n: nat) -> nat
    decreases n,
{
    if n <= 1 {
        0
    } else {
        1 + clog2(((n + 1) / 2) as nat)
    }
}

/// `|v|`.
pub open spec fn abs_nat(v: i64) -> nat {
    if v < 0 {
        (-(v as int)) as nat
    } else {
        v as nat
    }
}

/// The widest magnitude among `s`, in bits (0 for an empty sequence).
pub open spec fn max_mag(s: Seq<i64>) -> nat
    decreases s.len(),
{
    if s.len() == 0 {
        0
    } else {
        let a = max_mag(s.drop_last());
        let b = bitlen(abs_nat(s.last()));
        if a >= b {
            a
        } else {
            b
        }
    }
}

/// The larger of two integers.
pub open spec fn max_int(a: int, b: int) -> int {
    if a >= b {
        a
    } else {
        b
    }
}

/// `bitlen` bounds: `n` lies in `[2^(b-1), 2^b)` for `b = bitlen(n)`.
pub proof fn lemma_bitlen(n: nat)
    ensures
        n < p2(bitlen(n)),
        n > 0 ==> p2((bitlen(n) - 1) as nat) <= n,
    decreases n,
{
    if n > 0 {
        lemma_bitlen(n / 2);
    }
}

/// `bitlen` is monotone.
pub proof fn lemma_bitlen_mono(a: nat, b: nat)
    requires
        a <= b,
    ensures
        bitlen(a) <= bitlen(b),
    decreases b,
{
    if a > 0 {
        lemma_bitlen_mono(a / 2, b / 2);
    }
}

/// `clog2(n)` is the least `k` with `n <= 2^k`.
pub proof fn lemma_clog2(n: nat)
    ensures
        n <= p2(clog2(n)),
        n > 1 ==> p2((clog2(n) - 1) as nat) < n,
    decreases n,
{
    if n > 1 {
        let m = ((n + 1) / 2) as nat;
        lemma_clog2(m);
        if m > 1 {
            assert(p2((clog2(m) - 1) as nat) <= m - 1);
            assert(p2(clog2(m)) == 2 * p2((clog2(m) - 1) as nat));
        }
    }
}

/// Compute the radix capacity in bits for a given number of blocks.
pub fn radix_capacity_bits(num_blocks: usize) -> (r: usize)
    requires
        num_blocks * MESSAGE_BITS <= usize::MAX,
    ensures
        r == num_blocks * MESSAGE_BITS,
{
    num_blocks * MESSAGE_BITS
}

/// Bit-width of a signed integer's magnitude (excluding the sign bit).
pub fn magnitude_bits(v: i64) -> (r: usize)
    ensures
        r == bitlen(abs_nat(v)),
        r <= 64,
{
    let mut u: u64 = if v < 0 {
        (-(v as i128)) as u64
    } else {
        v as u64
    };
    proof { lemma_bitlen_le_64(abs_nat(v)); }
    let mut k: usize = 0;
    while u > 0
        invariant
            k + bitlen(u as nat) == bitlen(abs_nat(v)),
            k + bitlen(u as nat) <= 64,
        decreases u,
    {
        proof {
            lemma_bitlen(u as nat);
            lemma_bitlen(abs_nat(v));
        }
        u = u / 2;
        k = k + 1;
    }
    k
}

/// `2^e` grows with `e`.
pub proof fn lemma_p2_mono(a: nat, b: nat)
    requires
        a <= b,
    ensures
        p2(a) <= p2(b),
    decreases b,
{
    if a < b {
        lemma_p2_mono(a, (b - 1) as nat);
    }
}

/// `clog2(n) <= 64` for every `n` that fits 64 bits.
pub proof fn lemma_clog2_le_64(n: nat)
    requires
        n <= 0xffff_ffff_ffff_ffff,
    ensures
        clog2(n) <= 64,
{
    lemma_clog2(n);
    if clog2(n) > 64 {
        lemma_p2_mono(64, (clog2(n) - 1) as nat);
        lemma_p2_64();
    }
}

/// `2^64`.
pub proof fn lemma_p2_64()
    ensures
        p2(64) == 0x1_0000_0000_0000_0000,
{
    reveal_with_fuel(p2, 65);
}

/// A value below `2^64` has at most 64 binary digits.
pub proof fn lemma_bitlen_le_64(n: nat)
    requires
        n <= 0xffff_ffff_ffff_ffff,
    ensures
        bitlen(n) <= 64,
{
    lemma_bitlen(n);
    if bitlen(n) > 64 {
        lemma_p2_mono(64, (bitlen(n) - 1) as nat);
        lemma_p2_64();
    }
}

/// Ceiling of `log2(n)` for a positive integer (0 for `n <= 1`).
pub fn ceil_log2(n: usize) -> (r: usize)
    ensures
        r == clog2(n as nat),
        n as nat <= p2(r as nat),
        n > 1 ==> p2((r - 1) as nat) < n,
{
    proof {
        lemma_clog2(n as nat);
        lemma_clog2_le_64(n as nat);
    }
    let mut m: usize = n;
    let mut k: usize = 0;
    while m > 1
        invariant
            k + clog2(m as nat) == clog2(n as nat),
            clog2(n as nat) <= 64,
        decreases m,
    {
        let next = m / 2 + m % 2;
        assert(next == (m + 1) / 2);
        m = next;
        k = k + 1;
    }
    k
}


/// The larger of `clog2`-grown accumulator width and the widest bias, plus the
/// sign and carry bits: the output width of a `Linear` or `Conv2d`.
pub open spec fn accumulate_bits(in_b: int, weight_bits: int, fan_in: nat, bias: Seq<i64>) -> int {
    max_int(in_b + weight_bits + clog2(fan_in), max_mag(bias) as int) + 2
}

/// How many input tensors an op reads.
pub open spec fn op_arity(op: OpModel) -> nat {
    match op {
        OpModel::Add => 2,
        _ => 1,
    }
}

/// The output bit-width of an op, given the widths of its inputs.
pub open spec fn output_bits_spec(op: OpModel, ins: Seq<usize>) -> int {
    match op {
        OpModel::Linear { weights, bias, weight_bits } => accumulate_bits(
            ins[0] as int,
            weight_bits as int,
            if weights.len() > 0 {
                weights[0].len()
            } else {
                0
            },
            bias,
        ),
        OpModel::Conv2d { bias, weight_bits, in_channels, kernel_h, kernel_w, .. } =>
            accumulate_bits(
            ins[0] as int,
            weight_bits as int,
            (in_channels * kernel_h * kernel_w) as nat,
            bias,
        ),
        OpModel::Activation { output_bits, .. } => output_bits as int,
        OpModel::Requant { out_bits, .. } => out_bits as int,
        OpModel::Pool { mode, pool_h, pool_w, .. } => if mode == "max"@ {
            ins[0] as int
        } else {
            ins[0] + clog2((pool_h * pool_w) as nat)
        },
        OpModel::Add => max_int(ins[0] as int, ins[1] as int) + 1,
        OpModel::Argmax { .. } => 1,
    }
}

/// Whether `op_spec_output_bits_n` is defined on these inputs: the op reads as
/// many widths as it has inputs, its products and its result fit `usize`.
pub open spec fn output_bits_defined(op: OpModel, ins: Seq<usize>) -> bool {
    &&& ins.len() == op_arity(op)
    &&& output_bits_spec(op, ins) <= usize::MAX
    &&& match op {
        OpModel::Conv2d { in_channels, kernel_h, kernel_w, .. } => {
            &&& in_channels * kernel_h <= usize::MAX
            &&& in_channels * kernel_h * kernel_w <= usize::MAX
        },
        OpModel::Pool { pool_h, pool_w, .. } => pool_h * pool_w <= usize::MAX,
        _ => true,
    }
}

/// The widest bias magnitude, in bits.
fn max_magnitude_bits(bias: &Vec<i64>) -> (r: usize)
    ensures
        r == max_mag(bias@),
        r <= 64,
{
    let mut best: usize = 0;
    let mut i: usize = 0;
    while i < bias.len()
        invariant
            i <= bias@.len(),
            best == max_mag(bias@.take(i as int)),
            best <= 64,
        decreases bias@.len() - i,
    {
        let b = magnitude_bits(bias[i]);
        assert(bias@.take(i + 1).drop_last() =~= bias@.take(i as int));
        if b > best {
            best = b;
        }
        i = i + 1;
    }
    assert(bias@.take(bias@.len() as int) =~= bias@);
    best
}

fn accumulate(in_b: usize, weight_bits: usize, fan_in: usize, bias: &Vec<i64>) -> (r: usize)
    requires
        accumulate_bits(in_b as int, weight_bits as int, fan_in as nat, bias@) <= usize::MAX,
    ensures
        r == accumulate_bits(in_b as int, weight_bits as int, fan_in as nat, bias@),
{
    let sum_growth = ceil_log2(fan_in);
    let sum_bits = in_b + weight_bits + sum_growth;
    let bias_bits = max_magnitude_bits(bias);
    let m = if sum_bits >= bias_bits {
        sum_bits
    } else {
        bias_bits
    };
    m + 2
}

/// Output bit-width growth for an op, given the widths of its input tensors.
pub fn op_spec_output_bits_n(spec: &OpSpec, input_bits: &[usize]) -> (r: usize)
    requires
        output_bits_defined(spec@, input_bits@),
    ensures
        r == output_bits_spec(spec@, input_bits@),
{
    match spec {
        OpSpec::Linear { weights, bias, weight_bits } => {
            let n = if weights.len() > 0 {
                weights[0].len()
            } else {
                0
            };
            accumulate(input_bits[0], *weight_bits, n, bias)
        },
        OpSpec::Conv2d { bias, weight_bits, in_channels, kernel_h, kernel_w, .. } => {
            let fan_in = *in_channels * *kernel_h * *kernel_w;
            accumulate(input_bits[0], *weight_bits, fan_in, bias)
        },
        OpSpec::Activation { output_bits, .. } => *output_bits,
        OpSpec::Requant { out_bits, .. } => *out_bits,
        OpSpec::Pool { mode, pool_h, pool_w, .. } => {
            let in_b = input_bits[0];
            let k = *pool_h * *pool_w;
            if crate::text::str_eq(mode.as_str(), "max") {
                in_b
            } else {
                in_b + ceil_log2(k)
            }
        },
        OpSpec::Add {  } => {
            let a = input_bits[0];
            let b = input_bits[1];
            if a >= b {
                a + 1
            } else {
                b + 1
            }
        },
        OpSpec::Argmax { .. } => 1,
    }
}

/// The largest value a ReLU'd signed `ib`-bit input can take.
pub open spec fn relu_max(ib: nat) -> nat {
    if ib >= 1 {
        (p2((ib - 1) as nat) - 1) as nat
    } else {
        0
    }
}

/// The multiply-then-add intermediate of a rescale.
pub open spec fn requant_intermediate(ib: nat, mult: nat, round_bias: nat) -> nat {
    relu_max(ib) * mult + round_bias
}

/// Peak internal bit-width of a rescale: the intermediate's width plus a sign
/// bit, and never below the input width.
pub open spec fn requant_internal_spec(ib: nat, mult: nat, round_bias: nat) -> nat {
    let m = bitlen(requant_intermediate(ib, mult, round_bias)) + 1;
    if m >= ib {
        m
    } else {
        ib
    }
}

/// Whether the 128-bit arithmetic of `requant_internal_bits` stays in range.
pub open spec fn requant_internal_defined(ib: nat, mult: nat, round_bias: nat) -> bool {
    &&& ib <= 128
    &&& requant_intermediate(ib, mult, round_bias) <= u128::MAX
}

/// `2^128`.
pub proof fn lemma_p2_128()
    ensures
        p2(128) == 0x1_0000_0000_0000_0000_0000_0000_0000_0000,
{
    lemma_p2_add(64, 64);
    lemma_p2_64();
}

/// `2^(a+b) = 2^a * 2^b`.
pub proof fn lemma_p2_add(a: nat, b: nat)
    ensures
        p2(a + b) == p2(a) * p2(b),
    decreases b,
{
    if b > 0 {
        lemma_p2_add(a, (b - 1) as nat);
        assert(p2(a + b) == 2 * p2((a + b - 1) as nat));
        assert(p2(a) * p2(b) == p2(a) * (2 * p2((b - 1) as nat)));
        assert(p2(a) * (2 * p2((b - 1) as nat)) == 2 * (p2(a) * p2((b - 1) as nat)))
            by (nonlinear_arith);
    } else {
        assert(p2(b) == 1);
        assert(a + b == a);
    }
}

/// Peak internal bit-width the rescale needs before the shift narrows it.
pub fn requant_internal_bits(input_bits: usize, mult: u64, round_bias: u64) -> (r: usize)
    requires
        requant_internal_defined(input_bits as nat, mult as nat, round_bias as nat),
    ensures
        r == requant_internal_spec(input_bits as nat, mult as nat, round_bias as nat),
{
    let relu_max_v: u128 = if input_bits >= 1 {
        let mut p: u128 = 1;
        let mut i: usize = 0;
        proof {
            lemma_p2_mono((input_bits - 1) as nat, 127);
            lemma_p2_128();
        }
        while i < input_bits - 1
            invariant
                i <= input_bits - 1,
                input_bits <= 128,
                p == p2(i as nat),
                p >= 1,
                p2((input_bits - 1) as nat) <= p2(127),
                p2(128) == 2 * p2(127),
                p2(128) == 0x1_0000_0000_0000_0000_0000_0000_0000_0000,
            decreases input_bits - 1 - i,
        {
            proof { lemma_p2_mono((i + 1) as nat, (input_bits - 1) as nat); }
            p = p * 2;
            i = i + 1;
        }
        p - 1
    } else {
        0
    };
    assert(relu_max_v == relu_max(input_bits as nat));
    assert(relu_max_v * (mult as u128) <= requant_intermediate(
        input_bits as nat,
        mult as nat,
        round_bias as nat,
    ));
    let intermediate = relu_max_v * (mult as u128) + round_bias as u128;
    let mut u: u128 = intermediate;
    let mut k: usize = 0;
    proof { lemma_bitlen_le_128(intermediate as nat); }
    while u > 0
        invariant
            k + bitlen(u as nat) == bitlen(intermediate as nat),
            bitlen(intermediate as nat) <= 128,
        decreases u,
    {
        u = u / 2;
        k = k + 1;
    }
    let magnitude = k;
    if magnitude + 1 >= input_bits {
        magnitude + 1
    } else {
        input_bits
    }
}

/// A value below `2^128` has at most 128 binary digits.
pub proof fn lemma_bitlen_le_128(n: nat)
    requires
        n <= u128::MAX,
    ensures
        bitlen(n) <= 128,
{
    lemma_bitlen(n);
    if bitlen(n) > 128 {
        lemma_p2_mono(128, (bitlen(n) - 1) as nat);
        lemma_p2_128();
    }
}

/// The widest rescale across the first `k` channels of a per-channel overlay.
pub open spec fn per_channel_internal(ib: nat, mults: Seq<u64>, round_biases: Seq<u64>, k: nat) -> nat
    decreases k,
{
    if k == 0 {
        0
    } else {
        let a = per_channel_internal(ib, mults, round_biases, (k - 1) as nat);
        let b = requant_internal_spec(ib, mults[k - 1] as nat, round_biases[k - 1] as nat);
        if k == 1 || b > a {
            b
        } else {
            a
        }
    }
}

/// How many channels `zip` pairs up.
pub open spec fn zip_len(a: nat, b: nat) -> nat {
    if a <= b {
        a
    } else {
        b
    }
}

/// Peak transient internal bit-width of an op, given its input widths.
pub open spec fn internal_bits_spec(op: OpModel, ins: Seq<usize>) -> int {
    match op {
        OpModel::Requant { mult, round_bias, mults, round_biases, .. } => if mults.len() == 0 {
            requant_internal_spec(ins[0] as nat, mult as nat, round_bias as nat) as int
        } else {
            per_channel_internal(
                ins[0] as nat,
                mults,
                round_biases,
                zip_len(mults.len(), round_biases.len()),
            ) as int
        },
        _ => output_bits_spec(op, ins),
    }
}

/// Whether `op_spec_internal_bits_n` is defined on these inputs.
pub open spec fn internal_bits_defined(op: OpModel, ins: Seq<usize>) -> bool {
    match op {
        OpModel::Requant { mult, round_bias, mults, round_biases, .. } => {
            &&& ins.len() == 1
            &&& if mults.len() == 0 {
                requant_internal_defined(ins[0] as nat, mult as nat, round_bias as nat)
            } else {
                &&& round_biases.len() > 0
                &&& forall|i: int|
                    0 <= i < zip_len(mults.len(), round_biases.len()) ==> requant_internal_defined(
                        ins[0] as nat,
                        #[trigger] mults[i] as nat,
                        round_biases[i] as nat,
                    )
            }
        },
        _ => output_bits_defined(op, ins),
    }
}

/// Peak transient internal bit-width for an op.
pub fn op_spec_internal_bits_n(spec: &OpSpec, input_bits: &[usize]) -> (r: usize)
    requires
        internal_bits_defined(spec@, input_bits@),
    ensures
        r == internal_bits_spec(spec@, input_bits@),
{
    match spec {
        OpSpec::Requant { mult, round_bias, mults, round_biases, .. } => {
            if mults.len() == 0 {
                requant_internal_bits(input_bits[0], *mult, *round_bias)
            } else {
                let n = if mults.len() <= round_biases.len() {
                    mults.len()
                } else {
                    round_biases.len()
                };
                let mut best: usize = 0;
                let mut i: usize = 0;
                while i < n
                    invariant
                        i <= n,
                        n == zip_len(mults@.len(), round_biases@.len()),
                        n <= mults@.len(),
                        n <= round_biases@.len(),
                        input_bits@.len() == 1,
                        forall|j: int|
                            0 <= j < n ==> requant_internal_defined(
                                input_bits@[0] as nat,
                                #[trigger] mults@[j] as nat,
                                round_biases@[j] as nat,
                            ),
                        best == per_channel_internal(
                            input_bits@[0] as nat,
                            mults@,
                            round_biases@,
                            i as nat,
                        ),
                    decreases n - i,
                {
                    let b = requant_internal_bits(input_bits[0], mults[i], round_biases[i]);
                    if i == 0 || b > best {
                        best = b;
                    }
                    i = i + 1;
                }
                best
            }
        },
        _ => op_spec_output_bits_n(spec, input_bits),
    }
}

/// The width every graph input starts with, keyed by tensor name.
pub open spec fn init_widths(inputs: Seq<Seq<char>>, input_bits: usize) -> Map<Seq<char>, usize>
    decreases inputs.len(),
{
    if inputs.len() == 0 {
        Map::empty()
    } else {
        init_widths(inputs.drop_last(), input_bits).insert(inputs.last(), input_bits)
    }
}

/// A tensor name not yet in `w`.
pub open spec fn missing_in(w: Map<Seq<char>, usize>) -> spec_fn(Seq<char>) -> bool {
    |s: Seq<char>| !w.contains_key(s)
}

/// The width `w` records for a tensor name.
pub open spec fn width_in(w: Map<Seq<char>, usize>) -> spec_fn(Seq<char>) -> usize {
    |s: Seq<char>| w[s]
}

/// The refusal for a node without inputs or without exactly one output.
pub open spec fn io_shape_msg(node: NodeModel) -> Seq<char> {
    "node '"@ + node.name + "' ("@ + op_type_name(node.op)
        + ") must have at least one input and exactly one output"@
}

/// The refusal for a node that reads a tensor nothing has produced yet.
pub open spec fn unknown_input_msg(node: NodeModel, tensor: Seq<char>) -> Seq<char> {
    "node '"@ + node.name + "' reads tensor '"@ + tensor
        + "', which no earlier node produced and is not a graph input \u{2014} node order is not a valid topological order"@
}

/// The refusal for a node that writes a tensor that already exists.
pub open spec fn duplicate_output_msg(node: NodeModel, tensor: Seq<char>) -> Seq<char> {
    "node '"@ + node.name + "' writes tensor '"@ + tensor
        + "', which already exists \u{2014} tensor names must be unique"@
}

/// Walks the nodes from index `k` on, with the widths `w` known so far: the
/// widths of every tensor once all nodes have passed, or the first refusal.
pub open spec fn walk_widths(nodes: Seq<NodeModel>, k: nat, w: Map<Seq<char>, usize>) -> Result<
    Map<Seq<char>, usize>,
    Seq<char>,
>
    decreases nodes.len() - k,
{
    if k >= nodes.len() {
        Ok(w)
    } else {
        let node = nodes[k as int];
        match validate_spec(node.op) {
            Err(m) => Err(m),
            Ok(()) => if node.inputs.len() == 0 || node.outputs.len() != 1 {
                Err(io_shape_msg(node))
            } else {
                match first_where(node.inputs, missing_in(w)) {
                    Some(i) => Err(unknown_input_msg(node, node.inputs[i])),
                    None => {
                        let ins = node.inputs.map_values(width_in(w));
                        let out = node.outputs[0];
                        if w.contains_key(out) {
                            Err(duplicate_output_msg(node, out))
                        } else {
                            walk_widths(
                                nodes,
                                k + 1,
                                w.insert(out, output_bits_spec(node.op, ins) as usize),
                            )
                        }
                    },
                }
            },
        }
    }
}

/// Whether the walk from node `k` stays within machine arithmetic, with no
/// overflow: every op it validates has representable sizes,
/// and every output width it computes is defined.
pub open spec fn walk_defined(nodes: Seq<NodeModel>, k: nat, w: Map<Seq<char>, usize>) -> bool
    decreases nodes.len() - k,
{
    if k >= nodes.len() {
        true
    } else {
        let node = nodes[k as int];
        &&& sizes_fit(node.op)
        &&& match validate_spec(node.op) {
            Err(m) => true,
            Ok(()) => if node.inputs.len() == 0 || node.outputs.len() != 1 {
                true
            } else {
                match first_where(node.inputs, missing_in(w)) {
                    Some(i) => true,
                    None => {
                        let ins = node.inputs.map_values(width_in(w));
                        let out = node.outputs[0];
                        &&& output_bits_defined(node.op, ins)
                        &&& if w.contains_key(out) {
                            true
                        } else {
                            walk_defined(
                                nodes,
                                k + 1,
                                w.insert(out, output_bits_spec(node.op, ins) as usize),
                            )
                        }
                    },
                }
            },
        }
    }
}

/// The per-tensor widths of a graph, seeded by `graph.input_bits`, or the
/// first refusal met walking its nodes in order.
pub open spec fn propagate_spec(graph: GraphModel) -> Result<Map<Seq<char>, usize>, Seq<char>> {
    walk_widths(graph.nodes, 0, init_widths(graph.inputs, graph.input_bits))
}

/// Whether `propagate_bit_widths` is defined on a graph (no overflow on the way).
pub open spec fn propagate_defined(graph: GraphModel) -> bool {
    walk_defined(graph.nodes, 0, init_widths(graph.inputs, graph.input_bits))
}

fn node_msg_prefix(name: &String) -> (r: String)
    ensures
        r@ == "node '"@ + name@,
{
    cat(String::from_str("node '"), name.as_str())
}

/// Propagate per-tensor bit-widths through a graph, seeded by `graph.input_bits`.
pub fn propagate_bit_widths(graph: &Graph) -> (r: Result<StringHashMap<usize>, String>)
    requires
        propagate_defined(graph@),
    ensures
        match r {
            Ok(w) => propagate_spec(graph@) == Ok::<Map<Seq<char>, usize>, Seq<char>>(w@),
            Err(e) => propagate_spec(graph@) == Err::<Map<Seq<char>, usize>, Seq<char>>(e@),
        },
{
    let mut widths: StringHashMap<usize> = StringHashMap::new();
    let mut j: usize = 0;
    while j < graph.inputs.len()
        invariant
            j <= graph.inputs@.len(),
            widths@ == init_widths(names(graph.inputs@).take(j as int), graph.input_bits),
        decreases graph.inputs@.len() - j,
    {
        assert(names(graph.inputs@).take(j + 1).drop_last() =~= names(graph.inputs@).take(j as int));
        widths.insert(graph.inputs[j].clone(), graph.input_bits);
        j = j + 1;
    }
    assert(names(graph.inputs@).take(graph.inputs@.len() as int) =~= names(graph.inputs@));
    let ghost nodes = graph@.nodes;
    let mut k: usize = 0;
    while k < graph.nodes.len()
        invariant
            k <= nodes.len(),
            nodes == graph@.nodes,
            propagate_spec(graph@) == walk_widths(nodes, k as nat, widths@),
            walk_defined(nodes, k as nat, widths@),
        decreases nodes.len() - k,
    {
        let node = &graph.nodes[k];
        node.op.validate()?;
        if node.inputs.len() == 0 || node.outputs.len() != 1 {
            let m = cat(node_msg_prefix(&node.name), "' (");
            let m = cat(m, node.op.op_type());
            let m = cat(m, ") must have at least one input and exactly one output");
            return Err(m);
        }
        let ghost w = widths@;
        let ghost missing = missing_in(w);
        let ghost width_of = width_in(w);
        let mut in_bits: Vec<usize> = Vec::new();
        let mut i: usize = 0;
        while i < node.inputs.len()
            invariant
                i <= node.inputs@.len(),
                w == widths@,
                k < nodes.len(),
                nodes[k as int] == node@,
                propagate_spec(graph@) == walk_widths(nodes, k as nat, w),
                validate_spec(node.op@) is Ok,
                node@.inputs.len() != 0,
                node@.outputs.len() == 1,
                missing == missing_in(w),
                width_of == width_in(w),
                forall|j: int| 0 <= j < i ==> !missing(#[trigger] node@.inputs[j]),
                in_bits@ == node@.inputs.take(i as int).map_values(width_of),
            decreases node.inputs@.len() - i,
        {
            match widths.get(node.inputs[i].as_str()) {
                Some(b) => {
                    in_bits.push(*b);
                    assert(node@.inputs.take(i + 1) =~= node@.inputs.take(i as int).push(
                        node@.inputs[i as int],
                    ));
                },
                None => {
                    proof { lemma_first_where_at(node@.inputs, missing, i as int); }
                    let m = cat(node_msg_prefix(&node.name), "' reads tensor '");
                    let m = cat(m, node.inputs[i].as_str());
                    let m = cat(
                        m,
                        "', which no earlier node produced and is not a graph input \u{2014} node order is not a valid topological order",
                    );
                    return Err(m);
                },
            }
            i = i + 1;
        }
        proof {
            lemma_first_where_none(node@.inputs, missing);
            assert(node@.inputs.take(node@.inputs.len() as int) =~= node@.inputs);
        }
        let out_bits = op_spec_output_bits_n(&node.op, in_bits.as_slice());
        let output_name = &node.outputs[0];
        if widths.contains_key(output_name.as_str()) {
            let m = cat(node_msg_prefix(&node.name), "' writes tensor '");
            let m = cat(m, output_name.as_str());
            let m = cat(m, "', which already exists \u{2014} tensor names must be unique");
            return Err(m);
        }
        widths.insert(output_name.clone(), out_bits);
        k = k + 1;
    }
    Ok(widths)
}


/// Every tensor a successful walk from node `k` touches ends up in its final
/// widths, and the widths known before the walk are kept.
pub proof fn lemma_walk_ok(
    nodes: Seq<NodeModel>,
    k: nat,
    w: Map<Seq<char>, usize>,
    fin: Map<Seq<char>, usize>,
)
    requires
        walk_widths(nodes, k, w) == Ok::<Map<Seq<char>, usize>, Seq<char>>(fin),
    ensures
        forall|key: Seq<char>| #[trigger] w.contains_key(key) ==> fin.contains_key(key) && fin[key] == w[key],
        forall|j: int|
            k <= j < nodes.len() ==> {
                &&& (#[trigger] nodes[j]).outputs.len() == 1
                &&& fin.contains_key(nodes[j].outputs[0])
                &&& forall|t: int|
                    0 <= t < nodes[j].inputs.len() ==> fin.contains_key(
                        #[trigger] nodes[j].inputs[t],
                    )
            },
    decreases nodes.len() - k,
{
    if k < nodes.len() {
        let node = nodes[k as int];
        let ins = node.inputs.map_values(width_in(w));
        let out = node.outputs[0];
        let w2 = w.insert(out, output_bits_spec(node.op, ins) as usize);
        lemma_first_where(node.inputs, missing_in(w));
        assert(validate_spec(node.op) is Ok);
        assert(node.inputs.len() != 0 && node.outputs.len() == 1);
        assert(first_where(node.inputs, missing_in(w)) is None);
        assert(!w.contains_key(out));
        assert(walk_widths(nodes, k + 1, w2) == Ok::<Map<Seq<char>, usize>, Seq<char>>(fin));
        lemma_walk_ok(nodes, k + 1, w2, fin);
        assert forall|key: Seq<char>| #[trigger] w.contains_key(key) implies fin.contains_key(key)
            && fin[key] == w[key] by {
            assert(w2.contains_key(key) && w2[key] == w[key]);
        }
        assert forall|t: int| 0 <= t < node.inputs.len() implies fin.contains_key(
            #[trigger] node.inputs[t],
        ) by {
            assert(!missing_in(w)(node.inputs[t]));
            assert(w.contains_key(node.inputs[t]));
            assert(w2.contains_key(node.inputs[t]));
        }
        assert(w2.contains_key(out));
    }
}

/// Whether node `j` passed the width walk that ended with the widths `fin`: its
/// op validates, it reads at least one tensor and writes exactly one, every
/// tensor it reads has a width, and its output's width is what its op makes of
/// the widths it reads.
pub open spec fn node_widths_hold(nodes: Seq<NodeModel>, j: int, fin: Map<Seq<char>, usize>) -> bool {
    let node = nodes[j];
    &&& validate_spec(node.op) is Ok
    &&& node.inputs.len() > 0
    &&& node.outputs.len() == 1
    &&& forall|t: int| 0 <= t < node.inputs.len() ==> fin.contains_key(#[trigger] node.inputs[t])
    &&& fin.contains_key(node.outputs[0])
    &&& fin[node.outputs[0]] == output_bits_spec(node.op, node.inputs.map_values(width_in(fin))) as usize
}

/// Whether node `j`'s output is new: not among the widths `w` nor an output of a
/// node from `k` before it.
pub open spec fn fresh_output(nodes: Seq<NodeModel>, k: int, w: Map<Seq<char>, usize>, j: int) -> bool {
    &&& !w.contains_key(nodes[j].outputs[0])
    &&& forall|l: int| k <= l < j ==> nodes[l].outputs[0] != nodes[j].outputs[0]
}

proof fn lemma_walk_widths_law(nodes: Seq<NodeModel>, k: nat, w: Map<Seq<char>, usize>, fin: Map<Seq<char>, usize>)
    requires
        walk_widths(nodes, k, w) == Ok::<Map<Seq<char>, usize>, Seq<char>>(fin),
    ensures
        forall|key: Seq<char>| #[trigger] w.contains_key(key) ==> fin.contains_key(key) && fin[key] == w[key],
        forall|key: Seq<char>|
            #[trigger] fin.contains_key(key) ==> w.contains_key(key) || exists|j: int|
                k <= j < nodes.len() && nodes[j].outputs[0] == key,
        forall|j: int| k <= j < nodes.len() ==> #[trigger] node_widths_hold(nodes, j, fin),
        forall|j: int| k <= j < nodes.len() ==> #[trigger] fresh_output(nodes, k as int, w, j),
    decreases nodes.len() - k,
{
    if k < nodes.len() {
        let node = nodes[k as int];
        let ins = node.inputs.map_values(width_in(w));
        let out = node.outputs[0];
        let w2 = w.insert(out, output_bits_spec(node.op, ins) as usize);
        lemma_first_where(node.inputs, missing_in(w));
        assert(walk_widths(nodes, k + 1, w2) == Ok::<Map<Seq<char>, usize>, Seq<char>>(fin));
        lemma_walk_widths_law(nodes, k + 1, w2, fin);
        assert forall|key: Seq<char>| #[trigger] w.contains_key(key) implies fin.contains_key(key)
            && fin[key] == w[key] by {
            assert(w2.contains_key(key) && w2[key] == w[key]);
        }
        assert forall|t: int| 0 <= t < node.inputs.len() implies w.contains_key(#[trigger] node.inputs[t]) by {
            assert(!missing_in(w)(node.inputs[t]));
        }
        assert(node.inputs.map_values(width_in(fin)) =~= ins) by {
            assert forall|t: int| 0 <= t < node.inputs.len() implies #[trigger] node.inputs.map_values(width_in(fin))[t] == ins[t] by {
                assert(w.contains_key(node.inputs[t]));
                assert(w2.contains_key(node.inputs[t]));
            }
        }
        assert(w2.contains_key(out));
        assert(fin[out] == w2[out]);
        assert(node_widths_hold(nodes, k as int, fin));
        assert forall|key: Seq<char>| #[trigger] fin.contains_key(key) implies w.contains_key(key)
            || exists|j: int| k <= j < nodes.len() && nodes[j].outputs[0] == key by {
            if !w.contains_key(key) && key == out {
                assert(nodes[k as int].outputs[0] == key);
            }
        }
        assert forall|j: int| k <= j < nodes.len() implies #[trigger] node_widths_hold(nodes, j, fin) by {
            if j > k {
                assert(node_widths_hold(nodes, j, fin));
            }
        }
        assert forall|j: int| k <= j < nodes.len() implies #[trigger] fresh_output(nodes, k as int, w, j) by {
            if j > k {
                assert(fresh_output(nodes, (k + 1) as int, w2, j));
                assert(!w2.contains_key(nodes[j].outputs[0]));
                assert(nodes[k as int].outputs[0] != nodes[j].outputs[0]);
            } else {
                assert(!w.contains_key(out));
            }
        }
    }
}

proof fn lemma_init_widths(inputs: Seq<Seq<char>>, input_bits: usize)
    ensures
        forall|t: Seq<char>| #[trigger] init_widths(inputs, input_bits).contains_key(t) <==> inputs.contains(t),
        forall|t: Seq<char>| #[trigger] init_widths(inputs, input_bits).contains_key(t) ==> init_widths(inputs, input_bits)[t] == input_bits,
    decreases inputs.len(),
{
    if inputs.len() > 0 {
        let prev = init_widths(inputs.drop_last(), input_bits);
        let cur = init_widths(inputs, input_bits);
        lemma_init_widths(inputs.drop_last(), input_bits);
        assert(cur == prev.insert(inputs.last(), input_bits));
        assert forall|t: Seq<char>| #[trigger] cur.contains_key(t) implies cur[t] == input_bits by {
            if t != inputs.last() {
                assert(prev.contains_key(t));
            }
        }
        assert forall|t: Seq<char>| #[trigger] cur.contains_key(t) <==> inputs.contains(t) by {
            if inputs.contains(t) && t != inputs.last() {
                let i = choose|i: int| 0 <= i < inputs.len() && inputs[i] == t;
                assert(inputs.drop_last()[i] == t);
            }
            if inputs.drop_last().contains(t) {
                let i = choose|i: int| 0 <= i < inputs.drop_last().len() && inputs.drop_last()[i] == t;
                assert(inputs[i] == t);
            }
            assert(inputs[inputs.len() - 1] == inputs.last());
        }
    }
}

/// The widths `propagate_bit_widths` gives a graph: every graph input has the
/// graph's input width, every node's op validates, it reads known tensors and
/// writes one new tensor, never a graph input nor an earlier node's output, whose
/// width is what its op makes of the widths it reads; and there are no other
/// tensors.
pub proof fn lemma_propagated_widths(g: GraphModel)
    requires
        propagate_spec(g) is Ok,
    ensures
        ({
            let w = propagate_spec(g)->Ok_0;
            &&& forall|t: Seq<char>|
                #[trigger] w.contains_key(t) <==> g.inputs.contains(t) || exists|j: int|
                    0 <= j < g.nodes.len() && g.nodes[j].outputs[0] == t
            &&& forall|t: Seq<char>| g.inputs.contains(t) ==> #[trigger] w[t] == g.input_bits
            &&& forall|j: int|
                0 <= j < g.nodes.len() ==> {
                    &&& #[trigger] node_widths_hold(g.nodes, j, w)
                    &&& !g.inputs.contains(g.nodes[j].outputs[0])
                    &&& forall|l: int| 0 <= l < j ==> g.nodes[l].outputs[0] != g.nodes[j].outputs[0]
                }
        }),
{
    let w = propagate_spec(g)->Ok_0;
    let w0 = init_widths(g.inputs, g.input_bits);
    lemma_init_widths(g.inputs, g.input_bits);
    lemma_walk_widths_law(g.nodes, 0, w0, w);
    assert forall|t: Seq<char>| g.inputs.contains(t) implies #[trigger] w[t] == g.input_bits by {
        assert(w0.contains_key(t));
    }
    assert forall|t: Seq<char>|
        #[trigger] w.contains_key(t) <==> g.inputs.contains(t) || exists|j: int|
            0 <= j < g.nodes.len() && g.nodes[j].outputs[0] == t by {
        if g.inputs.contains(t) {
            assert(w0.contains_key(t));
        }
        if exists|j: int| 0 <= j < g.nodes.len() && g.nodes[j].outputs[0] == t {
            let j = choose|j: int| 0 <= j < g.nodes.len() && g.nodes[j].outputs[0] == t;
            assert(node_widths_hold(g.nodes, j, w));
        }
    }
    assert forall|j: int| 0 <= j < g.nodes.len() implies {
        &&& #[trigger] node_widths_hold(g.nodes, j, w)
        &&& !g.inputs.contains(g.nodes[j].outputs[0])
        &&& forall|l: int| 0 <= l < j ==> g.nodes[l].outputs[0] != g.nodes[j].outputs[0]
    } by {
        assert(node_widths_hold(g.nodes, j, w));
        assert(fresh_output(g.nodes, 0, w0, j));
        if g.inputs.contains(g.nodes[j].outputs[0]) {
            assert(w0.contains_key(g.nodes[j].outputs[0]));
        }
    }
}

/// The tensors known before node `j`: the graph's inputs and the outputs of
/// the nodes before it.
pub open spec fn known_before(g: GraphModel, j: int) -> Set<Seq<char>> {
    Set::new(|t: Seq<char>| g.inputs.contains(t) || exists|l: int| 0 <= l < j && g.nodes[l].outputs[0] == t)
}

/// A tensor outside `known`.
pub open spec fn not_in(known: Set<Seq<char>>) -> spec_fn(Seq<char>) -> bool {
    |t: Seq<char>| !known.contains(t)
}

/// What is wrong with a node, given the tensors known before it: its op does
/// not validate, it reads nothing or does not write exactly one tensor, it
/// reads an unknown tensor, or it writes a known one.
pub open spec fn width_refusal(node: NodeModel, known: Set<Seq<char>>) -> Option<Seq<char>> {
    match validate_spec(node.op) {
        Err(m) => Some(m),
        Ok(()) => if node.inputs.len() == 0 || node.outputs.len() != 1 {
            Some(io_shape_msg(node))
        } else {
            match first_where(node.inputs, not_in(known)) {
                Some(i) => Some(unknown_input_msg(node, node.inputs[i])),
                None => if known.contains(node.outputs[0]) {
                    Some(duplicate_output_msg(node, node.outputs[0]))
                } else {
                    None
                },
            }
        },
    }
}

/// What is wrong with node `j` of a graph, if anything.
pub open spec fn graph_node_refusal(g: GraphModel, j: int) -> Option<Seq<char>> {
    width_refusal(g.nodes[j], known_before(g, j))
}

proof fn lemma_walk_first_bad(g: GraphModel, k: nat, w: Map<Seq<char>, usize>)
    requires
        k <= g.nodes.len(),
        w.dom() == known_before(g, k as int),
    ensures
        match walk_widths(g.nodes, k, w) {
            Ok(_) => forall|j: int| k <= j < g.nodes.len() ==> #[trigger] graph_node_refusal(g, j) is None,
            Err(e) => exists|j: int|
                k <= j < g.nodes.len() && (forall|l: int| k <= l < j ==> #[trigger] graph_node_refusal(g, l) is None)
                    && graph_node_refusal(g, j) == Some(e),
        },
    decreases g.nodes.len() - k,
{
    if k < g.nodes.len() {
        let node = g.nodes[k as int];
        let known = known_before(g, k as int);
        assert(missing_in(w) =~= not_in(known)) by {
            assert forall|t: Seq<char>| #[trigger] missing_in(w)(t) == not_in(known)(t) by {
                assert(w.dom().contains(t) == known.contains(t));
            }
        }
        if graph_node_refusal(g, k as int) is None {
            let ins = node.inputs.map_values(width_in(w));
            let out = node.outputs[0];
            let w2 = w.insert(out, output_bits_spec(node.op, ins) as usize);
            assert(w2.dom() =~= known_before(g, (k + 1) as int)) by {
                assert forall|t: Seq<char>| #[trigger] known_before(g, (k + 1) as int).contains(t) <==> w2.dom().contains(t) by {
                    if known_before(g, (k + 1) as int).contains(t) && !g.inputs.contains(t) && t != out {
                        let l = choose|l: int| 0 <= l < k + 1 && g.nodes[l].outputs[0] == t;
                        assert(known.contains(t));
                    }
                    if known.contains(t) && !g.inputs.contains(t) {
                        let l = choose|l: int| 0 <= l < k && g.nodes[l].outputs[0] == t;
                        assert(known_before(g, (k + 1) as int).contains(t));
                    }
                    if t == out {
                        assert(known_before(g, (k + 1) as int).contains(t));
                    }
                }
            }
            lemma_walk_first_bad(g, k + 1, w2);
            match walk_widths(g.nodes, k + 1, w2) {
                Ok(_) => {},
                Err(e) => {
                    let j = choose|j: int|
                        k + 1 <= j < g.nodes.len() && (forall|l: int| k + 1 <= l < j ==> #[trigger] graph_node_refusal(g, l) is None)
                            && graph_node_refusal(g, j) == Some(e);
                    assert(forall|l: int| k <= l < j ==> #[trigger] graph_node_refusal(g, l) is None);
                },
            }
        } else {
            assert(walk_widths(g.nodes, k, w) == Err::<Map<Seq<char>, usize>, Seq<char>>(graph_node_refusal(g, k as int)->0));
        }
    }
}

/// Width propagation refuses the first bad node: it succeeds exactly when no
/// node is refused, and otherwise its refusal is that of the first node whose op
/// does not validate, that reads nothing or does not write one tensor, that
/// reads a tensor neither a graph input nor an earlier node's output, or that
/// writes such a tensor.
pub proof fn lemma_propagate_refuses_first_bad_node(g: GraphModel)
    ensures
        match propagate_spec(g) {
            Ok(_) => forall|j: int| 0 <= j < g.nodes.len() ==> #[trigger] graph_node_refusal(g, j) is None,
            Err(e) => exists|j: int|
                0 <= j < g.nodes.len() && (forall|l: int| 0 <= l < j ==> #[trigger] graph_node_refusal(g, l) is None)
                    && graph_node_refusal(g, j) == Some(e),
        },
{
    let w0 = init_widths(g.inputs, g.input_bits);
    lemma_init_widths(g.inputs, g.input_bits);
    assert(w0.dom() =~= known_before(g, 0)) by {
        assert forall|t: Seq<char>| #[trigger] known_before(g, 0).contains(t) <==> w0.dom().contains(t) by {
            assert(w0.contains_key(t) <==> g.inputs.contains(t));
        }
    }
    lemma_walk_first_bad(g, 0, w0);
}

/// The refusal for a node whose output does not fit the radix.
pub open spec fn over_budget_msg(node: NodeModel, tensor: Seq<char>, bits: nat, capacity: nat, num_blocks: nat) -> Seq<char> {
    "bit-width budget exceeded at node '"@ + node.name + "' (tensor '"@ + tensor + "'): requires "@
        + dec(bits) + " bits but the radix holds only "@ + dec(capacity) + " ("@ + dec(num_blocks)
        + " blocks \u{d7} 2 bits). Reduce precision or widen num_blocks (a Requant here is Phase 4)."@
}

/// The refusal for a node whose transient intermediate does not fit the radix.
pub open spec fn inside_budget_msg(node: NodeModel, internal: nat, capacity: nat, num_blocks: nat) -> Seq<char> {
    "bit-width budget exceeded inside node '"@ + node.name + "' ("@ + op_type_name(node.op)
        + "): its rescale needs "@ + dec(internal)
        + " transient bits (the multiply-then-shift intermediate) but the radix holds only "@
        + dec(capacity) + " ("@ + dec(num_blocks)
        + " blocks \u{d7} 2 bits). Reduce the requant multiplier, reduce input precision, or widen num_blocks."@
}

/// Checks the nodes from `k` on against the capacity, given the final widths.
pub open spec fn budget_walk(
    nodes: Seq<NodeModel>,
    k: nat,
    fin: Map<Seq<char>, usize>,
    capacity: nat,
    num_blocks: nat,
) -> Result<(), Seq<char>>
    decreases nodes.len() - k,
{
    if k >= nodes.len() {
        Ok(())
    } else {
        let node = nodes[k as int];
        let t = node.outputs[0];
        let bits = fin[t];
        if bits > capacity {
            Err(over_budget_msg(node, t, bits as nat, capacity, num_blocks))
        } else {
            let ins = node.inputs.map_values(width_in(fin));
            let internal = internal_bits_spec(node.op, ins);
            if internal > capacity {
                Err(inside_budget_msg(node, internal as nat, capacity, num_blocks))
            } else {
                budget_walk(nodes, k + 1, fin, capacity, num_blocks)
            }
        }
    }
}

/// Whether every internal width the check computes from node `k` on is defined.
pub open spec fn budget_walk_defined(
    nodes: Seq<NodeModel>,
    k: nat,
    fin: Map<Seq<char>, usize>,
    capacity: nat,
) -> bool
    decreases nodes.len() - k,
{
    if k >= nodes.len() {
        true
    } else {
        let node = nodes[k as int];
        let bits = fin[node.outputs[0]];
        if bits > capacity {
            true
        } else {
            let ins = node.inputs.map_values(width_in(fin));
            &&& internal_bits_defined(node.op, ins)
            &&& (internal_bits_spec(node.op, ins) > capacity || budget_walk_defined(
                nodes,
                k + 1,
                fin,
                capacity,
            ))
        }
    }
}

/// The outcome of checking a graph's bit-width budget: the propagation's
/// refusal, else the first node whose output or transient width exceeds
/// `num_blocks * MESSAGE_BITS`.
pub open spec fn budget_spec(graph: GraphModel) -> Result<(), Seq<char>> {
    match propagate_spec(graph) {
        Err(m) => Err(m),
        Ok(fin) => budget_walk(
            graph.nodes,
            0,
            fin,
            (graph.num_blocks * MESSAGE_BITS) as nat,
            graph.num_blocks as nat,
        ),
    }
}

/// Whether node `j` fits the radix under the widths `fin`: its output width and
/// the transient width its op needs are both at most `capacity`.
pub open spec fn node_fits(nodes: Seq<NodeModel>, j: int, fin: Map<Seq<char>, usize>, capacity: nat) -> bool {
    &&& fin[nodes[j].outputs[0]] <= capacity
    &&& internal_bits_spec(nodes[j].op, nodes[j].inputs.map_values(width_in(fin))) <= capacity
}

proof fn lemma_budget_walk_ok(nodes: Seq<NodeModel>, k: nat, fin: Map<Seq<char>, usize>, capacity: nat, num_blocks: nat)
    ensures
        budget_walk(nodes, k, fin, capacity, num_blocks) is Ok <==> forall|j: int|
            k <= j < nodes.len() ==> #[trigger] node_fits(nodes, j, fin, capacity),
    decreases nodes.len() - k,
{
    if k < nodes.len() {
        lemma_budget_walk_ok(nodes, k + 1, fin, capacity, num_blocks);
        if !node_fits(nodes, k as int, fin, capacity) {
            assert(budget_walk(nodes, k, fin, capacity, num_blocks) is Err);
        }
    }
}

/// The bit-width budget law: a graph passes the budget check exactly when its
/// widths propagate and every node's output width and transient width fit the
/// radix of `num_blocks * MESSAGE_BITS` bits.
pub proof fn lemma_budget_law(g: GraphModel)
    ensures
        budget_spec(g) is Ok <==> (propagate_spec(g) is Ok && forall|j: int|
            0 <= j < g.nodes.len() ==> #[trigger] node_fits(
                g.nodes,
                j,
                propagate_spec(g)->Ok_0,
                (g.num_blocks * MESSAGE_BITS) as nat,
            )),
{
    if let Ok(fin) = propagate_spec(g) {
        lemma_budget_walk_ok(g.nodes, 0, fin, (g.num_blocks * MESSAGE_BITS) as nat, g.num_blocks as nat);
    }
}

/// Whether `check_graph_bit_width_budget` is defined on a graph (no overflow on the way).
pub open spec fn budget_defined(graph: GraphModel) -> bool {
    &&& graph.num_blocks * MESSAGE_BITS <= usize::MAX
    &&& propagate_defined(graph)
    &&& propagate_spec(graph) matches Ok(fin) ==> budget_walk_defined(
        graph.nodes,
        0,
        fin,
        (graph.num_blocks * MESSAGE_BITS) as nat,
    )
}

fn width_of(widths: &StringHashMap<usize>, name: &str) -> (r: usize)
    requires
        widths@.contains_key(name@),
    ensures
        r == widths@[name@],
{
    match widths.get(name) {
        Some(b) => *b,
        None => 0,
    }
}

/// Verify a graph's declared bit-width budget fits the radix capacity, failing
/// loudly before evaluation if not.
pub fn check_graph_bit_width_budget(graph: &Graph) -> (r: Result<(), String>)
    requires
        budget_defined(graph@),
    ensures
        match r {
            Ok(()) => budget_spec(graph@) is Ok,
            Err(e) => budget_spec(graph@) == Err::<(), Seq<char>>(e@),
        },
{
    let capacity = radix_capacity_bits(graph.num_blocks);
    let widths = propagate_bit_widths(graph)?;
    let ghost fin = widths@;
    let ghost nodes = graph@.nodes;
    proof {
        lemma_walk_ok(nodes, 0, init_widths(graph@.inputs, graph.input_bits), fin);
    }
    let mut k: usize = 0;
    while k < graph.nodes.len()
        invariant
            k <= nodes.len(),
            nodes == graph@.nodes,
            fin == widths@,
            capacity == graph.num_blocks * MESSAGE_BITS,
            budget_spec(graph@) == budget_walk(nodes, k as nat, fin, capacity as nat, graph.num_blocks as nat),
            budget_walk_defined(nodes, k as nat, fin, capacity as nat),
            forall|j: int|
                0 <= j < nodes.len() ==> {
                    &&& (#[trigger] nodes[j]).outputs.len() == 1
                    &&& fin.contains_key(nodes[j].outputs[0])
                    &&& forall|t: int|
                        0 <= t < nodes[j].inputs.len() ==> fin.contains_key(
                            #[trigger] nodes[j].inputs[t],
                        )
                },
        decreases nodes.len() - k,
    {
        let node = &graph.nodes[k];
        assert(nodes[k as int] == node@);
        let name = &node.outputs[0];
        let bits = width_of(&widths, name.as_str());
        if bits > capacity {
            let m = cat(String::from_str("bit-width budget exceeded at node '"), node.name.as_str());
            let m = cat(m, "' (tensor '");
            let m = cat(m, name.as_str());
            let m = cat(m, "'): requires ");
            let m = cat(m, usize_text(bits).as_str());
            let m = cat(m, " bits but the radix holds only ");
            let m = cat(m, usize_text(capacity).as_str());
            let m = cat(m, " (");
            let m = cat(m, usize_text(graph.num_blocks).as_str());
            let m = cat(
                m,
                " blocks \u{d7} 2 bits). Reduce precision or widen num_blocks (a Requant here is Phase 4).",
            );
            return Err(m);
        }
        let ghost width_fn = width_in(fin);
        let mut in_bits: Vec<usize> = Vec::new();
        let mut i: usize = 0;
        while i < node.inputs.len()
            invariant
                i <= node.inputs@.len(),
                fin == widths@,
                width_fn == width_in(fin),
                forall|t: int| 0 <= t < node@.inputs.len() ==> fin.contains_key(
                    #[trigger] node@.inputs[t],
                ),
                in_bits@ == node@.inputs.take(i as int).map_values(width_fn),
            decreases node.inputs@.len() - i,
        {
            assert(node@.inputs[i as int] == node.inputs@[i as int]@);
            let b = width_of(&widths, node.inputs[i].as_str());
            in_bits.push(b);
            assert(node@.inputs.take(i + 1) =~= node@.inputs.take(i as int).push(node@.inputs[i as int]));
            i = i + 1;
        }
        assert(node@.inputs.take(node@.inputs.len() as int) =~= node@.inputs);
        let internal = op_spec_internal_bits_n(&node.op, in_bits.as_slice());
        if internal > capacity {
            let m = cat(String::from_str("bit-width budget exceeded inside node '"), node.name.as_str());
            let m = cat(m, "' (");
            let m = cat(m, node.op.op_type());
            let m = cat(m, "): its rescale needs ");
            let m = cat(m, usize_text(internal).as_str());
            let m = cat(
                m,
                " transient bits (the multiply-then-shift intermediate) but the radix holds only ",
            );
            let m = cat(m, usize_text(capacity).as_str());
            let m = cat(m, " (");
            let m = cat(m, usize_text(graph.num_blocks).as_str());
            let m = cat(
                m,
                " blocks \u{d7} 2 bits). Reduce the requant multiplier, reduce input precision, or widen num_blocks.",
            );
            return Err(m);
        }
        k = k + 1;
    }
    Ok(())
}


/// The refusal for op `i` of a chain whose output does not fit the radix.
pub open spec fn chain_over_budget_msg(i: nat, bits: nat, capacity: nat, num_blocks: nat) -> Seq<char> {
    "bit-width budget exceeded at op #"@ + dec(i) + ": requires "@ + dec(bits)
        + " bits but the radix holds only "@ + dec(capacity) + " ("@ + dec(num_blocks)
        + " blocks \u{d7} 2 bits). Reduce precision or widen num_blocks (a Requant here is Phase 4)."@
}

/// A width above the capacity.
pub open spec fn above(capacity: nat) -> spec_fn(usize) -> bool {
    |w: usize| w > capacity
}

/// Judge the successive output widths of a chain of ops against the radix
/// capacity: the first width above it is refused, naming its op's position.
pub fn chain_budget_verdict(widths: &[usize], num_blocks: usize) -> (r: Result<(), String>)
    requires
        num_blocks * MESSAGE_BITS <= usize::MAX,
    ensures
        match first_where(widths@, above((num_blocks * MESSAGE_BITS) as nat)) {
            None => r is Ok,
            Some(i) => r matches Err(e) && e@ == chain_over_budget_msg(
                i as nat,
                widths@[i] as nat,
                (num_blocks * MESSAGE_BITS) as nat,
                num_blocks as nat,
            ),
        },
{
    let capacity = radix_capacity_bits(num_blocks);
    let ghost p = above(capacity as nat);
    let mut i: usize = 0;
    while i < widths.len()
        invariant
            i <= widths@.len(),
            capacity == num_blocks * MESSAGE_BITS,
            p == above(capacity as nat),
            forall|j: int| 0 <= j < i ==> !p(#[trigger] widths@[j]),
        decreases widths@.len() - i,
    {
        if widths[i] > capacity {
            proof { lemma_first_where_at(widths@, p, i as int); }
            let m = cat(String::from_str("bit-width budget exceeded at op #"), usize_text(i).as_str());
            let m = cat(m, ": requires ");
            let m = cat(m, usize_text(widths[i]).as_str());
            let m = cat(m, " bits but the radix holds only ");
            let m = cat(m, usize_text(capacity).as_str());
            let m = cat(m, " (");
            let m = cat(m, usize_text(num_blocks).as_str());
            let m = cat(
                m,
                " blocks \u{d7} 2 bits). Reduce precision or widen num_blocks (a Requant here is Phase 4).",
            );
            return Err(m);
        }
        i = i + 1;
    }
    proof { lemma_first_where_none(widths@, p); }
    Ok(())
}

/// The width after the first `i` ops of a chain fed `input_bits`: each op is
/// handed the width the previous one declared.
pub open spec fn chained_width<Ct, Sk>(ops: Seq<Box<dyn Op<Ct, Sk>>>, input_bits: usize, i: nat) -> usize
    decreases i,
{
    if i == 0 {
        input_bits
    } else {
        ops[i - 1].out_bits_spec(chained_width(ops, input_bits, (i - 1) as nat))
    }
}

/// The output width of each op of the chain, in order.
pub open spec fn chained_widths<Ct, Sk>(ops: Seq<Box<dyn Op<Ct, Sk>>>, input_bits: usize) -> Seq<usize> {
    Seq::new(ops.len(), |i: int| chained_width(ops, input_bits, (i + 1) as nat))
}

/// Verify that a chain of ops, each fed the previous one's output width, stays
/// within the radix capacity: the first op whose output exceeds it is refused,
/// naming its position, and no later op is asked for its width.
pub fn check_bit_width_budget<B: Backend>(
    ops: &[Box<dyn Op<B::Ciphertext, B::ServerKey>>],
    input_bits: usize,
    num_blocks: usize,
) -> (r: Result<(), String>)
    requires
        num_blocks * MESSAGE_BITS <= usize::MAX,
    ensures
        match first_where(chained_widths(ops@, input_bits), above((num_blocks * MESSAGE_BITS) as nat)) {
            None => r is Ok,
            Some(j) => r matches Err(e) && e@ == chain_over_budget_msg(
                j as nat,
                chained_widths(ops@, input_bits)[j] as nat,
                (num_blocks * MESSAGE_BITS) as nat,
                num_blocks as nat,
            ),
        },
{
    let capacity = radix_capacity_bits(num_blocks);
    let ghost all = chained_widths(ops@, input_bits);
    let ghost p = above(capacity as nat);
    let mut widths: Vec<usize> = Vec::new();
    let mut bits = input_bits;
    let mut i: usize = 0;
    while i < ops.len()
        invariant_except_break
            widths@ == all.take(i as int),
            bits == chained_width(ops@, input_bits, i as nat),
            forall|j: int| 0 <= j < i ==> !p(#[trigger] all[j]),
        invariant
            i <= ops@.len(),
            capacity == num_blocks * MESSAGE_BITS,
            all == chained_widths(ops@, input_bits),
            p == above(capacity as nat),
        ensures
            (i < ops@.len() && widths@ == all.take(i + 1) && p(all[i as int]) && forall|j: int|
                0 <= j < i ==> !p(#[trigger] all[j])) || (i == ops@.len() && widths@ == all),
        decreases ops@.len() - i,
    {
        let out = ops[i].output_bits(bits);
        assert(all[i as int] == out);
        widths.push(out);
        assert(widths@ =~= all.take(i + 1));
        if out > capacity {
            break;
        }
        bits = out;
        i = i + 1;
    }
    let r = chain_budget_verdict(widths.as_slice(), num_blocks);
    proof {
        if i < ops@.len() {
            lemma_first_where_at(all, p, i as int);
            lemma_first_where_at(widths@, p, i as int);
        } else {
            assert(all.take(i as int) =~= all);
        }
    }
    r
}


/// Whether the accumulator width of a `Linear` or `Conv2d` fits `usize`,
/// worked out in wide arithmetic.
fn accumulate_fits(in_b: usize, weight_bits: usize, fan_in: usize, bias: &Vec<i64>) -> (r: bool)
    ensures
        r == (accumulate_bits(in_b as int, weight_bits as int, fan_in as nat, bias@) <= usize::MAX),
{
    let growth = ceil_log2(fan_in);
    let bias_bits = max_magnitude_bits(bias);
    let sum: u128 = in_b as u128 + weight_bits as u128 + growth as u128;
    let top: u128 = if sum >= bias_bits as u128 {
        sum
    } else {
        bias_bits as u128
    };
    top + 2 <= usize::MAX as u128
}

/// Whether `op_spec_output_bits_n` is defined on these input widths, as
/// `output_bits_defined` says, decided with checked and wide arithmetic.
pub fn output_bits_ready(spec: &OpSpec, input_bits: &[usize]) -> (r: bool)
    ensures
        r == output_bits_defined(spec@, input_bits@),
{
    let arity: usize = match spec {
        OpSpec::Add {  } => 2,
        _ => 1,
    };
    if input_bits.len() != arity {
        return false;
    }
    match spec {
        OpSpec::Linear { weights, bias, weight_bits } => {
            let n = if weights.len() > 0 {
                weights[0].len()
            } else {
                0
            };
            accumulate_fits(input_bits[0], *weight_bits, n, bias)
        },
        OpSpec::Conv2d { bias, weight_bits, in_channels, kernel_h, kernel_w, .. } => {
            match in_channels.checked_mul(*kernel_h) {
                None => false,
                Some(ck) => match ck.checked_mul(*kernel_w) {
                    None => false,
                    Some(fan) => accumulate_fits(input_bits[0], *weight_bits, fan, bias),
                },
            }
        },
        OpSpec::Pool { mode, pool_h, pool_w, .. } => match pool_h.checked_mul(*pool_w) {
            None => false,
            Some(k) => if crate::text::str_eq(mode.as_str(), "max") {
                true
            } else {
                (input_bits[0] as u128) + (ceil_log2(k) as u128) <= usize::MAX as u128
            },
        },
        OpSpec::Add {  } => input_bits[0] < usize::MAX && input_bits[1] < usize::MAX,
        _ => true,
    }
}

/// Whether width propagation over `graph` stays within machine arithmetic, as
/// `propagate_defined` says: the walk of `propagate_bit_widths`, run with
/// every size and width checked before it is computed.
#[verifier::loop_isolation(false)]
pub fn propagate_ready(graph: &Graph) -> (r: bool)
    ensures
        r == propagate_defined(graph@),
{
    let mut widths: StringHashMap<usize> = StringHashMap::new();
    let mut j: usize = 0;
    while j < graph.inputs.len()
        invariant
            j <= graph.inputs@.len(),
            widths@ == init_widths(names(graph.inputs@).take(j as int), graph.input_bits),
        decreases graph.inputs@.len() - j,
    {
        assert(names(graph.inputs@).take(j + 1).drop_last() =~= names(graph.inputs@).take(j as int));
        widths.insert(graph.inputs[j].clone(), graph.input_bits);
        j = j + 1;
    }
    assert(names(graph.inputs@).take(graph.inputs@.len() as int) =~= names(graph.inputs@));
    let ghost nodes = graph@.nodes;
    let mut k: usize = 0;
    while k < graph.nodes.len()
        invariant
            k <= nodes.len(),
            nodes == graph@.nodes,
            propagate_defined(graph@) == walk_defined(nodes, k as nat, widths@),
        decreases nodes.len() - k,
    {
        let node = &graph.nodes[k];
        assert(nodes[k as int] == node@);
        if !crate::ir::sizes_ready(&node.op) {
            return false;
        }
        if node.op.validate().is_err() {
            return true;
        }
        if node.inputs.len() == 0 || node.outputs.len() != 1 {
            return true;
        }
        let ghost w = widths@;
        let ghost missing = missing_in(w);
        let ghost width_of = width_in(w);
        let mut in_bits: Vec<usize> = Vec::new();
        let mut i: usize = 0;
        while i < node.inputs.len()
            invariant
                i <= node.inputs@.len(),
                w == widths@,
                missing == missing_in(w),
                width_of == width_in(w),
                forall|j: int| 0 <= j < i ==> !missing(#[trigger] node@.inputs[j]),
                in_bits@ == node@.inputs.take(i as int).map_values(width_of),
            decreases node.inputs@.len() - i,
        {
            match widths.get(node.inputs[i].as_str()) {
                Some(b) => {
                    in_bits.push(*b);
                    assert(node@.inputs.take(i + 1) =~= node@.inputs.take(i as int).push(
                        node@.inputs[i as int],
                    ));
                },
                None => {
                    proof { lemma_first_where_at(node@.inputs, missing, i as int); }
                    return true;
                },
            }
            i = i + 1;
        }
        proof {
            lemma_first_where_none(node@.inputs, missing);
            assert(node@.inputs.take(node@.inputs.len() as int) =~= node@.inputs);
        }
        if !output_bits_ready(&node.op, in_bits.as_slice()) {
            return false;
        }
        let out_bits = op_spec_output_bits_n(&node.op, in_bits.as_slice());
        let output_name = &node.outputs[0];
        if widths.contains_key(output_name.as_str()) {
            return true;
        }
        widths.insert(output_name.clone(), out_bits);
        k = k + 1;
    }
    true
}


/// The width of a sum: an `Add` of two inputs needs one bit more than the wider
/// of them, and no more, whichever order the inputs come in.
pub proof fn lemma_add_width(a: usize, b: usize)
    ensures
        output_bits_spec(OpModel::Add, seq![a, b]) == output_bits_spec(OpModel::Add, seq![b, a]),
        output_bits_spec(OpModel::Add, seq![a, b]) >= a + 1,
        output_bits_spec(OpModel::Add, seq![a, b]) >= b + 1,
        output_bits_spec(OpModel::Add, seq![a, b]) == a + 1 || output_bits_spec(OpModel::Add, seq![a, b]) == b + 1,
        output_bits_defined(OpModel::Add, seq![a, b]) <==> (a < usize::MAX && b < usize::MAX),
{
}


/// How many products a `Linear` or `Conv2d` output accumulates: the length of
/// a weight row, or the kernel volume.
pub open spec fn fan_in(op: OpModel) -> nat {
    match op {
        OpModel::Linear { weights, .. } => if weights.len() > 0 {
            weights[0].len()
        } else {
            0
        },
        OpModel::Conv2d { in_channels, kernel_h, kernel_w, .. } => (in_channels * kernel_h * kernel_w) as nat,
        _ => 0,
    }
}

/// The bias of a `Linear` or `Conv2d`.
pub open spec fn op_bias(op: OpModel) -> Seq<i64> {
    match op {
        OpModel::Linear { bias, .. } => bias,
        OpModel::Conv2d { bias, .. } => bias,
        _ => seq![],
    }
}

/// The weight width of a `Linear` or `Conv2d`.
pub open spec fn op_weight_bits(op: OpModel) -> nat {
    match op {
        OpModel::Linear { weight_bits, .. } => weight_bits as nat,
        OpModel::Conv2d { weight_bits, .. } => weight_bits as nat,
        _ => 0,
    }
}

/// Every bias fits the widest bias magnitude.
proof fn lemma_max_mag_bounds(s: Seq<i64>)
    ensures
        forall|i: int| 0 <= i < s.len() ==> bitlen(abs_nat(#[trigger] s[i])) <= max_mag(s),
    decreases s.len(),
{
    if s.len() > 0 {
        lemma_max_mag_bounds(s.drop_last());
        assert forall|i: int| 0 <= i < s.len() implies bitlen(abs_nat(#[trigger] s[i])) <= max_mag(s) by {
            if i < s.len() - 1 {
                assert(s[i] == s.drop_last()[i]);
            }
        }
    }
}

/// The output width of a `Linear` or `Conv2d` holds its whole accumulation:
/// below the sign and carry bits, `2^(width - 2)` is at least the number of
/// products times the largest input magnitude `2^input_bits` times the largest
/// weight magnitude `2^weight_bits`, and above every bias magnitude.
pub proof fn lemma_accumulator_holds_the_sum(op: OpModel, input_bits: usize)
    requires
        op is Linear || op is Conv2d,
    ensures
        output_bits_spec(op, seq![input_bits]) >= 2,
        fan_in(op) * p2(input_bits as nat) * p2(op_weight_bits(op)) <= p2(
            (output_bits_spec(op, seq![input_bits]) - 2) as nat,
        ),
        forall|i: int|
            0 <= i < op_bias(op).len() ==> abs_nat(#[trigger] op_bias(op)[i]) < p2(
                (output_bits_spec(op, seq![input_bits]) - 2) as nat,
            ),
{
    let wb: nat = op_weight_bits(op);
    let bias = op_bias(op);
    let n = fan_in(op);
    let out = output_bits_spec(op, seq![input_bits]);
    let inner: nat = (out - 2) as nat;
    let sum_bits: nat = input_bits as nat + wb + clog2(n);
    assert(out == accumulate_bits(input_bits as int, wb as int, n, bias));
    assert(inner >= sum_bits);
    assert(inner >= max_mag(bias));
    lemma_clog2(n);
    lemma_p2_add(input_bits as nat, wb);
    lemma_p2_add(input_bits as nat + wb, clog2(n));
    lemma_p2_mono(sum_bits, inner);
    let x = p2(input_bits as nat);
    let y = p2(wb);
    let z = p2(clog2(n));
    assert(p2(sum_bits) == x * y * z);
    assert(n * x * y <= x * y * z) by (nonlinear_arith)
        requires
            n <= z,
    ;
    lemma_max_mag_bounds(bias);
    assert forall|i: int| 0 <= i < bias.len() implies abs_nat(#[trigger] bias[i]) < p2(inner) by {
        lemma_bitlen(abs_nat(bias[i]));
        lemma_p2_mono(bitlen(abs_nat(bias[i])), inner);
    }
}

/// The output width of an average pool holds the sum of its window: the window
/// size times the largest input magnitude `2^input_bits` is at most
/// `2^width`; a max pool keeps the input width.
pub proof fn lemma_pool_width(op: OpModel, input_bits: usize)
    requires
        op is Pool,
    ensures
        op->Pool_mode == "max"@ ==> output_bits_spec(op, seq![input_bits]) == input_bits,
        op->Pool_mode != "max"@ ==> (op->Pool_pool_h * op->Pool_pool_w) * p2(input_bits as nat) <= p2(
            output_bits_spec(op, seq![input_bits]) as nat,
        ),
{
    if op->Pool_mode != "max"@ {
        let k: nat = (op->Pool_pool_h * op->Pool_pool_w) as nat;
        lemma_clog2(k);
        lemma_p2_add(input_bits as nat, clog2(k));
        assert(k * p2(input_bits as nat) <= p2(clog2(k)) * p2(input_bits as nat)) by (nonlinear_arith)
            requires
                k <= p2(clog2(k)),
        ;
        assert(p2(input_bits as nat) * p2(clog2(k)) == p2(clog2(k)) * p2(input_bits as nat)) by (nonlinear_arith);
    }
}


/// The peak width of a per-tensor `Requant` holds its rescale: the largest
/// ReLU'd input (`2^(input_bits - 1) - 1`) times the multiplier plus the
/// rounding bias lies below `2^(width - 1)`, leaving a sign bit, and the width
/// never drops below the input's.
pub proof fn lemma_requant_internal_holds(input_bits: usize, mult: u64, round_bias: u64)
    ensures
        internal_bits_spec(
            OpModel::Requant {
                shift: 0,
                mult,
                round_bias,
                out_bits: 0,
                clamp_lut: seq![],
                mults: seq![],
                shifts: seq![],
                round_biases: seq![],
                channel_size: None,
            },
            seq![input_bits],
        ) >= input_bits,
        relu_max(input_bits as nat) * mult + round_bias < p2(
            (internal_bits_spec(
                OpModel::Requant {
                    shift: 0,
                    mult,
                    round_bias,
                    out_bits: 0,
                    clamp_lut: seq![],
                    mults: seq![],
                    shifts: seq![],
                    round_biases: seq![],
                    channel_size: None,
                },
                seq![input_bits],
            ) - 1) as nat,
        ),
{
    let v = requant_intermediate(input_bits as nat, mult as nat, round_bias as nat);
    lemma_bitlen(v);
    let w = requant_internal_spec(input_bits as nat, mult as nat, round_bias as nat);
    lemma_p2_mono(bitlen(v), (w - 1) as nat);
}

} // verus!
