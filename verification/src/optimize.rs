//! A semantics-preserving graph-fusion pass: adjacent single-block lookup-table
//! nodes (`Requant` and `Activation`) are replaced by one composed node.

use vstd::arithmetic::power2::pow2;
use vstd::prelude::*;

use crate::bitwidth::{
    bitlen, magnitude_bits, propagate_bit_widths, propagate_defined, propagate_spec, MESSAGE_BITS,
};
use crate::copies::{copy_string, copy_strings, copy_vec, node_models};
use crate::ir::{cat, names, Graph, GraphModel, Node, NodeModel, OpModel, OpSpec};
use crate::text::{str_eq, usize_text};

verus! {

/// The index a single-block value selects in a table (`v as usize`).
pub open spec fn as_index(v: u64) -> int {
    (v as usize) as int
}

/// The table entry a value selects.
pub open spec fn lookup_in(table: Seq<u64>) -> spec_fn(u64) -> u64 {
    |v: u64| table[as_index(v)]
}

/// The largest element (0 for an empty sequence).
pub open spec fn seq_max(s: Seq<u64>) -> u64
    decreases s.len(),
{
    if s.len() == 0 {
        0
    } else {
        let a = seq_max(s.drop_last());
        if a >= s.last() {
            a
        } else {
            s.last()
        }
    }
}

/// Whether a composed table's largest entry needs at most `out_bits` bits.
pub open spec fn fits_out_bits(table: Seq<u64>, out_bits: usize) -> bool {
    bitlen(seq_max(table) as nat) <= out_bits
}

/// Whether `v` selects an entry of `act` that fits one message block.
pub open spec fn block_entry_ok(act: Seq<u64>, v: u64) -> bool {
    &&& as_index(v) < act.len()
    &&& act[as_index(v)] < 4
}

/// Requant then Activation: the clamp table composed with the activation table,
/// when every composed entry fits one message block.
pub open spec fn compose_requant_activation(clamp: Seq<u64>, act: Seq<u64>) -> Option<Seq<u64>> {
    if forall|i: int| 0 <= i < clamp.len() ==> block_entry_ok(act, #[trigger] clamp[i]) {
        Some(clamp.map_values(lookup_in(act)))
    } else {
        None
    }
}

/// Activation then Activation: the first table composed with the second, when
/// every entry of the first selects an entry of the second.
pub open spec fn compose_activations(first: Seq<u64>, second: Seq<u64>) -> Option<Seq<u64>> {
    if forall|i: int| 0 <= i < first.len() ==> as_index(#[trigger] first[i]) < second.len() {
        Some(first.map_values(lookup_in(second)))
    } else {
        None
    }
}

/// The index a per-tensor `Requant` selects for a non-negative single-block value
/// `u`: the rescaled value `(u * mult + round_bias) / 2^shift`, saturated at
/// `2^out_bits - 1`.
pub open spec fn requant_select(u: u64, mult: u64, round_bias: u64, shift: u32, out_bits: usize) -> int {
    let val = (u * mult + round_bias) / pow2(shift as nat) as int;
    let max_sat = pow2(out_bits as nat) - 1;
    let sat = if val <= max_sat {
        val
    } else {
        max_sat
    };
    as_index(sat as u64)
}

/// The rescale table step of a `Requant` seen as a function of a single-block value.
pub open spec fn requant_step(mult: u64, round_bias: u64, shift: u32, out_bits: usize, table: Seq<u64>) -> spec_fn(u64) -> u64 {
    |u: u64| table[requant_select(u, mult, round_bias, shift, out_bits)]
}

/// Whether `u`, rescaled by a `Requant`, selects an entry of its table that fits one block.
pub open spec fn requant_entry_ok(u: u64, mult: u64, round_bias: u64, shift: u32, out_bits: usize, table: Seq<u64>) -> bool {
    &&& requant_select(u, mult, round_bias, shift, out_bits) < table.len()
    &&& table[requant_select(u, mult, round_bias, shift, out_bits)] < 4
}

/// Requant then per-tensor Requant: the first clamp table pushed through the
/// second rescale and its table, when every composed entry fits one block.
pub open spec fn compose_requants(
    first: Seq<u64>,
    mult: u64,
    round_bias: u64,
    shift: u32,
    out_bits: usize,
    second: Seq<u64>,
) -> Option<Seq<u64>> {
    if forall|i: int|
        0 <= i < first.len() ==> requant_entry_ok(
            #[trigger] first[i],
            mult,
            round_bias,
            shift,
            out_bits,
            second,
        ) {
        Some(first.map_values(requant_step(mult, round_bias, shift, out_bits, second)))
    } else {
        None
    }
}

/// Whether the 64-bit rescale of the second `Requant` is computed without
/// overflow for every entry it reaches (it stops at the first entry that fails).
pub open spec fn compose_requants_defined(
    first: Seq<u64>,
    mult: u64,
    round_bias: u64,
    shift: u32,
    out_bits: usize,
    second: Seq<u64>,
) -> bool {
    &&& out_bits < 64
    &&& shift < 64
    &&& forall|i: int|
        0 <= i < first.len() && (forall|j: int|
            0 <= j < i ==> requant_entry_ok(
                #[trigger] first[j],
                mult,
                round_bias,
                shift,
                out_bits,
                second,
            )) ==> #[trigger] first[i] * mult + round_bias <= u64::MAX
}

/// The op that replaces a producer/consumer pair, if a fusion rule applies.
pub open spec fn fuse_ops(prod: OpModel, cons: OpModel) -> Option<OpModel> {
    match prod {
        OpModel::Requant {
            shift,
            mult,
            round_bias,
            out_bits,
            clamp_lut,
            mults,
            shifts,
            round_biases,
            channel_size,
        } => match cons {
            OpModel::Activation { lut, .. } => match compose_requant_activation(clamp_lut, lut) {
                Some(c) => if fits_out_bits(c, out_bits) {
                    Some(
                        OpModel::Requant {
                            shift,
                            mult,
                            round_bias,
                            out_bits,
                            clamp_lut: c,
                            mults,
                            shifts,
                            round_biases,
                            channel_size,
                        },
                    )
                } else {
                    None
                },
                None => None,
            },
            OpModel::Requant {
                shift: shift2,
                mult: mult2,
                round_bias: round_bias2,
                out_bits: out_bits2,
                clamp_lut: clamp_lut2,
                mults: mults2,
                shifts: shifts2,
                round_biases: round_biases2,
                ..
            } => if mults2.len() == 0 && shifts2.len() == 0 && round_biases2.len() == 0 {
                match compose_requants(clamp_lut, mult2, round_bias2, shift2, out_bits2, clamp_lut2) {
                    Some(c) => if fits_out_bits(c, out_bits) {
                        Some(
                            OpModel::Requant {
                                shift,
                                mult,
                                round_bias,
                                out_bits,
                                clamp_lut: c,
                                mults,
                                shifts,
                                round_biases,
                                channel_size,
                            },
                        )
                    } else {
                        None
                    },
                    None => None,
                }
            } else {
                None
            },
            _ => None,
        },
        OpModel::Activation { lut: first, .. } => match cons {
            OpModel::Activation { lut: second, output_bits } => match compose_activations(
                first,
                second,
            ) {
                Some(c) => Some(OpModel::Activation { lut: c, output_bits }),
                None => None,
            },
            _ => None,
        },
        _ => None,
    }
}

/// Whether trying to fuse a pair stays free of overflow.
pub open spec fn fuse_ops_defined(prod: OpModel, cons: OpModel) -> bool {
    match prod {
        OpModel::Requant { clamp_lut, .. } => match cons {
            OpModel::Requant {
                shift: shift2,
                mult: mult2,
                round_bias: round_bias2,
                out_bits: out_bits2,
                clamp_lut: clamp_lut2,
                mults: mults2,
                shifts: shifts2,
                round_biases: round_biases2,
                ..
            } => (mults2.len() == 0 && shifts2.len() == 0 && round_biases2.len() == 0)
                ==> compose_requants_defined(
                clamp_lut,
                mult2,
                round_bias2,
                shift2,
                out_bits2,
                clamp_lut2,
            ),
            _ => true,
        },
        _ => true,
    }
}

/// How often `t` occurs in `ts`.
pub open spec fn count_in(ts: Seq<Seq<char>>, t: Seq<char>) -> nat
    decreases ts.len(),
{
    if ts.len() == 0 {
        0
    } else {
        count_in(ts.drop_last(), t) + if ts.last() == t {
            1nat
        } else {
            0nat
        }
    }
}

/// The index of the node behind every read of tensor `t`, one entry per read,
/// in node order.
pub open spec fn consumers(nodes: Seq<NodeModel>, t: Seq<char>) -> Seq<int>
    decreases nodes.len(),
{
    if nodes.len() == 0 {
        seq![]
    } else {
        consumers(nodes.drop_last(), t) + Seq::new(
            count_in(nodes.last().inputs, t),
            |_k: int| nodes.len() - 1,
        )
    }
}

/// The node that stands for a fused producer/consumer pair: the producer's name
/// and inputs, the consumer's outputs, and the composed op.
pub open spec fn fused_node(prod: NodeModel, cons: NodeModel, op: OpModel) -> NodeModel {
    NodeModel { name: prod.name, inputs: prod.inputs, outputs: cons.outputs, op }
}

/// `g` with node `p` replaced by `n` and node `c` removed.
pub open spec fn replace_and_remove(g: GraphModel, p: int, c: int, n: NodeModel) -> GraphModel {
    GraphModel {
        schema_version: g.schema_version,
        num_blocks: g.num_blocks,
        input_bits: g.input_bits,
        inputs: g.inputs,
        outputs: g.outputs,
        nodes: g.nodes.update(p, n).remove(c),
    }
}

/// The sole later reader of producer `p`'s single output, when the output is not
/// a graph output and that reader has one input and one output.
pub open spec fn fusion_partner(g: GraphModel, p: int) -> Option<int> {
    let prod = g.nodes[p];
    if prod.outputs.len() != 1 {
        None
    } else if g.outputs.contains(prod.outputs[0]) {
        None
    } else {
        let cs = consumers(g.nodes, prod.outputs[0]);
        if cs.len() != 1 {
            None
        } else if cs[0] <= p {
            None
        } else if g.nodes[cs[0]].inputs.len() != 1 || g.nodes[cs[0]].outputs.len() != 1 {
            None
        } else {
            Some(cs[0])
        }
    }
}

/// The rewrite at producer `p`, if a rule fires there.
pub open spec fn fusion_at(g: GraphModel, p: int) -> Option<GraphModel> {
    match fusion_partner(g, p) {
        None => None,
        Some(c) => match fuse_ops(g.nodes[p].op, g.nodes[c].op) {
            Some(op) => Some(replace_and_remove(g, p, c, fused_node(g.nodes[p], g.nodes[c], op))),
            None => None,
        },
    }
}

/// The first rewrite at a producer index `p` or later.
pub open spec fn first_fusion(g: GraphModel, p: nat) -> Option<GraphModel>
    decreases g.nodes.len() - p,
{
    if p >= g.nodes.len() {
        None
    } else {
        match fusion_at(g, p as int) {
            Some(h) => Some(h),
            None => first_fusion(g, p + 1),
        }
    }
}

/// Whether searching for a rewrite from producer `p` on stays free of overflow.
pub open spec fn fusion_search_defined(g: GraphModel, p: nat) -> bool
    decreases g.nodes.len() - p,
{
    if p >= g.nodes.len() {
        true
    } else {
        &&& (fusion_partner(g, p as int) matches Some(c) ==> fuse_ops_defined(
            g.nodes[p as int].op,
            g.nodes[c].op,
        ))
        &&& (fusion_at(g, p as int) is None ==> fusion_search_defined(g, p + 1))
    }
}


/// Reading one more input extends the count by one exactly when it is `t`.
proof fn lemma_count_in_step(ts: Seq<Seq<char>>, j: int, t: Seq<char>)
    requires
        0 <= j < ts.len(),
    ensures
        count_in(ts.take(j + 1), t) == count_in(ts.take(j), t) + if ts[j] == t {
            1nat
        } else {
            0nat
        },
{
    assert(ts.take(j + 1).drop_last() =~= ts.take(j));
}

/// Taking one more node appends that node's reads of `t` to the consumer list.
proof fn lemma_consumers_step(nodes: Seq<NodeModel>, i: int, t: Seq<char>)
    requires
        0 <= i < nodes.len(),
    ensures
        consumers(nodes.take(i + 1), t) =~= consumers(nodes.take(i), t) + Seq::new(
            count_in(nodes[i].inputs, t),
            |_k: int| i,
        ),
{
    assert(nodes.take(i + 1).drop_last() =~= nodes.take(i));
}

/// Whether `t` is one of the graph's output tensors.
fn is_graph_output(outputs: &Vec<String>, t: &String) -> (r: bool)
    ensures
        r == names(outputs@).contains(t@),
{
    let mut i: usize = 0;
    while i < outputs.len()
        invariant
            i <= outputs@.len(),
            forall|j: int| 0 <= j < i ==> names(outputs@)[j] != t@,
        decreases outputs@.len() - i,
    {
        if str_eq(outputs[i].as_str(), t.as_str()) {
            assert(names(outputs@)[i as int] == t@);
            return true;
        }
        i = i + 1;
    }
    false
}

/// The node that reads tensor `t`, when exactly one read of `t` occurs in `nodes`.
fn sole_consumer(nodes: &Vec<Node>, t: &String) -> (r: Option<usize>)
    ensures
        match r {
            Some(c) => {
                &&& c < nodes@.len()
                &&& consumers(node_models(nodes@), t@).len() == 1
                &&& consumers(node_models(nodes@), t@)[0] == c as int
            },
            None => consumers(node_models(nodes@), t@).len() != 1,
        },
{
    let ghost ms = node_models(nodes@);
    let mut seen: usize = 0;
    let mut first: usize = 0;
    let mut i: usize = 0;
    while i < nodes.len()
        invariant
            i <= nodes@.len(),
            ms == node_models(nodes@),
            seen <= 2,
            seen == 0 ==> consumers(ms.take(i as int), t@).len() == 0,
            seen == 1 ==> consumers(ms.take(i as int), t@).len() == 1,
            seen == 2 ==> consumers(ms.take(i as int), t@).len() >= 2,
            seen >= 1 ==> first < i && consumers(ms.take(i as int), t@)[0] == first as int,
        decreases nodes@.len() - i,
    {
        let node = &nodes[i];
        let ghost before = consumers(ms.take(i as int), t@);
        let ghost ins = ms[i as int].inputs;
        assert(ins == names(node.inputs@));
        let mut j: usize = 0;
        while j < node.inputs.len()
            invariant
                j <= node.inputs@.len(),
                ins == names(node.inputs@),
                seen <= 2,
                i < nodes@.len(),
                seen == 0 ==> before.len() + count_in(ins.take(j as int), t@) == 0,
                seen == 1 ==> before.len() + count_in(ins.take(j as int), t@) == 1,
                seen == 2 ==> before.len() + count_in(ins.take(j as int), t@) >= 2,
                seen >= 1 ==> first <= i && (before + Seq::new(
                    count_in(ins.take(j as int), t@),
                    |_k: int| i as int,
                ))[0] == first as int,
            decreases node.inputs@.len() - j,
        {
            proof { lemma_count_in_step(ins, j as int, t@); }
            if str_eq(node.inputs[j].as_str(), t.as_str()) {
                assert(ins[j as int] == t@);
                if seen == 0 {
                    first = i;
                }
                if seen < 2 {
                    seen = seen + 1;
                }
            } else {
                assert(ins[j as int] != t@);
            }
            j = j + 1;
        }
        proof {
            assert(ins.take(ins.len() as int) =~= ins);
            lemma_consumers_step(ms, i as int, t@);
        }
        i = i + 1;
    }
    assert(ms.take(ms.len() as int) =~= ms);
    if seen == 1 {
        Some(first)
    } else {
        None
    }
}


/// The largest element of a prefix grows by comparing the next element.
proof fn lemma_seq_max_step(s: Seq<u64>, i: int)
    requires
        0 <= i < s.len(),
    ensures
        seq_max(s.take(i + 1)) == if seq_max(s.take(i)) >= s[i] {
            seq_max(s.take(i))
        } else {
            s[i]
        },
{
    assert(s.take(i + 1).drop_last() =~= s.take(i));
}

/// The largest element is below every common strict upper bound.
proof fn lemma_seq_max_below(s: Seq<u64>, bound: u64)
    requires
        bound > 0,
        forall|i: int| 0 <= i < s.len() ==> #[trigger] s[i] < bound,
    ensures
        seq_max(s) < bound,
    decreases s.len(),
{
    if s.len() > 0 {
        lemma_seq_max_below(s.drop_last(), bound);
        assert(s.last() == s[s.len() - 1]);
    }
}

/// The first `n` elements mapped are the mapped first `n` elements, extended by one.
proof fn lemma_map_take_step(s: Seq<u64>, f: spec_fn(u64) -> u64, i: int)
    requires
        0 <= i < s.len(),
    ensures
        s.take(i + 1).map_values(f) =~= s.take(i).map_values(f).push(f(s[i])),
{
}

/// Whether the largest entry of a composed table needs at most `out_bits` bits.
fn table_fits(table: &Vec<u64>, out_bits: usize) -> (r: bool)
    requires
        forall|i: int| 0 <= i < table@.len() ==> #[trigger] table@[i] < 4,
    ensures
        r == fits_out_bits(table@, out_bits),
{
    let mut max_val: u64 = 0;
    let mut i: usize = 0;
    while i < table.len()
        invariant
            i <= table@.len(),
            max_val == seq_max(table@.take(i as int)),
        decreases table@.len() - i,
    {
        proof { lemma_seq_max_step(table@, i as int); }
        if table[i] > max_val {
            max_val = table[i];
        }
        i = i + 1;
    }
    proof {
        assert(table@.take(table@.len() as int) =~= table@);
        lemma_seq_max_below(table@, 4);
    }
    magnitude_bits(max_val as i64) <= out_bits
}

/// Composes a `Requant` clamp table with an `Activation` table (rule R1).
fn compose_requant_activation_tables(clamp: &Vec<u64>, act: &Vec<u64>) -> (r: Option<Vec<u64>>)
    ensures
        match r {
            Some(v) => compose_requant_activation(clamp@, act@) == Some(v@),
            None => compose_requant_activation(clamp@, act@) is None,
        },
        r matches Some(v) ==> forall|i: int| 0 <= i < v@.len() ==> #[trigger] v@[i] < 4,
{
    let limit: u64 = 1u64 << (MESSAGE_BITS as u64);
    assert(limit == 4) by (bit_vector)
        requires
            limit == 1u64 << 2u64,
    ;
    let ghost f = lookup_in(act@);
    let mut out: Vec<u64> = Vec::new();
    let mut i: usize = 0;
    while i < clamp.len()
        invariant
            i <= clamp@.len(),
            limit == 4,
            f == lookup_in(act@),
            out@ == clamp@.take(i as int).map_values(f),
            forall|j: int| 0 <= j < i ==> block_entry_ok(act@, #[trigger] clamp@[j]),
            forall|j: int| 0 <= j < out@.len() ==> #[trigger] out@[j] < 4,
        decreases clamp@.len() - i,
    {
        let v = clamp[i];
        let idx = v as usize;
        if idx >= act.len() {
            assert(!block_entry_ok(act@, clamp@[i as int]));
            return None;
        }
        let mapped = act[idx];
        if mapped >= limit {
            assert(!block_entry_ok(act@, clamp@[i as int]));
            return None;
        }
        proof { lemma_map_take_step(clamp@, f, i as int); }
        out.push(mapped);
        i = i + 1;
    }
    assert(clamp@.take(clamp@.len() as int) =~= clamp@);
    Some(out)
}

/// Composes two `Activation` tables (rule R2).
fn compose_activation_tables(first: &Vec<u64>, second: &Vec<u64>) -> (r: Option<Vec<u64>>)
    ensures
        match r {
            Some(v) => compose_activations(first@, second@) == Some(v@),
            None => compose_activations(first@, second@) is None,
        },
{
    let ghost f = lookup_in(second@);
    let mut out: Vec<u64> = Vec::new();
    let mut i: usize = 0;
    while i < first.len()
        invariant
            i <= first@.len(),
            f == lookup_in(second@),
            out@ == first@.take(i as int).map_values(f),
            forall|j: int| 0 <= j < i ==> as_index(#[trigger] first@[j]) < second@.len(),
        decreases first@.len() - i,
    {
        let v = first[i];
        if (v as usize) >= second.len() {
            assert(as_index(first@[i as int]) >= second@.len());
            return None;
        }
        proof { lemma_map_take_step(first@, f, i as int); }
        out.push(second[v as usize]);
        i = i + 1;
    }
    assert(first@.take(first@.len() as int) =~= first@);
    Some(out)
}


/// Composes a `Requant` clamp table with a per-tensor `Requant`'s rescale and
/// table (rule R3).
fn compose_requant_tables(
    first: &Vec<u64>,
    mult: u64,
    round_bias: u64,
    shift: u32,
    out_bits: usize,
    second: &Vec<u64>,
) -> (r: Option<Vec<u64>>)
    requires
        compose_requants_defined(first@, mult, round_bias, shift, out_bits, second@),
    ensures
        match r {
            Some(v) => compose_requants(first@, mult, round_bias, shift, out_bits, second@) == Some(
                v@,
            ),
            None => compose_requants(first@, mult, round_bias, shift, out_bits, second@) is None,
        },
        r matches Some(v) ==> forall|i: int| 0 <= i < v@.len() ==> #[trigger] v@[i] < 4,
{
    let limit: u64 = 1u64 << (MESSAGE_BITS as u64);
    assert(limit == 4) by (bit_vector)
        requires
            limit == 1u64 << 2u64,
    ;
    proof {
        vstd::bits::lemma_u64_pow2_no_overflow(out_bits as nat);
        vstd::bits::lemma_u64_shl_is_mul(1, out_bits as u64);
    }
    let max_sat: u64 = (1u64 << (out_bits as u64)) - 1;
    assert(max_sat == pow2(out_bits as nat) - 1);
    let ghost f = requant_step(mult, round_bias, shift, out_bits, second@);
    let mut out: Vec<u64> = Vec::new();
    let mut i: usize = 0;
    while i < first.len()
        invariant
            i <= first@.len(),
            limit == 4,
            max_sat == pow2(out_bits as nat) - 1,
            compose_requants_defined(first@, mult, round_bias, shift, out_bits, second@),
            f == requant_step(mult, round_bias, shift, out_bits, second@),
            out@ == first@.take(i as int).map_values(f),
            forall|j: int|
                0 <= j < i ==> requant_entry_ok(
                    #[trigger] first@[j],
                    mult,
                    round_bias,
                    shift,
                    out_bits,
                    second@,
                ),
            forall|j: int| 0 <= j < out@.len() ==> #[trigger] out@[j] < 4,
        decreases first@.len() - i,
    {
        let u = first[i];
        assert(u * mult + round_bias <= u64::MAX);
        assert(u * mult <= u64::MAX);
        let scaled: u64 = u * mult + round_bias;
        proof { vstd::bits::lemma_u64_shr_is_div(scaled, shift as u64); }
        let val = scaled >> (shift as u64);
        assert(val == (u * mult + round_bias) / pow2(shift as nat) as int);
        let sat = if val < max_sat {
            val
        } else {
            max_sat
        };
        let sat_idx = sat as usize;
        assert(sat_idx as int == requant_select(u, mult, round_bias, shift, out_bits));
        if sat_idx >= second.len() {
            assert(!requant_entry_ok(first@[i as int], mult, round_bias, shift, out_bits, second@));
            return None;
        }
        let res = second[sat_idx];
        if res >= limit {
            assert(!requant_entry_ok(first@[i as int], mult, round_bias, shift, out_bits, second@));
            return None;
        }
        proof { lemma_map_take_step(first@, f, i as int); }
        out.push(res);
        i = i + 1;
    }
    assert(first@.take(first@.len() as int) =~= first@);
    Some(out)
}


/// The op that replaces a producer/consumer pair, if a fusion rule applies.
fn fuse_pair(prod: &OpSpec, cons: &OpSpec) -> (r: Option<OpSpec>)
    requires
        fuse_ops_defined(prod@, cons@),
    ensures
        match r {
            Some(op) => fuse_ops(prod@, cons@) == Some(op@),
            None => fuse_ops(prod@, cons@) is None,
        },
{
    match prod {
        OpSpec::Requant {
            shift,
            mult,
            round_bias,
            out_bits,
            clamp_lut,
            mults,
            shifts,
            round_biases,
            channel_size,
        } => match cons {
            OpSpec::Activation { lut, .. } => match compose_requant_activation_tables(clamp_lut, lut) {
                Some(composed) => {
                    if table_fits(&composed, *out_bits) {
                        Some(
                            OpSpec::Requant {
                                shift: *shift,
                                mult: *mult,
                                round_bias: *round_bias,
                                out_bits: *out_bits,
                                clamp_lut: composed,
                                mults: copy_vec(mults),
                                shifts: copy_vec(shifts),
                                round_biases: copy_vec(round_biases),
                                channel_size: *channel_size,
                            },
                        )
                    } else {
                        None
                    }
                },
                None => None,
            },
            OpSpec::Requant {
                shift: shift2,
                mult: mult2,
                round_bias: round_bias2,
                out_bits: out_bits2,
                clamp_lut: clamp_lut2,
                mults: mults2,
                shifts: shifts2,
                round_biases: round_biases2,
                ..
            } => {
                if mults2.len() == 0 && shifts2.len() == 0 && round_biases2.len() == 0 {
                    match compose_requant_tables(
                        clamp_lut,
                        *mult2,
                        *round_bias2,
                        *shift2,
                        *out_bits2,
                        clamp_lut2,
                    ) {
                        Some(composed) => {
                            if table_fits(&composed, *out_bits) {
                                Some(
                                    OpSpec::Requant {
                                        shift: *shift,
                                        mult: *mult,
                                        round_bias: *round_bias,
                                        out_bits: *out_bits,
                                        clamp_lut: composed,
                                        mults: copy_vec(mults),
                                        shifts: copy_vec(shifts),
                                        round_biases: copy_vec(round_biases),
                                        channel_size: *channel_size,
                                    },
                                )
                            } else {
                                None
                            }
                        },
                        None => None,
                    }
                } else {
                    None
                }
            },
            _ => None,
        },
        OpSpec::Activation { lut: first, .. } => match cons {
            OpSpec::Activation { lut: second, output_bits } => match compose_activation_tables(
                first,
                second,
            ) {
                Some(composed) => Some(OpSpec::Activation { lut: composed, output_bits: *output_bits }),
                None => None,
            },
            _ => None,
        },
        _ => None,
    }
}

/// The sole later reader of producer `p`'s single output, when fusion may
/// consider the pair.
fn fusion_partner_of(g: &Graph, p: usize) -> (r: Option<usize>)
    requires
        p < g.nodes@.len(),
    ensures
        match r {
            Some(c) => c < g.nodes@.len() && fusion_partner(g@, p as int) == Some(c as int),
            None => fusion_partner(g@, p as int) is None,
        },
{
    let producer = &g.nodes[p];
    assert(g@.nodes[p as int] == producer@);
    if producer.outputs.len() != 1 {
        return None;
    }
    let intermediate = &producer.outputs[0];
    assert(producer@.outputs[0] == intermediate@);
    if is_graph_output(&g.outputs, intermediate) {
        return None;
    }
    assert(g@.nodes == node_models(g.nodes@));
    let c = match sole_consumer(&g.nodes, intermediate) {
        Some(c) => c,
        None => {
            return None;
        },
    };
    if c <= p {
        return None;
    }
    let consumer = &g.nodes[c];
    assert(g@.nodes[c as int] == consumer@);
    if consumer.inputs.len() != 1 || consumer.outputs.len() != 1 {
        return None;
    }
    Some(c)
}

/// `g` with node `p` replaced by the fusion of nodes `p` and `c` under `op`,
/// and node `c` removed.
fn rewrite(g: &Graph, p: usize, c: usize, op: OpSpec) -> (h: Graph)
    requires
        p < c < g.nodes@.len(),
    ensures
        h@ == replace_and_remove(g@, p as int, c as int, fused_node(g@.nodes[p as int], g@.nodes[c as int], op@)),
{
    let producer = &g.nodes[p];
    let consumer = &g.nodes[c];
    let fused = Node {
        name: copy_string(&producer.name),
        inputs: copy_strings(&producer.inputs),
        outputs: copy_strings(&consumer.outputs),
        op,
    };
    assert(fused@ == fused_node(g@.nodes[p as int], g@.nodes[c as int], op@));
    let mut h = g.duplicate();
    let ghost before = h.nodes@;
    assert(h@.nodes.len() == before.len());
    h.nodes.set(p, fused);
    assert(node_models(h.nodes@) =~= node_models(before).update(p as int, fused@));
    let ghost mid = h.nodes@;
    h.nodes.remove(c);
    assert(node_models(h.nodes@) =~= node_models(mid).remove(c as int));
    assert(h@.nodes =~= g@.nodes.update(p as int, fused@).remove(c as int));
    h
}


/// Perform at most one fusion step on `g`: `Ok(Some(h))` holds the rewritten
/// graph when a rule fires at some producer, `Ok(None)` when none fires.
pub fn step_fuse(g: &Graph) -> (r: Result<Option<Graph>, String>)
    requires
        fusion_search_defined(g@, 0),
    ensures
        match r {
            Ok(Some(h)) => first_fusion(g@, 0) == Some(h@),
            Ok(None) => first_fusion(g@, 0) is None,
            Err(_) => false,
        },
{
    let mut p: usize = 0;
    while p < g.nodes.len()
        invariant
            p <= g.nodes@.len(),
            g@.nodes.len() == g.nodes@.len(),
            first_fusion(g@, 0) == first_fusion(g@, p as nat),
            fusion_search_defined(g@, p as nat),
        decreases g.nodes@.len() - p,
    {
        if let Some(c) = fusion_partner_of(g, p) {
            assert(g@.nodes[p as int] == g.nodes@[p as int]@);
            assert(g@.nodes[c as int] == g.nodes@[c as int]@);
            if let Some(op) = fuse_pair(&g.nodes[p].op, &g.nodes[c].op) {
                let h = rewrite(g, p, c, op);
                return Ok(Some(h));
            }
        }
        p = p + 1;
    }
    Ok(None)
}

/// Whether pushing a clamp table through a per-tensor `Requant` stays free of
/// overflow, as `compose_requants_defined` says: each rescale reached is
/// worked out in wide arithmetic first.
fn requants_ready(
    first: &Vec<u64>,
    mult: u64,
    round_bias: u64,
    shift: u32,
    out_bits: usize,
    second: &Vec<u64>,
) -> (r: bool)
    ensures
        r == compose_requants_defined(first@, mult, round_bias, shift, out_bits, second@),
{
    if out_bits >= 64 || shift >= 64 {
        return false;
    }
    proof {
        vstd::bits::lemma_u64_pow2_no_overflow(out_bits as nat);
        vstd::bits::lemma_u64_shl_is_mul(1, out_bits as u64);
    }
    let max_sat: u64 = (1u64 << (out_bits as u64)) - 1;
    assert(max_sat == pow2(out_bits as nat) - 1);
    let mut i: usize = 0;
    while i < first.len()
        invariant
            i <= first@.len(),
            out_bits < 64,
            shift < 64,
            max_sat == pow2(out_bits as nat) - 1,
            forall|j: int|
                0 <= j < i ==> requant_entry_ok(
                    #[trigger] first@[j],
                    mult,
                    round_bias,
                    shift,
                    out_bits,
                    second@,
                ),
            forall|j: int| 0 <= j < i ==> #[trigger] first@[j] * mult + round_bias <= u64::MAX,
        decreases first@.len() - i,
    {
        let u = first[i];
        assert((u as int) * (mult as int) <= (u64::MAX as int) * (u64::MAX as int)) by (nonlinear_arith)
            requires
                u <= u64::MAX,
                mult <= u64::MAX,
        ;
        let wide: u128 = (u as u128) * (mult as u128) + (round_bias as u128);
        if wide > 0xFFFF_FFFF_FFFF_FFFFu128 {
            assert(first@[i as int] * mult + round_bias > u64::MAX);
            return false;
        }
        let scaled = wide as u64;
        proof { vstd::bits::lemma_u64_shr_is_div(scaled, shift as u64); }
        let val = scaled >> (shift as u64);
        assert(val == (u * mult + round_bias) / pow2(shift as nat) as int);
        let sat = if val < max_sat {
            val
        } else {
            max_sat
        };
        let sat_idx = sat as usize;
        assert(sat_idx as int == requant_select(u, mult, round_bias, shift, out_bits));
        if sat_idx >= second.len() || second[sat_idx] >= 4 {
            assert(!requant_entry_ok(first@[i as int], mult, round_bias, shift, out_bits, second@));
            assert forall|k: int|
                0 <= k < first@.len() && (forall|j: int|
                    0 <= j < k ==> requant_entry_ok(
                        #[trigger] first@[j],
                        mult,
                        round_bias,
                        shift,
                        out_bits,
                        second@,
                    )) implies #[trigger] first@[k] * mult + round_bias <= u64::MAX by {
                if k > i {
                    assert(requant_entry_ok(first@[i as int], mult, round_bias, shift, out_bits, second@));
                }
            }
            return true;
        }
        i = i + 1;
    }
    true
}

/// Whether trying to fuse the pair stays free of overflow, as
/// `fuse_ops_defined` says.
fn fuse_ready(prod: &OpSpec, cons: &OpSpec) -> (r: bool)
    ensures
        r == fuse_ops_defined(prod@, cons@),
{
    match prod {
        OpSpec::Requant { clamp_lut, .. } => match cons {
            OpSpec::Requant {
                shift: shift2,
                mult: mult2,
                round_bias: round_bias2,
                out_bits: out_bits2,
                clamp_lut: clamp_lut2,
                mults: mults2,
                shifts: shifts2,
                round_biases: round_biases2,
                ..
            } => {
                if mults2.len() == 0 && shifts2.len() == 0 && round_biases2.len() == 0 {
                    requants_ready(clamp_lut, *mult2, *round_bias2, *shift2, *out_bits2, clamp_lut2)
                } else {
                    true
                }
            },
            _ => true,
        },
        _ => true,
    }
}

/// Whether the search for the first fusion of `g` stays free of overflow, as
/// `fusion_search_defined` says.
fn search_ready(g: &Graph) -> (r: bool)
    ensures
        r == fusion_search_defined(g@, 0),
{
    let mut p: usize = 0;
    while p < g.nodes.len()
        invariant
            p <= g.nodes@.len(),
            g@.nodes.len() == g.nodes@.len(),
            fusion_search_defined(g@, 0) == fusion_search_defined(g@, p as nat),
        decreases g.nodes@.len() - p,
    {
        if let Some(c) = fusion_partner_of(g, p) {
            assert(g@.nodes[p as int] == g.nodes@[p as int]@);
            assert(g@.nodes[c as int] == g.nodes@[c as int]@);
            if !fuse_ready(&g.nodes[p].op, &g.nodes[c].op) {
                return false;
            }
            if fuse_pair(&g.nodes[p].op, &g.nodes[c].op).is_some() {
                return true;
            }
        }
        p = p + 1;
    }
    true
}

/// Whether the graph walker may run on `graph`: optimizing it stays free of
/// overflow, and so does propagating the widths of the optimized graph when a
/// fusion applies. This is what `evaluate_graph` and `Session::eval` require.
pub fn walk_ready(graph: &Graph) -> (r: bool)
    ensures
        r == (optimize_defined(graph@, graph@.nodes.len()) && (first_fusion(graph@, 0) is Some
            ==> propagate_defined(optimize_spec(graph@)))),
{
    let ghost n = graph@.nodes.len();
    let mut current: Option<Graph> = None;
    let mut fuel: usize = graph.nodes.len();
    loop
        invariant
            fuel <= n,
            n == graph@.nodes.len(),
            current is None ==> fuel == n,
            current is None ==> (optimize_defined(graph@, n) == optimize_defined(graph@, fuel as nat)),
            current matches Some(c) ==> {
                &&& first_fusion(graph@, 0) is Some
                &&& optimize_defined(graph@, n) == optimize_defined(c@, fuel as nat)
                &&& optimize_spec(graph@) == optimized(c@, fuel as nat)
            },
        ensures
            optimize_defined(graph@, n),
            current is None ==> first_fusion(graph@, 0) is None,
            current matches Some(c) ==> first_fusion(graph@, 0) is Some && optimize_spec(graph@)
                == c@,
        decreases fuel,
    {
        let g: &Graph = match &current {
            Some(c) => c,
            None => graph,
        };
        if !search_ready(g) {
            return false;
        }
        if fuel == 0 {
            if current.is_none() {
                assert(graph@.nodes.len() == 0);
            }
            break;
        }
        match step_fuse(g) {
            Ok(Some(h)) => {
                current = Some(h);
                fuel = fuel - 1;
            },
            Ok(None) => {
                break;
            },
            Err(_) => {
                return false;
            },
        }
    }
    match current {
        Some(c) => crate::bitwidth::propagate_ready(&c),
        None => true,
    }
}

/// The graph reached by applying the first available fusion until none
/// applies, taking at most `fuel` steps.
pub open spec fn optimized(g: GraphModel, fuel: nat) -> GraphModel
    decreases fuel,
{
    if fuel == 0 {
        g
    } else {
        match first_fusion(g, 0) {
            Some(h) => optimized(h, (fuel - 1) as nat),
            None => g,
        }
    }
}

/// Whether every fusion search on the way to `optimized(g, fuel)` stays free of overflow.
pub open spec fn optimize_defined(g: GraphModel, fuel: nat) -> bool
    decreases fuel,
{
    &&& fusion_search_defined(g, 0)
    &&& (fuel > 0 ==> (first_fusion(g, 0) matches Some(h) ==> optimize_defined(
        h,
        (fuel - 1) as nat,
    )))
}

/// The fixed point that `optimize_graph` computes.
pub open spec fn optimize_spec(g: GraphModel) -> GraphModel {
    optimized(g, g.nodes.len())
}

/// A rewrite keeps the graph's header and inputs/outputs, and holds one node fewer.
pub proof fn lemma_fusion_at_shape(g: GraphModel, p: int)
    requires
        0 <= p < g.nodes.len(),
    ensures
        fusion_at(g, p) matches Some(h) ==> {
            &&& g.nodes.len() >= 2
            &&& h.nodes.len() + 1 == g.nodes.len()
            &&& h.schema_version == g.schema_version
            &&& h.num_blocks == g.num_blocks
            &&& h.input_bits == g.input_bits
            &&& h.inputs == g.inputs
            &&& h.outputs == g.outputs
        },
{
    if let Some(c) = fusion_partner(g, p) {
        lemma_consumers_bounds(g.nodes, g.nodes[p].outputs[0]);
    }
}

/// Every consumer entry names a node of the sequence.
proof fn lemma_consumers_bounds(nodes: Seq<NodeModel>, t: Seq<char>)
    ensures
        forall|k: int|
            0 <= k < consumers(nodes, t).len() ==> 0 <= #[trigger] consumers(nodes, t)[k] < nodes.len(),
    decreases nodes.len(),
{
    if nodes.len() > 0 {
        let prefix = nodes.drop_last();
        lemma_consumers_bounds(prefix, t);
        let head = consumers(prefix, t);
        let tail = Seq::new(count_in(nodes.last().inputs, t), |_k: int| nodes.len() - 1);
        assert(consumers(nodes, t) == head + tail);
        assert forall|k: int| 0 <= k < consumers(nodes, t).len() implies 0 <= #[trigger] consumers(
            nodes,
            t,
        )[k] < nodes.len() by {
            if k < head.len() {
                assert(consumers(nodes, t)[k] == head[k]);
            } else {
                assert(consumers(nodes, t)[k] == tail[k - head.len()]);
            }
        }
    }
}


/// The first rewrite found from producer `p` on has the shape of every rewrite.
pub proof fn lemma_first_fusion_shape(g: GraphModel, p: nat)
    ensures
        first_fusion(g, p) matches Some(h) ==> {
            &&& g.nodes.len() >= 2
            &&& h.nodes.len() + 1 == g.nodes.len()
            &&& h.schema_version == g.schema_version
            &&& h.num_blocks == g.num_blocks
            &&& h.input_bits == g.input_bits
            &&& h.inputs == g.inputs
            &&& h.outputs == g.outputs
        },
    decreases g.nodes.len() - p,
{
    if p < g.nodes.len() {
        lemma_fusion_at_shape(g, p as int);
        if fusion_at(g, p as int) is None {
            lemma_first_fusion_shape(g, p + 1);
        }
    }
}

/// A graph that is either the caller's own, unchanged, or a rewritten copy.
pub enum Cow<'a> {
    Borrowed(&'a Graph),
    Owned(Graph),
}

/// Rewrite `graph` into a semantics-identical graph with fewer bootstrap-bearing
/// nodes: the first applicable fusion is applied until none applies, and the
/// result's bit-widths are checked. Returns `Cow::Borrowed` when no rule fires.
pub fn optimize_graph<'a>(graph: &'a Graph) -> (r: Result<Cow<'a>, String>)
    requires
        optimize_defined(graph@, graph@.nodes.len()),
        first_fusion(graph@, 0) is Some ==> propagate_defined(optimize_spec(graph@)),
    ensures
        first_fusion(graph@, 0) is None ==> (r matches Ok(Cow::Borrowed(b)) && b == graph),
        first_fusion(graph@, 0) is Some ==> match propagate_spec(optimize_spec(graph@)) {
            Ok(_) => r matches Ok(Cow::Owned(h)) && h@ == optimize_spec(graph@),
            Err(e) => r matches Err(m) && m@ == e,
        },
{
    let ghost n = graph@.nodes.len();
    let mut current: Option<Graph> = None;
    let max_iters = graph.nodes.len();
    let mut iters: usize = 0;
    loop
        invariant
            max_iters == n,
            n == graph@.nodes.len(),
            iters <= n,
            optimize_defined(graph@, n),
            current is None ==> iters == 0,
            current matches Some(c) ==> {
                &&& iters > 0
                &&& first_fusion(graph@, 0) is Some
                &&& c@.nodes.len() + iters == n
                &&& optimize_spec(graph@) == optimized(c@, (n - iters) as nat)
                &&& optimize_defined(c@, (n - iters) as nat)
            },
        ensures
            current is None ==> first_fusion(graph@, 0) is None,
            current matches Some(c) ==> first_fusion(graph@, 0) is Some && optimize_spec(graph@)
                == c@,
        decreases n - iters,
    {
        let g: &Graph = match &current {
            Some(c) => c,
            None => graph,
        };
        let ghost fuel = (n - iters) as nat;
        assert(g@.nodes.len() == fuel);
        assert(optimize_spec(graph@) == optimized(g@, fuel));
        assert(optimize_defined(g@, fuel));
        let step = step_fuse(g);
        match step {
            Ok(Some(rewritten)) => {
                proof { lemma_first_fusion_shape(g@, 0); }
                iters = iters + 1;
                if iters > max_iters {
                    let m = cat(
                        String::from_str("graph optimization loop exceeded iteration cap ("),
                        usize_text(max_iters).as_str(),
                    );
                    let m = cat(m, ") without reaching a fixed point");
                    return Err(m);
                }
                current = Some(rewritten);
            },
            Ok(None) => {
                break;
            },
            Err(e) => {
                return Err(e);
            },
        }
    }
    match current {
        Some(rewritten) => {
            match propagate_bit_widths(&rewritten) {
                Ok(_) => Ok(Cow::Owned(rewritten)),
                Err(e) => Err(e),
            }
        },
        None => Ok(Cow::Borrowed(graph)),
    }
}


/// Optimization reaches a fixed point: no fusion rule fires on its result.
pub proof fn lemma_optimize_fixed_point(g: GraphModel)
    ensures
        first_fusion(optimize_spec(g), 0) is None,
{
    lemma_optimized_fixed_point(g, g.nodes.len());
}

proof fn lemma_optimized_fixed_point(g: GraphModel, fuel: nat)
    requires
        g.nodes.len() <= fuel,
    ensures
        first_fusion(optimized(g, fuel), 0) is None,
    decreases fuel,
{
    lemma_first_fusion_shape(g, 0);
    if fuel > 0 {
        if let Some(h) = first_fusion(g, 0) {
            lemma_optimized_fixed_point(h, (fuel - 1) as nat);
        }
    }
}

/// Optimizing twice is optimizing once.
pub proof fn lemma_optimize_idempotent(g: GraphModel)
    ensures
        optimize_spec(optimize_spec(g)) == optimize_spec(g),
{
    lemma_optimize_fixed_point(g);
    let o = optimize_spec(g);
    assert(optimized(o, o.nodes.len()) == o);
}

/// Optimization keeps the graph's header and its input and output tensors,
/// never adds nodes, and removes at least one node exactly when a rule fires.
pub proof fn lemma_optimize_shape(g: GraphModel)
    ensures
        optimize_spec(g).schema_version == g.schema_version,
        optimize_spec(g).num_blocks == g.num_blocks,
        optimize_spec(g).input_bits == g.input_bits,
        optimize_spec(g).inputs == g.inputs,
        optimize_spec(g).outputs == g.outputs,
        optimize_spec(g).nodes.len() <= g.nodes.len(),
        first_fusion(g, 0) is None ==> optimize_spec(g) == g,
        first_fusion(g, 0) is Some ==> optimize_spec(g).nodes.len() < g.nodes.len(),
{
    lemma_optimized_shape(g, g.nodes.len());
}

proof fn lemma_optimized_shape(g: GraphModel, fuel: nat)
    ensures
        optimized(g, fuel).schema_version == g.schema_version,
        optimized(g, fuel).num_blocks == g.num_blocks,
        optimized(g, fuel).input_bits == g.input_bits,
        optimized(g, fuel).inputs == g.inputs,
        optimized(g, fuel).outputs == g.outputs,
        optimized(g, fuel).nodes.len() <= g.nodes.len(),
        first_fusion(g, 0) is None ==> optimized(g, fuel) == g,
        fuel > 0 && first_fusion(g, 0) is Some ==> optimized(g, fuel).nodes.len() < g.nodes.len(),
    decreases fuel,
{
    lemma_first_fusion_shape(g, 0);
    if fuel > 0 {
        if let Some(h) = first_fusion(g, 0) {
            lemma_optimized_shape(h, (fuel - 1) as nat);
        }
    }
}

/// Each fused op computes the consumer's table applied to the producer's
/// entries: rule R1 maps every clamp entry through the activation table, rule
/// R2 maps the first activation table through the second, and rule R3 maps
/// every clamp entry through the second `Requant`'s rescale and table. A fused
/// `Requant` keeps the producer's rescale and per-channel fields, its table
/// entries fit one message block and its largest entry fits `out_bits`; a fused
/// `Activation` keeps the consumer's output width.
pub proof fn lemma_fused_tables_compose(prod: OpModel, cons: OpModel)
    ensures
        fuse_ops(prod, cons) matches Some(op) ==> match (prod, cons, op) {
            (
                OpModel::Requant {
                    shift,
                    mult,
                    round_bias,
                    out_bits,
                    clamp_lut,
                    mults,
                    shifts,
                    round_biases,
                    channel_size,
                },
                OpModel::Activation { lut, .. },
                OpModel::Requant {
                    shift: fs,
                    mult: fm,
                    round_bias: frb,
                    out_bits: fob,
                    clamp_lut: fused,
                    mults: fms,
                    shifts: fss,
                    round_biases: frbs,
                    channel_size: fcs,
                },
            ) => {
                &&& fs == shift && fm == mult && frb == round_bias && fob == out_bits
                &&& fms == mults && fss == shifts && frbs == round_biases && fcs == channel_size
                &&& fused.len() == clamp_lut.len()
                &&& forall|i: int|
                    0 <= i < fused.len() ==> #[trigger] fused[i] == lut[as_index(clamp_lut[i])]
                        && fused[i] < 4
                &&& fits_out_bits(fused, out_bits)
            },
            (
                OpModel::Requant {
                    shift,
                    mult,
                    round_bias,
                    out_bits,
                    clamp_lut,
                    mults,
                    shifts,
                    round_biases,
                    channel_size,
                },
                OpModel::Requant {
                    shift: shift2,
                    mult: mult2,
                    round_bias: round_bias2,
                    out_bits: out_bits2,
                    clamp_lut: clamp_lut2,
                    ..
                },
                OpModel::Requant {
                    shift: fs,
                    mult: fm,
                    round_bias: frb,
                    out_bits: fob,
                    clamp_lut: fused,
                    mults: fms,
                    shifts: fss,
                    round_biases: frbs,
                    channel_size: fcs,
                },
            ) => {
                &&& fs == shift && fm == mult && frb == round_bias && fob == out_bits
                &&& fms == mults && fss == shifts && frbs == round_biases && fcs == channel_size
                &&& fused.len() == clamp_lut.len()
                &&& forall|i: int|
                    0 <= i < fused.len() ==> #[trigger] fused[i] == clamp_lut2[requant_select(
                        clamp_lut[i],
                        mult2,
                        round_bias2,
                        shift2,
                        out_bits2,
                    )] && fused[i] < 4
                &&& fits_out_bits(fused, out_bits)
            },
            (
                OpModel::Activation { lut: first, .. },
                OpModel::Activation { lut: second, output_bits },
                OpModel::Activation { lut: fused, output_bits: fob },
            ) => {
                &&& fob == output_bits
                &&& fused.len() == first.len()
                &&& forall|i: int|
                    0 <= i < fused.len() ==> #[trigger] fused[i] == second[as_index(first[i])]
            },
            _ => false,
        },
{
}


/// What a single-block table op computes from a non-negative single-block
/// value `v`: an `Activation` looks `v` up in its table; a per-tensor `Requant`
/// rescales `v` to `(v * mult + round_bias) / 2^shift`, saturated at
/// `2^out_bits - 1`, and looks that up in its clamp table. `None` where the
/// lookup falls outside the table, and for every other op.
pub open spec fn table_meaning(op: OpModel, v: u64) -> Option<u64> {
    match op {
        OpModel::Activation { lut, .. } => if as_index(v) < lut.len() {
            Some(lut[as_index(v)])
        } else {
            None
        },
        OpModel::Requant { shift, mult, round_bias, out_bits, clamp_lut, mults, shifts, round_biases, .. } => {
            let sel = requant_select(v, mult, round_bias, shift, out_bits);
            if mults.len() == 0 && shifts.len() == 0 && round_biases.len() == 0 && sel < clamp_lut.len() {
                Some(clamp_lut[sel])
            } else {
                None
            }
        },
        _ => None,
    }
}

/// Fusion keeps the meaning of the pair it replaces. Where an `Activation` is
/// the producer, the fused op computes, on every value the producer looks up,
/// what the consumer computes from the producer's result. Where a `Requant` is
/// the producer, the fused op keeps the producer's rescale (and per-channel)
/// fields, so it selects the same clamp-table index on every input, and at
/// every such index its table holds what the consumer computes from the
/// producer's entry.
pub proof fn lemma_fusion_preserves_meaning(prod: OpModel, cons: OpModel)
    ensures
        fuse_ops(prod, cons) matches Some(fused) ==> match prod {
            OpModel::Activation { .. } => forall|v: u64|
                #[trigger] table_meaning(prod, v) is Some ==> table_meaning(fused, v) == table_meaning(
                    cons,
                    table_meaning(prod, v)->0,
                ),
            OpModel::Requant { shift, mult, round_bias, out_bits, clamp_lut, mults, shifts, round_biases, channel_size } => {
                &&& fused matches OpModel::Requant {
                    shift: fs,
                    mult: fm,
                    round_bias: frb,
                    out_bits: fob,
                    clamp_lut: fl,
                    mults: fms,
                    shifts: fss,
                    round_biases: frbs,
                    channel_size: fcs,
                } && fs == shift && fm == mult && frb == round_bias && fob == out_bits && fms == mults
                    && fss == shifts && frbs == round_biases && fcs == channel_size
                    && fl.len() == clamp_lut.len() && forall|i: int|
                    0 <= i < clamp_lut.len() ==> Some(#[trigger] fl[i]) == table_meaning(cons, clamp_lut[i])
            },
            _ => false,
        },
{
    lemma_fused_tables_compose(prod, cons);
    if let Some(fused) = fuse_ops(prod, cons) {
        match prod {
            OpModel::Activation { lut: first, .. } => {
                if let OpModel::Activation { lut: second, .. } = cons {
                    assert forall|v: u64| #[trigger] table_meaning(prod, v) is Some implies table_meaning(fused, v)
                        == table_meaning(cons, table_meaning(prod, v)->0) by {
                        let i = as_index(v);
                        assert(compose_activations(first, second) is Some);
                        assert(as_index(first[i]) < second.len());
                    }
                }
            },
            OpModel::Requant { clamp_lut, .. } => {
                match cons {
                    OpModel::Activation { lut, .. } => {
                        assert(compose_requant_activation(clamp_lut, lut) is Some);
                        assert forall|i: int| 0 <= i < clamp_lut.len() implies block_entry_ok(lut, #[trigger] clamp_lut[i]) by {}
                    },
                    OpModel::Requant { shift: s2, mult: m2, round_bias: rb2, out_bits: ob2, clamp_lut: l2, .. } => {
                        assert(compose_requants(clamp_lut, m2, rb2, s2, ob2, l2) is Some);
                        assert forall|i: int| 0 <= i < clamp_lut.len() implies requant_entry_ok(#[trigger] clamp_lut[i], m2, rb2, s2, ob2, l2) by {}
                    },
                    _ => {},
                }
            },
            _ => {},
        }
    }
}

/// One fusion step in full: when a rewrite exists, it fuses some producer `p`
/// with a later consumer `c`, where the producer has a single output tensor
/// `t` that is no graph output and that exactly one read of all the nodes'
/// inputs takes, namely the consumer's; the consumer has one input and one
/// output; and the rewritten graph puts at `p` a node with the producer's name
/// and inputs, the consumer's outputs and the fused op, drops node `c`, and
/// keeps everything else.
pub proof fn lemma_first_fusion_is_one_rewrite(g: GraphModel, p0: nat)
    ensures
        first_fusion(g, p0) matches Some(h) ==> exists|p: int, c: int|
            #![trigger g.nodes[p], g.nodes[c]]
            {
                &&& p0 <= p < c < g.nodes.len()
                &&& g.nodes[p].outputs.len() == 1
                &&& !g.outputs.contains(g.nodes[p].outputs[0])
                &&& consumers(g.nodes, g.nodes[p].outputs[0]) == seq![c]
                &&& g.nodes[c].inputs.len() == 1
                &&& g.nodes[c].outputs.len() == 1
                &&& fuse_ops(g.nodes[p].op, g.nodes[c].op) matches Some(op)
                    && h == replace_and_remove(g, p, c, fused_node(g.nodes[p], g.nodes[c], op))
            },
    decreases g.nodes.len() - p0,
{
    if p0 < g.nodes.len() {
        let p = p0 as int;
        match fusion_partner(g, p) {
            Some(c) => {
                if fusion_at(g, p) is Some {
                    let t = g.nodes[p].outputs[0];
                    lemma_consumers_bounds(g.nodes, t);
                    assert(consumers(g.nodes, t) =~= seq![c]);
                    assert(g.nodes[p] == g.nodes[p] && g.nodes[c] == g.nodes[c]);
                } else {
                    lemma_first_fusion_is_one_rewrite(g, p0 + 1);
                }
            },
            None => {
                lemma_first_fusion_is_one_rewrite(g, p0 + 1);
            },
        }
    }
}

} // verus!
