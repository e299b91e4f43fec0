//! Copies of IR values whose models are stated, for use where the rewritten
//! graph must be built from parts of the old one.

use vstd::prelude::*;

use crate::ir::{names, rows, Graph, Node, NodeModel, OpSpec};

verus! {

/// The models of a sequence of nodes.
pub open spec fn node_models(v: Seq<Node>) -> Seq<NodeModel> {
    v.map_values(|n: Node| n@)
}

/// Copies a vector of `Copy` values.
pub fn copy_vec<T: Copy>(v: &Vec<T>) -> (r: Vec<T>)
    ensures
        r@ == v@,
{
    let mut r: Vec<T> = Vec::new();
    let mut i: usize = 0;
    while i < v.len()
        invariant
            i <= v@.len(),
            r@ == v@.take(i as int),
        decreases v@.len() - i,
    {
        r.push(v[i]);
        assert(v@.take(i + 1) =~= v@.take(i as int).push(v@[i as int]));
        i = i + 1;
    }
    assert(v@.take(v@.len() as int) =~= v@);
    r
}

/// Copies a vector of strings.
pub fn copy_strings(v: &Vec<String>) -> (r: Vec<String>)
    ensures
        r@ == v@,
        names(r@) == names(v@),
{
    let mut r: Vec<String> = Vec::new();
    let mut i: usize = 0;
    while i < v.len()
        invariant
            i <= v@.len(),
            r@ == v@.take(i as int),
        decreases v@.len() - i,
    {
        r.push(v[i].clone());
        assert(v@.take(i + 1) =~= v@.take(i as int).push(v@[i as int]));
        i = i + 1;
    }
    assert(v@.take(v@.len() as int) =~= v@);
    r
}

/// Copies a vector of rows.
pub fn copy_rows(v: &Vec<Vec<i64>>) -> (r: Vec<Vec<i64>>)
    ensures
        rows(r@) == rows(v@),
{
    let mut r: Vec<Vec<i64>> = Vec::new();
    let mut i: usize = 0;
    while i < v.len()
        invariant
            i <= v@.len(),
            rows(r@) == rows(v@.take(i as int)),
        decreases v@.len() - i,
    {
        let row = copy_vec(&v[i]);
        r.push(row);
        assert(rows(v@.take(i + 1)) =~= rows(v@.take(i as int)).push(v@[i as int]@));
        assert(rows(r@) =~= rows(v@.take(i as int)).push(v@[i as int]@));
        i = i + 1;
    }
    assert(v@.take(v@.len() as int) =~= v@);
    r
}

/// Copies a string.
pub fn copy_string(s: &String) -> (r: String)
    ensures
        r == *s,
        r@ == s@,
{
    s.clone()
}

impl OpSpec {
    /// A copy of this op with the same model.
    pub fn duplicate(&self) -> (r: OpSpec)
        ensures
            r@ == self@,
    {
        match self {
            OpSpec::Linear { weights, bias, weight_bits } => OpSpec::Linear {
                weights: copy_rows(weights),
                bias: copy_vec(bias),
                weight_bits: *weight_bits,
            },
            OpSpec::Conv2d {
                weights,
                bias,
                weight_bits,
                in_h,
                in_w,
                in_channels,
                kernel_h,
                kernel_w,
                stride,
                padding,
            } => OpSpec::Conv2d {
                weights: copy_rows(weights),
                bias: copy_vec(bias),
                weight_bits: *weight_bits,
                in_h: *in_h,
                in_w: *in_w,
                in_channels: *in_channels,
                kernel_h: *kernel_h,
                kernel_w: *kernel_w,
                stride: *stride,
                padding: *padding,
            },
            OpSpec::Activation { lut, output_bits } => OpSpec::Activation {
                lut: copy_vec(lut),
                output_bits: *output_bits,
            },
            OpSpec::Argmax { threshold } => OpSpec::Argmax { threshold: *threshold },
            OpSpec::Requant {
                shift,
                mult,
                round_bias,
                out_bits,
                clamp_lut,
                mults,
                shifts,
                round_biases,
                channel_size,
            } => OpSpec::Requant {
                shift: *shift,
                mult: *mult,
                round_bias: *round_bias,
                out_bits: *out_bits,
                clamp_lut: copy_vec(clamp_lut),
                mults: copy_vec(mults),
                shifts: copy_vec(shifts),
                round_biases: copy_vec(round_biases),
                channel_size: *channel_size,
            },
            OpSpec::Pool { mode, in_h, in_w, channels, pool_h, pool_w, stride } => OpSpec::Pool {
                mode: copy_string(mode),
                in_h: *in_h,
                in_w: *in_w,
                channels: *channels,
                pool_h: *pool_h,
                pool_w: *pool_w,
                stride: *stride,
            },
            OpSpec::Add {  } => OpSpec::Add {  },
        }
    }
}

impl Node {
    /// A copy of this node with the same model.
    pub fn duplicate(&self) -> (r: Node)
        ensures
            r@ == self@,
    {
        Node {
            name: copy_string(&self.name),
            inputs: copy_strings(&self.inputs),
            outputs: copy_strings(&self.outputs),
            op: self.op.duplicate(),
        }
    }
}

/// Copies a vector of nodes.
pub fn copy_nodes(v: &Vec<Node>) -> (r: Vec<Node>)
    ensures
        node_models(r@) == node_models(v@),
{
    let mut r: Vec<Node> = Vec::new();
    let mut i: usize = 0;
    while i < v.len()
        invariant
            i <= v@.len(),
            node_models(r@) == node_models(v@.take(i as int)),
        decreases v@.len() - i,
    {
        let n = v[i].duplicate();
        r.push(n);
        assert(node_models(v@.take(i + 1)) =~= node_models(v@.take(i as int)).push(v@[i as int]@));
        assert(node_models(r@) =~= node_models(v@.take(i as int)).push(v@[i as int]@));
        i = i + 1;
    }
    assert(v@.take(v@.len() as int) =~= v@);
    r
}

impl Graph {
    /// A copy of this graph with the same model.
    pub fn duplicate(&self) -> (r: Graph)
        ensures
            r@ == self@,
    {
        let nodes = copy_nodes(&self.nodes);
        let r = Graph {
            schema_version: copy_string(&self.schema_version),
            num_blocks: self.num_blocks,
            input_bits: self.input_bits,
            inputs: copy_strings(&self.inputs),
            outputs: copy_strings(&self.outputs),
            nodes,
        };
        assert(r@.nodes =~= self@.nodes);
        r
    }
}

} // verus!
