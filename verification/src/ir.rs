//! The serializable op graph: a directed graph of op nodes in topological
//! order, and the load-time validation of each op's fields.

use vstd::prelude::*;

use crate::bitwidth::MESSAGE_BITS;
use crate::seqs::{first_where, lemma_first_where, lemma_first_where_at, lemma_first_where_none};
use crate::text::{dec, str_eq, u64_text, usize_text};

verus! {

/// IR wire-format version; a graph that declares another version is refused at load time.
pub const SCHEMA_VERSION: &'static str = "0.6.0";

/// The multiplier a `Requant` takes when its document omits one: `1` makes the
/// rescale a pure power-of-two shift.
pub fn default_requant_mult() -> (r: u64)
    ensures
        r == 1,
{
    1
}

/// The root IR object: a directed graph of op nodes in a valid topological order.
#[derive(Debug, Clone, PartialEq, Eq)]
pub struct Graph {
    pub schema_version: String,
    pub num_blocks: usize,
    pub input_bits: usize,
    pub inputs: Vec<String>,
    pub outputs: Vec<String>,
    pub nodes: Vec<Node>,
}

/// One op in the graph: a name, the tensor names it reads/writes, and its op payload.
#[derive(Debug, Clone, PartialEq, Eq)]
pub struct Node {
    pub name: String,
    pub inputs: Vec<String>,
    pub outputs: Vec<String>,
    pub op: OpSpec,
}

/// Spatial pooling mode.
#[derive(Debug, Clone, Copy, PartialEq, Eq)]
pub enum PoolMode {
    Avg,
    Max,
}

/// The op payload.
#[derive(Debug, Clone, PartialEq, Eq)]
pub enum OpSpec {
    Linear { weights: Vec<Vec<i64>>, bias: Vec<i64>, weight_bits: usize },
    Conv2d {
        weights: Vec<Vec<i64>>,
        bias: Vec<i64>,
        weight_bits: usize,
        in_h: usize,
        in_w: usize,
        in_channels: usize,
        kernel_h: usize,
        kernel_w: usize,
        stride: usize,
        padding: usize,
    },
    Activation { lut: Vec<u64>, output_bits: usize },
    Argmax { threshold: i64 },
    Requant {
        shift: u32,
        mult: u64,
        round_bias: u64,
        out_bits: usize,
        clamp_lut: Vec<u64>,
        mults: Vec<u64>,
        shifts: Vec<u32>,
        round_biases: Vec<u64>,
        channel_size: Option<usize>,
    },
    Pool {
        mode: String,
        in_h: usize,
        in_w: usize,
        channels: usize,
        pool_h: usize,
        pool_w: usize,
        stride: usize,
    },
    Add {},
}

/// The mathematical model of an op: its fields, with every vector taken as a sequence.
pub enum OpModel {
    Linear { weights: Seq<Seq<i64>>, bias: Seq<i64>, weight_bits: usize },
    Conv2d {
        weights: Seq<Seq<i64>>,
        bias: Seq<i64>,
        weight_bits: usize,
        in_h: usize,
        in_w: usize,
        in_channels: usize,
        kernel_h: usize,
        kernel_w: usize,
        stride: usize,
        padding: usize,
    },
    Activation { lut: Seq<u64>, output_bits: usize },
    Argmax { threshold: i64 },
    Requant {
        shift: u32,
        mult: u64,
        round_bias: u64,
        out_bits: usize,
        clamp_lut: Seq<u64>,
        mults: Seq<u64>,
        shifts: Seq<u32>,
        round_biases: Seq<u64>,
        channel_size: Option<usize>,
    },
    Pool {
        mode: Seq<char>,
        in_h: usize,
        in_w: usize,
        channels: usize,
        pool_h: usize,
        pool_w: usize,
        stride: usize,
    },
    Add,
}

/// The mathematical model of a node.
pub struct NodeModel {
    pub name: Seq<char>,
    pub inputs: Seq<Seq<char>>,
    pub outputs: Seq<Seq<char>>,
    pub op: OpModel,
}

/// The mathematical model of a graph.
pub struct GraphModel {
    pub schema_version: Seq<char>,
    pub num_blocks: usize,
    pub input_bits: usize,
    pub inputs: Seq<Seq<char>>,
    pub outputs: Seq<Seq<char>>,
    pub nodes: Seq<NodeModel>,
}

/// The characters of each string.
pub open spec fn names(v: Seq<String>) -> Seq<Seq<char>> {
    v.map_values(|s: String| s@)
}

/// The elements of each row.
pub open spec fn rows(v: Seq<Vec<i64>>) -> Seq<Seq<i64>> {
    v.map_values(|r: Vec<i64>| r@)
}

impl View for OpSpec {
    type V = OpModel;

    open spec fn view(&self) -> OpModel {
        match self {
            OpSpec::Linear { weights, bias, weight_bits } => OpModel::Linear {
                weights: rows(weights@),
                bias: bias@,
                weight_bits: *weight_bits,
            },
            OpSpec::Conv2d {
                weights,
                bias,
                weight_bits,
                in_h,
                in_w,
                in_channels,
                kernel_h,
                kernel_w,
                stride,
                padding,
            } => OpModel::Conv2d {
                weights: rows(weights@),
                bias: bias@,
                weight_bits: *weight_bits,
                in_h: *in_h,
                in_w: *in_w,
                in_channels: *in_channels,
                kernel_h: *kernel_h,
                kernel_w: *kernel_w,
                stride: *stride,
                padding: *padding,
            },
            OpSpec::Activation { lut, output_bits } => OpModel::Activation {
                lut: lut@,
                output_bits: *output_bits,
            },
            OpSpec::Argmax { threshold } => OpModel::Argmax { threshold: *threshold },
            OpSpec::Requant {
                shift,
                mult,
                round_bias,
                out_bits,
                clamp_lut,
                mults,
                shifts,
                round_biases,
                channel_size,
            } => OpModel::Requant {
                shift: *shift,
                mult: *mult,
                round_bias: *round_bias,
                out_bits: *out_bits,
                clamp_lut: clamp_lut@,
                mults: mults@,
                shifts: shifts@,
                round_biases: round_biases@,
                channel_size: *channel_size,
            },
            OpSpec::Pool { mode, in_h, in_w, channels, pool_h, pool_w, stride } => OpModel::Pool {
                mode: mode@,
                in_h: *in_h,
                in_w: *in_w,
                channels: *channels,
                pool_h: *pool_h,
                pool_w: *pool_w,
                stride: *stride,
            },
            OpSpec::Add {  } => OpModel::Add,
        }
    }
}

impl View for Node {
    type V = NodeModel;

    open spec fn view(&self) -> NodeModel {
        NodeModel {
            name: self.name@,
            inputs: names(self.inputs@),
            outputs: names(self.outputs@),
            op: self.op@,
        }
    }
}

impl View for Graph {
    type V = GraphModel;

    open spec fn view(&self) -> GraphModel {
        GraphModel {
            schema_version: self.schema_version@,
            num_blocks: self.num_blocks,
            input_bits: self.input_bits,
            inputs: names(self.inputs@),
            outputs: names(self.outputs@),
            nodes: self.nodes@.map_values(|n: Node| n@),
        }
    }
}

/// The name of an op's type, as `op_type` returns it.
pub open spec fn op_type_name(op: OpModel) -> Seq<char> {
    match op {
        OpModel::Linear { .. } => "Linear"@,
        OpModel::Conv2d { .. } => "Conv2d"@,
        OpModel::Activation { .. } => "Activation"@,
        OpModel::Argmax { .. } => "Argmax"@,
        OpModel::Requant { .. } => "Requant"@,
        OpModel::Pool { .. } => "Pool"@,
        OpModel::Add => "Add"@,
    }
}

/// A row whose length differs from `w`.
pub open spec fn row_len_ne(w: nat) -> spec_fn(Seq<i64>) -> bool {
    |r: Seq<i64>| r.len() != w
}

/// A value that is at least `b`.
pub open spec fn at_least(b: nat) -> spec_fn(u64) -> bool {
    |e: u64| e >= b
}

/// Whether the arithmetic validation performs on an op stays within `usize`.
/// Only a `Conv2d` computes anything: once its early checks (kernels present,
/// one bias per kernel, positive extents, kernel and stride) pass, it computes
/// its fan-in, and once every kernel matches the fan-in, its padded extents.
pub open spec fn sizes_fit(op: OpModel) -> bool {
    match op {
        OpModel::Conv2d {
            weights,
            bias,
            in_h,
            in_w,
            in_channels,
            kernel_h,
            kernel_w,
            stride,
            padding,
            ..
        } => {
            ||| weights.len() == 0
            ||| weights.len() != bias.len()
            ||| in_h == 0 || in_w == 0 || in_channels == 0
            ||| kernel_h == 0 || kernel_w == 0 || stride == 0
            ||| {
                &&& in_channels * kernel_h * kernel_w <= usize::MAX
                &&& (first_where(weights, row_len_ne((in_channels * kernel_h * kernel_w) as nat)) is Some || {
                    &&& in_h + 2 * padding <= usize::MAX
                    &&& in_w + 2 * padding <= usize::MAX
                })
            }
        },
        _ => true,
    }
}

/// Whether a per-channel overlay is present on a `Requant`.
pub open spec fn has_per_channel(
    mults: Seq<u64>,
    shifts: Seq<u32>,
    round_biases: Seq<u64>,
    channel_size: Option<usize>,
) -> bool {
    mults.len() != 0 || shifts.len() != 0 || round_biases.len() != 0 || channel_size is Some
}

/// The message, if any, with which `validate` refuses an op.
pub open spec fn validate_spec(op: OpModel) -> Result<(), Seq<char>> {
    match op {
        OpModel::Linear { weights, bias, .. } => {
            if weights.len() == 0 {
                Err("Linear op has no weight rows"@)
            } else if weights.len() != bias.len() {
                Err(
                    "Linear op has "@ + dec(weights.len()) + " weight rows but "@ + dec(
                        bias.len(),
                    ) + " biases; need one bias per row"@,
                )
            } else {
                let width = weights[0].len();
                match first_where(weights, row_len_ne(width)) {
                    Some(i) => Err(
                        "Linear weight row "@ + dec(i as nat) + " has width "@ + dec(
                            weights[i].len(),
                        ) + " but row 0 has width "@ + dec(width)
                            + "; all rows must match the input length"@,
                    ),
                    None => Ok(()),
                }
            }
        },
        OpModel::Conv2d {
            weights,
            bias,
            in_h,
            in_w,
            in_channels,
            kernel_h,
            kernel_w,
            stride,
            padding,
            ..
        } => {
            let fan_in = (in_channels * kernel_h * kernel_w) as nat;
            if weights.len() == 0 {
                Err("Conv2d op has no output channels (empty weights)"@)
            } else if weights.len() != bias.len() {
                Err(
                    "Conv2d has "@ + dec(weights.len()) + " kernels but "@ + dec(bias.len())
                        + " biases; need one bias per output channel"@,
                )
            } else if in_h == 0 || in_w == 0 || in_channels == 0 {
                Err("Conv2d in_h/in_w/in_channels must be positive"@)
            } else if kernel_h == 0 || kernel_w == 0 || stride == 0 {
                Err("Conv2d kernel_h/kernel_w/stride must be positive"@)
            } else {
                match first_where(weights, row_len_ne(fan_in)) {
                    Some(i) => Err(
                        "Conv2d kernel row "@ + dec(i as nat) + " has width "@ + dec(
                            weights[i].len(),
                        ) + " but in_channels*kernel_h*kernel_w = "@ + dec(fan_in)
                            + "; every kernel must match the fan-in"@,
                    ),
                    None => if kernel_h > in_h + 2 * padding || kernel_w > in_w + 2 * padding {
                        Err(
                            "Conv2d kernel ("@ + dec(kernel_h as nat) + "x"@ + dec(
                                kernel_w as nat,
                            ) + ") does not fit the padded input ("@ + dec(
                                (in_h + 2 * padding) as nat,
                            ) + "x"@ + dec((in_w + 2 * padding) as nat) + ")"@,
                        )
                    } else {
                        Ok(())
                    },
                }
            }
        },
        OpModel::Activation { .. } => Ok(()),
        OpModel::Argmax { .. } => Ok(()),
        OpModel::Requant {
            mult,
            out_bits,
            clamp_lut,
            mults,
            shifts,
            round_biases,
            channel_size,
            ..
        } => {
            if clamp_lut.len() != 4 {
                Err(
                    "Requant clamp_lut must have 4 entries (the 2-bit message space); got "@
                        + dec(clamp_lut.len()),
                )
            } else {
                match first_where(clamp_lut, at_least(4)) {
                    Some(i) => Err(
                        "Requant clamp_lut["@ + dec(i as nat) + "] = "@ + dec(
                            clamp_lut[i] as nat,
                        ) + " does not fit one shortint block (must be < 4)"@,
                    ),
                    None => if out_bits > MESSAGE_BITS {
                        Err(
                            "Requant out_bits ("@ + dec(out_bits as nat)
                                + ") exceeds MESSAGE_BITS (2); the narrowed value must fit a single shortint block"@,
                        )
                    } else if mult == 0 {
                        Err(
                            "Requant mult must be >= 1 (a fixed-point multiplier; 1 is a pure shift)"@,
                        )
                    } else if !has_per_channel(mults, shifts, round_biases, channel_size) {
                        Ok(())
                    } else if mults.len() == 0 {
                        Err(
                            "Requant per-channel overlay present but `mults` is empty; supply one multiplier per output channel"@,
                        )
                    } else if shifts.len() != mults.len() || round_biases.len()
                        != mults.len() {
                        Err(
                            "Requant per-channel arrays must be equal length: mults="@ + dec(
                                mults.len(),
                            ) + ", shifts="@ + dec(shifts.len()) + ", round_biases="@ + dec(
                                round_biases.len(),
                            ),
                        )
                    } else {
                        match channel_size {
                            None => Err(
                                "Requant per-channel overlay needs `channel_size` (elements per channel: 1 for a Linear head, out_h*out_w for a Conv2d)"@,
                            ),
                            Some(cs) => if cs < 1 {
                                Err("Requant channel_size must be >= 1"@)
                            } else {
                                match first_where(mults, |m: u64| m == 0) {
                                    Some(i) => Err(
                                        "Requant mults["@ + dec(i as nat) + "] = "@ + dec(
                                            mults[i] as nat,
                                        )
                                            + " must be >= 1 (a fixed-point multiplier per channel; 1 is a pure shift)"@,
                                    ),
                                    None => Ok(()),
                                }
                            },
                        }
                    },
                }
            }
        },
        OpModel::Pool { mode, in_h, in_w, channels, pool_h, pool_w, stride } => {
            if mode != "avg"@ && mode != "max"@ {
                Err("Pool mode must be \"avg\" or \"max\"; got "@ + debug_text(mode))
            } else if in_h == 0 || in_w == 0 || channels == 0 {
                Err("Pool in_h/in_w/channels must be positive"@)
            } else if pool_h == 0 || pool_w == 0 || stride == 0 {
                Err("Pool pool_h/pool_w/stride must be positive"@)
            } else if pool_h > in_h || pool_w > in_w {
                Err(
                    "Pool window ("@ + dec(pool_h as nat) + "x"@ + dec(pool_w as nat)
                        + ") must fit the input ("@ + dec(in_h as nat) + "x"@ + dec(in_w as nat)
                        + ")"@,
                )
            } else {
                Ok(())
            }
        },
        OpModel::Add => Ok(()),
    }
}

/// What `{:?}` writes for a string: the characters in double quotes, with
/// quotes, backslashes and non-printable characters escaped.
pub uninterp spec fn debug_text(s: Seq<char>) -> Seq<char>;

/// Formats a string with `{:?}` (std's `Debug` for `str`). The contract only
/// names the result: it equals `debug_text` of the characters, a function of
/// them alone.
#[verifier::external_body]
pub(crate) fn debug_str(s: &str) -> (r: String)
    ensures
        r@ == debug_text(s@),
{
    format!("{:?}", s)
}

/// Appends `b` to `a`, returning the joined string.
pub fn cat(a: String, b: &str) -> (r: String)
    ensures
        r@ == a@ + b@,
{
    let mut a = a;
    a.append(b);
    a
}

/// Finds the first row whose length is not `width`.
fn find_row_len_ne(rws: &Vec<Vec<i64>>, width: usize) -> (r: Option<usize>)
    ensures
        r matches Some(i) ==> i < rws@.len() && first_where(rows(rws@), row_len_ne(width as nat))
            == Some(i as int),
        r is None ==> first_where(rows(rws@), row_len_ne(width as nat)) is None,
{
    let ghost p = row_len_ne(width as nat);
    let mut i: usize = 0;
    while i < rws.len()
        invariant
            i <= rws@.len(),
            p == row_len_ne(width as nat),
            forall|j: int| 0 <= j < i ==> !p(#[trigger] rows(rws@)[j]),
        decreases rws@.len() - i,
    {
        if rws[i].len() != width {
            proof { lemma_first_where_at(rows(rws@), p, i as int); }
            return Some(i);
        }
        i = i + 1;
    }
    proof { lemma_first_where_none(rows(rws@), p); }
    None
}

/// Finds the first value that is at least `bound`.
fn find_at_least(vals: &Vec<u64>, bound: u64) -> (r: Option<usize>)
    ensures
        r matches Some(i) ==> i < vals@.len() && first_where(vals@, at_least(bound as nat))
            == Some(i as int),
        r is None ==> first_where(vals@, at_least(bound as nat)) is None,
{
    let ghost p = at_least(bound as nat);
    let mut i: usize = 0;
    while i < vals.len()
        invariant
            i <= vals@.len(),
            p == at_least(bound as nat),
            forall|j: int| 0 <= j < i ==> !p(#[trigger] vals@[j]),
        decreases vals@.len() - i,
    {
        if vals[i] >= bound {
            proof { lemma_first_where_at(vals@, p, i as int); }
            return Some(i);
        }
        i = i + 1;
    }
    proof { lemma_first_where_none(vals@, p); }
    None
}

/// Finds the first zero.
fn find_zero(vals: &Vec<u64>) -> (r: Option<usize>)
    ensures
        r matches Some(i) ==> i < vals@.len() && first_where(vals@, |m: u64| m == 0) == Some(
            i as int,
        ),
        r is None ==> first_where(vals@, |m: u64| m == 0) is None,
{
    let ghost p = |m: u64| m == 0;
    let mut i: usize = 0;
    while i < vals.len()
        invariant
            i <= vals@.len(),
            p == (|m: u64| m == 0),
            forall|j: int| 0 <= j < i ==> !p(#[trigger] vals@[j]),
        decreases vals@.len() - i,
    {
        if vals[i] == 0 {
            proof { lemma_first_where_at(vals@, p, i as int); }
            return Some(i);
        }
        i = i + 1;
    }
    proof { lemma_first_where_none(vals@, p); }
    None
}

impl OpSpec {
    /// The op's type name.
    pub fn op_type(&self) -> (r: &'static str)
        ensures
            r@ == op_type_name(self@),
    {
        match self {
            OpSpec::Linear { .. } => "Linear",
            OpSpec::Conv2d { .. } => "Conv2d",
            OpSpec::Activation { .. } => "Activation",
            OpSpec::Argmax { .. } => "Argmax",
            OpSpec::Requant { .. } => "Requant",
            OpSpec::Pool { .. } => "Pool",
            OpSpec::Add {  } => "Add",
        }
    }

    /// Validate the op's fields at load time, failing loudly on an invalid configuration.
    pub fn validate(&self) -> (r: Result<(), String>)
        requires
            sizes_fit(self@),
        ensures
            match r {
                Ok(()) => validate_spec(self@) is Ok,
                Err(e) => validate_spec(self@) == Err::<(), Seq<char>>(e@),
            },
    {
        match self {
            OpSpec::Linear { weights, bias, .. } => {
                if weights.len() == 0 {
                    return Err(String::from_str("Linear op has no weight rows"));
                }
                if weights.len() != bias.len() {
                    let m = cat(String::from_str("Linear op has "), usize_text(weights.len()).as_str());
                    let m = cat(m, " weight rows but ");
                    let m = cat(m, usize_text(bias.len()).as_str());
                    let m = cat(m, " biases; need one bias per row");
                    return Err(m);
                }
                let width = weights[0].len();
                if let Some(i) = find_row_len_ne(weights, width) {
                    let m = cat(String::from_str("Linear weight row "), usize_text(i).as_str());
                    let m = cat(m, " has width ");
                    let m = cat(m, usize_text(weights[i].len()).as_str());
                    let m = cat(m, " but row 0 has width ");
                    let m = cat(m, usize_text(width).as_str());
                    let m = cat(m, "; all rows must match the input length");
                    return Err(m);
                }
            },
            OpSpec::Conv2d {
                weights,
                bias,
                in_h,
                in_w,
                in_channels,
                kernel_h,
                kernel_w,
                stride,
                padding,
                ..
            } => {
                if weights.len() == 0 {
                    return Err(String::from_str("Conv2d op has no output channels (empty weights)"));
                }
                if weights.len() != bias.len() {
                    let m = cat(String::from_str("Conv2d has "), usize_text(weights.len()).as_str());
                    let m = cat(m, " kernels but ");
                    let m = cat(m, usize_text(bias.len()).as_str());
                    let m = cat(m, " biases; need one bias per output channel");
                    return Err(m);
                }
                if *in_h == 0 || *in_w == 0 || *in_channels == 0 {
                    return Err(String::from_str("Conv2d in_h/in_w/in_channels must be positive"));
                }
                if *kernel_h == 0 || *kernel_w == 0 || *stride == 0 {
                    return Err(String::from_str("Conv2d kernel_h/kernel_w/stride must be positive"));
                }
                assert(*in_channels * *kernel_h <= *in_channels * *kernel_h * *kernel_w)
                    by (nonlinear_arith)
                    requires *kernel_w >= 1;
                let fan_in = *in_channels * *kernel_h * *kernel_w;
                if let Some(i) = find_row_len_ne(weights, fan_in) {
                    let m = cat(String::from_str("Conv2d kernel row "), usize_text(i).as_str());
                    let m = cat(m, " has width ");
                    let m = cat(m, usize_text(weights[i].len()).as_str());
                    let m = cat(m, " but in_channels*kernel_h*kernel_w = ");
                    let m = cat(m, usize_text(fan_in).as_str());
                    let m = cat(m, "; every kernel must match the fan-in");
                    return Err(m);
                }
                let padded_h = *in_h + 2 * *padding;
                let padded_w = *in_w + 2 * *padding;
                if *kernel_h > padded_h || *kernel_w > padded_w {
                    let m = cat(String::from_str("Conv2d kernel ("), usize_text(*kernel_h).as_str());
                    let m = cat(m, "x");
                    let m = cat(m, usize_text(*kernel_w).as_str());
                    let m = cat(m, ") does not fit the padded input (");
                    let m = cat(m, usize_text(padded_h).as_str());
                    let m = cat(m, "x");
                    let m = cat(m, usize_text(padded_w).as_str());
                    let m = cat(m, ")");
                    return Err(m);
                }
            },
            OpSpec::Activation { .. } => {},
            OpSpec::Argmax { .. } => {},
            OpSpec::Requant {
                mult,
                out_bits,
                clamp_lut,
                mults,
                shifts,
                round_biases,
                channel_size,
                ..
            } => {
                if clamp_lut.len() != 4 {
                    let m = cat(
                        String::from_str(
                            "Requant clamp_lut must have 4 entries (the 2-bit message space); got ",
                        ),
                        usize_text(clamp_lut.len()).as_str(),
                    );
                    return Err(m);
                }
                if let Some(i) = find_at_least(clamp_lut, 4) {
                    let m = cat(String::from_str("Requant clamp_lut["), usize_text(i).as_str());
                    let m = cat(m, "] = ");
                    let m = cat(m, u64_text(clamp_lut[i]).as_str());
                    let m = cat(m, " does not fit one shortint block (must be < 4)");
                    return Err(m);
                }
                if *out_bits > MESSAGE_BITS {
                    let m = cat(String::from_str("Requant out_bits ("), usize_text(*out_bits).as_str());
                    let m = cat(
                        m,
                        ") exceeds MESSAGE_BITS (2); the narrowed value must fit a single shortint block",
                    );
                    return Err(m);
                }
                if *mult == 0 {
                    return Err(
                        String::from_str(
                            "Requant mult must be >= 1 (a fixed-point multiplier; 1 is a pure shift)",
                        ),
                    );
                }
                let has_pc = mults.len() != 0 || shifts.len() != 0 || round_biases.len() != 0
                    || channel_size.is_some();
                if has_pc {
                    if mults.len() == 0 {
                        return Err(
                            String::from_str(
                                "Requant per-channel overlay present but `mults` is empty; supply one multiplier per output channel",
                            ),
                        );
                    }
                    if shifts.len() != mults.len() || round_biases.len() != mults.len() {
                        let m = cat(
                            String::from_str("Requant per-channel arrays must be equal length: mults="),
                            usize_text(mults.len()).as_str(),
                        );
                        let m = cat(m, ", shifts=");
                        let m = cat(m, usize_text(shifts.len()).as_str());
                        let m = cat(m, ", round_biases=");
                        let m = cat(m, usize_text(round_biases.len()).as_str());
                        return Err(m);
                    }
                    match channel_size {
                        None => {
                            return Err(
                                String::from_str(
                                    "Requant per-channel overlay needs `channel_size` (elements per channel: 1 for a Linear head, out_h*out_w for a Conv2d)",
                                ),
                            );
                        },
                        Some(cs) => {
                            if *cs < 1 {
                                return Err(String::from_str("Requant channel_size must be >= 1"));
                            }
                        },
                    }
                    if let Some(i) = find_zero(mults) {
                        let m = cat(String::from_str("Requant mults["), usize_text(i).as_str());
                        let m = cat(m, "] = ");
                        let m = cat(m, u64_text(mults[i]).as_str());
                        let m = cat(
                            m,
                            " must be >= 1 (a fixed-point multiplier per channel; 1 is a pure shift)",
                        );
                        return Err(m);
                    }
                }
            },
            OpSpec::Pool { mode, in_h, in_w, channels, pool_h, pool_w, stride } => {
                let is_avg = str_eq(mode.as_str(), "avg");
                let is_max = str_eq(mode.as_str(), "max");
                if !is_avg && !is_max {
                    let m = cat(
                        String::from_str("Pool mode must be \"avg\" or \"max\"; got "),
                        debug_str(mode.as_str()).as_str(),
                    );
                    return Err(m);
                }
                if *in_h == 0 || *in_w == 0 || *channels == 0 {
                    return Err(String::from_str("Pool in_h/in_w/channels must be positive"));
                }
                if *pool_h == 0 || *pool_w == 0 || *stride == 0 {
                    return Err(String::from_str("Pool pool_h/pool_w/stride must be positive"));
                }
                if *pool_h > *in_h || *pool_w > *in_w {
                    let m = cat(String::from_str("Pool window ("), usize_text(*pool_h).as_str());
                    let m = cat(m, "x");
                    let m = cat(m, usize_text(*pool_w).as_str());
                    let m = cat(m, ") must fit the input (");
                    let m = cat(m, usize_text(*in_h).as_str());
                    let m = cat(m, "x");
                    let m = cat(m, usize_text(*in_w).as_str());
                    let m = cat(m, ")");
                    return Err(m);
                }
            },
            OpSpec::Add {  } => {},
        }
        Ok(())
    }
}


/// The refusal of a graph written for another schema version.
pub open spec fn schema_mismatch_msg(declared: Seq<char>) -> Seq<char> {
    "IR schema-version mismatch: file declares \""@ + declared
        + "\" but this runtime expects \"0.6.0\". A schema-version change is breaking (AGENTS.md \u{a7}5, \u{a7}8); regenerate the IR from a matching front end."@
}

impl Graph {
    /// Check a freshly parsed graph's declared schema version, refusing any other
    /// version than `SCHEMA_VERSION` loudly.
    pub fn check_schema_version(&self) -> (r: Result<(), String>)
        ensures
            self.schema_version@ == SCHEMA_VERSION@ ==> r is Ok,
            self.schema_version@ != SCHEMA_VERSION@ ==> (r matches Err(e) && e@ == schema_mismatch_msg(
                self.schema_version@,
            )),
    {
        if str_eq(self.schema_version.as_str(), SCHEMA_VERSION) {
            Ok(())
        } else {
            let m = cat(String::from_str("IR schema-version mismatch: file declares \""), self.schema_version.as_str());
            let m = cat(
                m,
                "\" but this runtime expects \"0.6.0\". A schema-version change is breaking (AGENTS.md \u{a7}5, \u{a7}8); regenerate the IR from a matching front end.",
            );
            Err(m)
        }
    }
}


/// Whether the arithmetic `validate` performs on `op` stays within `usize`, as
/// `sizes_fit` says, decided with checked arithmetic.
#[verifier::loop_isolation(false)]
pub fn sizes_ready(op: &OpSpec) -> (r: bool)
    ensures
        r == sizes_fit(op@),
{
    match op {
        OpSpec::Conv2d { weights, bias, in_h, in_w, in_channels, kernel_h, kernel_w, stride, padding, .. } => {
            if weights.len() == 0 || weights.len() != bias.len() || *in_h == 0 || *in_w == 0
                || *in_channels == 0 || *kernel_h == 0 || *kernel_w == 0 || *stride == 0 {
                return true;
            }
            let ck = match in_channels.checked_mul(*kernel_h) {
                Some(x) => x,
                None => {
                    assert((*in_channels as int) * (*kernel_h as int) * (*kernel_w as int) > usize::MAX) by (nonlinear_arith)
                        requires
                            (*in_channels as int) * (*kernel_h as int) > usize::MAX,
                            *kernel_w >= 1,
                    ;
                    return false;
                },
            };
            let fan = match ck.checked_mul(*kernel_w) {
                Some(x) => x,
                None => {
                    return false;
                },
            };
            let ghost rs = rows(weights@);
            let ghost p = row_len_ne(fan as nat);
            let mut i: usize = 0;
            while i < weights.len()
                invariant
                    i <= weights@.len(),
                    rs == rows(weights@),
                    p == row_len_ne(fan as nat),
                    forall|j: int| 0 <= j < i ==> !p(#[trigger] rs[j]),
                decreases weights@.len() - i,
            {
                if weights[i].len() != fan {
                    assert(p(rs[i as int]));
                    proof { crate::seqs::lemma_first_where_at(rs, p, i as int); }
                    return true;
                }
                i = i + 1;
            }
            proof { crate::seqs::lemma_first_where_none(rs, p); }
            match padding.checked_mul(2) {
                None => false,
                Some(twice) => in_h.checked_add(twice).is_some() && in_w.checked_add(twice).is_some(),
            }
        },
        _ => true,
    }
}


/// A `Requant` that validation accepts fits one shortint block: its narrowed
/// value needs at most `MESSAGE_BITS` (2) bits, its clamp table covers the four
/// values of the 2-bit message space, each entry below 4, and every multiplier
/// it carries is at least 1.
pub proof fn lemma_accepted_requant_fits_a_block(op: OpModel)
    requires
        op is Requant,
        validate_spec(op) is Ok,
    ensures
        op->Requant_out_bits <= crate::bitwidth::MESSAGE_BITS,
        crate::bitwidth::MESSAGE_BITS == 2,
        op->Requant_clamp_lut.len() == 4,
        forall|i: int| 0 <= i < 4 ==> #[trigger] op->Requant_clamp_lut[i] < 4,
        op->Requant_mult >= 1,
        forall|i: int| 0 <= i < op->Requant_mults.len() ==> #[trigger] op->Requant_mults[i] >= 1,
{
    if let OpModel::Requant { clamp_lut, mults, .. } = op {
        lemma_first_where(clamp_lut, at_least(4));
        lemma_first_where(mults, |m: u64| m == 0);
        assert forall|i: int| 0 <= i < 4 implies #[trigger] clamp_lut[i] < 4 by {
            assert(!at_least(4)(clamp_lut[i]));
        }
        assert forall|i: int| 0 <= i < mults.len() implies #[trigger] mults[i] >= 1 by {
            assert(!(|m: u64| m == 0)(mults[i]));
        }
    }
}


/// What an op needs to be evaluated: a `Linear` has at least one weight row, one
/// bias per row and rows of one width; a `Conv2d` has at least one kernel, one
/// bias per kernel, positive extents, kernel and stride, kernels as wide as its
/// fan-in and a kernel that fits the padded input; a `Pool` averages or takes
/// the maximum over a window that fits its positive extents; a `Requant` fits
/// one shortint block, multiplies by at least 1, and carries a complete
/// per-channel overlay if any; every other op is always well formed.
pub open spec fn well_formed_op(op: OpModel) -> bool {
    match op {
        OpModel::Linear { weights, bias, .. } => {
            &&& weights.len() > 0
            &&& bias.len() == weights.len()
            &&& forall|i: int| 0 <= i < weights.len() ==> (#[trigger] weights[i]).len() == weights[0].len()
        },
        OpModel::Conv2d { weights, bias, in_h, in_w, in_channels, kernel_h, kernel_w, stride, padding, .. } => {
            &&& weights.len() > 0
            &&& bias.len() == weights.len()
            &&& in_h > 0 && in_w > 0 && in_channels > 0
            &&& kernel_h > 0 && kernel_w > 0 && stride > 0
            &&& forall|i: int|
                0 <= i < weights.len() ==> (#[trigger] weights[i]).len() == in_channels * kernel_h * kernel_w
            &&& kernel_h <= in_h + 2 * padding && kernel_w <= in_w + 2 * padding
        },
        OpModel::Pool { mode, in_h, in_w, channels, pool_h, pool_w, stride } => {
            &&& (mode == "avg"@ || mode == "max"@)
            &&& in_h > 0 && in_w > 0 && channels > 0
            &&& pool_h > 0 && pool_w > 0 && stride > 0
            &&& pool_h <= in_h && pool_w <= in_w
        },
        OpModel::Requant { mult, out_bits, clamp_lut, mults, shifts, round_biases, channel_size, .. } => {
            &&& clamp_lut.len() == 4
            &&& forall|i: int| 0 <= i < 4 ==> #[trigger] clamp_lut[i] < 4
            &&& out_bits <= MESSAGE_BITS
            &&& mult >= 1
            &&& has_per_channel(mults, shifts, round_biases, channel_size) ==> {
                &&& mults.len() > 0
                &&& shifts.len() == mults.len()
                &&& round_biases.len() == mults.len()
                &&& channel_size matches Some(cs) && cs >= 1
                &&& forall|i: int| 0 <= i < mults.len() ==> #[trigger] mults[i] >= 1
            }
        },
        _ => true,
    }
}

/// Validation accepts exactly the well-formed ops.
pub proof fn lemma_validate_accepts_well_formed(op: OpModel)
    ensures
        validate_spec(op) is Ok <==> well_formed_op(op),
{
    match op {
        OpModel::Linear { weights, bias, .. } => {
            if weights.len() > 0 {
                let p = row_len_ne(weights[0].len());
                lemma_first_where(weights, p);
                if first_where(weights, p) is None {
                    assert forall|i: int| 0 <= i < weights.len() implies (#[trigger] weights[i]).len() == weights[0].len() by {
                        assert(!p(weights[i]));
                    }
                } else {
                    let i = first_where(weights, p)->0;
                    assert(p(weights[i]));
                }
            }
        },
        OpModel::Conv2d { weights, in_channels, kernel_h, kernel_w, .. } => {
            let p = row_len_ne((in_channels * kernel_h * kernel_w) as nat);
            lemma_first_where(weights, p);
            if first_where(weights, p) is None {
                assert forall|i: int| 0 <= i < weights.len() implies (#[trigger] weights[i]).len() == in_channels * kernel_h * kernel_w by {
                    assert(!p(weights[i]));
                }
            } else {
                let i = first_where(weights, p)->0;
                assert(p(weights[i]));
            }
        },
        OpModel::Requant { clamp_lut, mults, .. } => {
            lemma_first_where(clamp_lut, at_least(4));
            lemma_first_where(mults, |m: u64| m == 0);
            if first_where(clamp_lut, at_least(4)) is None {
                assert forall|i: int| 0 <= i < clamp_lut.len() implies #[trigger] clamp_lut[i] < 4 by {
                    assert(!at_least(4)(clamp_lut[i]));
                }
            } else {
                let i = first_where(clamp_lut, at_least(4))->0;
                assert(at_least(4)(clamp_lut[i]));
            }
            if first_where(mults, |m: u64| m == 0) is None {
                assert forall|i: int| 0 <= i < mults.len() implies #[trigger] mults[i] >= 1 by {
                    assert(!(|m: u64| m == 0)(mults[i]));
                }
            } else {
                let i = first_where(mults, |m: u64| m == 0)->0;
                assert((|m: u64| m == 0)(mults[i]));
            }
        },
        _ => {},
    }
}

} // verus!
