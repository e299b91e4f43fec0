//! What the CKKS backend prepares for each op before any polynomial is fitted
//! or any key is touched: the validation and refusals, the plaintext matrices
//! of the linear ops and their diagonals, and the parameters handed to the
//! polynomial fits.

use vstd::prelude::*;

use crate::ckks::{
    avg_pool_matrix, conv2d_matrix, conv_cols, conv_entry, conv_rows, conv_shape, dimension_msg,
    diagonal_views, flatten, linear_matrix, matrix_diagonals, nonzero_diagonals, pool_entry, windows,
};
use crate::ir::{rows, row_len_ne, sizes_fit, validate_spec, OpModel, OpSpec};
use crate::seqs::{first_where, lemma_first_where};
use crate::ir::cat;
use crate::text::{str_eq, usize_text};

verus! {

/// Which linear op a prepared matrix stands for, with the fields its evaluation keeps.
#[derive(Debug, Clone, Copy, PartialEq, Eq)]
pub enum LinearKind {
    Linear { weight_bits: usize },
    Conv2d { weight_bits: usize, in_channels: usize, kernel_h: usize, kernel_w: usize },
    PoolAvg { pool_h: usize, pool_w: usize },
}

/// What the backend prepares for one op.
#[derive(Debug)]
pub enum OpPlan {
    /// A plaintext matrix-vector product, by its nonzero generalized diagonals.
    LinearMap {
        kind: LinearKind,
        rows: usize,
        cols: usize,
        bias: Vec<i64>,
        diagonals: Vec<(usize, Vec<i64>)>,
    },
    /// One polynomial fit of the per-tensor rescale.
    RequantPerTensor {
        mult: i64,
        shift: usize,
        round_bias: i64,
        out_bits: usize,
        input_bits: usize,
        max_depth: usize,
    },
    /// A polynomial fit per channel of the per-channel rescale.
    RequantPerChannel {
        mults: Vec<i64>,
        shifts: Vec<usize>,
        round_biases: Vec<i64>,
        channel_size: usize,
        out_bits: usize,
        input_bits: usize,
        total_len: usize,
        max_depth: usize,
    },
    /// A polynomial fit of the lookup table.
    Activation { lut: Vec<i64>, output_bits: usize },
    /// A sign-polynomial comparison against the threshold.
    Argmax { threshold: i64, degree: usize, max_depth: usize },
    /// A ciphertext addition.
    Add,
}

/// The input width every rescale fit assumes.
pub open spec fn requant_input_bits() -> usize {
    14
}

/// The deepest polynomial a fit may use: the multiplicative budget over the
/// scale, at least one level.
pub open spec fn max_depth(log_budget: usize, log_delta: usize) -> usize {
    let d = log_budget / (if log_delta >= 1 { log_delta } else { 1 });
    if d >= 1 {
        d
    } else {
        1
    }
}

/// The refusal of a max pool.
pub open spec fn pool_max_msg() -> Seq<char> {
    "operator Pool(max) is unsupported on backend 'ckks': a homomorphic maximum needs a polynomial sign approximation whose depth exceeds this backend's level budget, and no committed model uses it. Use Pool(avg), or run this model on the 'tfhe' backend (see docs/SUPPORTED-OPS.md)."@
}

/// The values of a sequence of unsigned integers, reinterpreted as signed.
pub open spec fn as_signed(v: Seq<u64>) -> Seq<i64> {
    v.map_values(|x: u64| x as i64)
}

/// The shifts, widened.
pub open spec fn as_widths(v: Seq<u32>) -> Seq<usize> {
    v.map_values(|x: u32| x as usize)
}

/// The entries of a pooling matrix, row after row.
pub open spec fn pool_data(channels: int, in_h: int, in_w: int, pool_h: int, pool_w: int, stride: int) -> Seq<i64> {
    let rows = channels * windows(in_h, pool_h, stride) * windows(in_w, pool_w, stride);
    let cols = channels * in_h * in_w;
    Seq::new((rows * cols) as nat, |i: int| pool_entry(in_h, in_w, pool_h, pool_w, stride, i / cols, i % cols))
}

/// Whether preparing an op that validates stays within machine sizes: a `Conv2d` or `Pool`
/// matrix, and a per-channel rescale's length, must be representable.
pub open spec fn plan_sizes_fit(op: OpModel, slots: usize) -> bool {
    &&& slots + slots <= usize::MAX
    &&& validate_spec(op) is Ok ==> match op {
        OpModel::Conv2d { weights, in_h, in_w, in_channels, kernel_h, kernel_w, stride, padding, .. } => {
            let s = conv_shape(in_h, in_w, in_channels, kernel_h, kernel_w, stride, padding);
            &&& windows(in_h + 2 * padding, kernel_h as int, stride as int) <= usize::MAX
            &&& windows(in_w + 2 * padding, kernel_w as int, stride as int) <= usize::MAX
            &&& in_channels * in_h <= usize::MAX
            &&& weights.len() * windows(in_h + 2 * padding, kernel_h as int, stride as int) <= usize::MAX
            &&& conv_rows(s, weights.len() as int) <= usize::MAX
            &&& conv_cols(s) <= usize::MAX
            &&& conv_rows(s, weights.len() as int) * conv_cols(s) <= usize::MAX
        },
        OpModel::Pool { in_h, in_w, channels, pool_h, pool_w, stride, .. } => {
            let rows = channels * windows(in_h as int, pool_h as int, stride as int) * windows(
                in_w as int,
                pool_w as int,
                stride as int,
            );
            &&& windows(in_h as int, pool_h as int, stride as int) <= usize::MAX
            &&& windows(in_w as int, pool_w as int, stride as int) <= usize::MAX
            &&& rows <= usize::MAX
            &&& channels * in_h * in_w <= usize::MAX
            &&& channels * in_h <= usize::MAX
            &&& rows * (channels * in_h * in_w) <= usize::MAX
        },
        OpModel::Requant { mults, channel_size, .. } => mults.len() * (match channel_size {
            Some(c) => c as int,
            None => 1,
        }) <= usize::MAX,
        _ => true,
    }
}

/// Whether a plan is the matrix map of `kind` for this matrix.
pub open spec fn is_map_of(plan: OpPlan, kind: LinearKind, rows: int, cols: int, data: Seq<i64>, bias: Seq<i64>, slots: int) -> bool {
    plan matches OpPlan::LinearMap { kind: k, rows: r, cols: c, bias: b, diagonals: ds } && k == kind && r
        == rows && c == cols && b@ == bias && diagonal_views(ds@) == nonzero_diagonals(
        rows,
        cols,
        data,
        slots,
        slots,
    )
}

/// The outcome of preparing a matrix map: refused when the matrix does not fit
/// the slots.
pub open spec fn map_outcome(
    r: Result<OpPlan, String>,
    kind: LinearKind,
    rows: int,
    cols: int,
    data: Seq<i64>,
    bias: Seq<i64>,
    slots: int,
) -> bool {
    if rows > slots || cols > slots {
        r matches Err(e) && e@ == dimension_msg(rows as nat, cols as nat, slots as nat)
    } else {
        r matches Ok(p) && is_map_of(p, kind, rows, cols, data, bias, slots)
    }
}

/// Finishes a matrix map from its matrix.
fn finish_map(kind: LinearKind, m: crate::ckks::PlainMatrix, slots: usize) -> (r: Result<OpPlan, String>)
    requires
        m.data@.len() == m.rows * m.cols,
        slots + slots <= usize::MAX,
    ensures
        map_outcome(r, kind, m.rows as int, m.cols as int, m.data@, m.bias@, slots as int),
{
    match matrix_diagonals(&m, slots) {
        Ok(diagonals) => Ok(OpPlan::LinearMap { kind, rows: m.rows, cols: m.cols, bias: m.bias, diagonals }),
        Err(e) => Err(e),
    }
}

/// Rows of one width laid end to end hold that many entries.
proof fn lemma_flatten_len(rs: Seq<Seq<i64>>, w: nat)
    requires
        forall|i: int| 0 <= i < rs.len() ==> (#[trigger] rs[i]).len() == w,
    ensures
        flatten(rs).len() == rs.len() * w,
    decreases rs.len(),
{
    if rs.len() > 0 {
        let d = rs.drop_last();
        assert forall|i: int| 0 <= i < d.len() implies (#[trigger] d[i]).len() == w by {
            assert(d[i] == rs[i]);
        }
        lemma_flatten_len(d, w);
        assert(rs.last() == rs[rs.len() - 1]);
        assert(d.len() * w + w == rs.len() * w) by (nonlinear_arith)
            requires
                d.len() + 1 == rs.len(),
        ;
    }
}

/// Reinterprets unsigned values as signed.
fn to_signed(v: &Vec<u64>) -> (r: Vec<i64>)
    ensures
        r@ == as_signed(v@),
{
    let mut r: Vec<i64> = Vec::new();
    let mut i: usize = 0;
    while i < v.len()
        invariant
            i <= v@.len(),
            r@ == as_signed(v@.take(i as int)),
        decreases v@.len() - i,
    {
        r.push(#[verifier::truncate] (v[i] as i64));
        assert(r@ =~= as_signed(v@.take(i + 1)));
        i = i + 1;
    }
    assert(v@.take(v@.len() as int) =~= v@);
    r
}

/// Widens shifts.
fn to_widths(v: &Vec<u32>) -> (r: Vec<usize>)
    ensures
        r@ == as_widths(v@),
{
    let mut r: Vec<usize> = Vec::new();
    let mut i: usize = 0;
    while i < v.len()
        invariant
            i <= v@.len(),
            r@ == as_widths(v@.take(i as int)),
        decreases v@.len() - i,
    {
        r.push(v[i] as usize);
        assert(r@ =~= as_widths(v@.take(i + 1)));
        i = i + 1;
    }
    assert(v@.take(v@.len() as int) =~= v@);
    r
}

/// The deepest polynomial a fit may use.
fn fit_depth(log_budget: usize, log_delta: usize) -> (r: usize)
    ensures
        r == max_depth(log_budget, log_delta),
{
    let scale = if log_delta >= 1 {
        log_delta
    } else {
        1
    };
    let d = log_budget / scale;
    if d >= 1 {
        d
    } else {
        1
    }
}

/// The refusal, if any, with which preparing an op fails: the op's own
/// validation, a max pool, or a matrix that does not fit the slots.
pub open spec fn plan_error(op: OpModel, slots: usize) -> Option<Seq<char>> {
    match validate_spec(op) {
        Err(e) => Some(e),
        Ok(()) => match op {
            OpModel::Pool { mode, in_h, in_w, channels, pool_h, pool_w, stride } => if mode == "max"@ {
                Some(pool_max_msg())
            } else {
                let rows = channels * windows(in_h as int, pool_h as int, stride as int) * windows(
                    in_w as int,
                    pool_w as int,
                    stride as int,
                );
                let cols = channels * in_h * in_w;
                if rows > slots || cols > slots {
                    Some(dimension_msg(rows as nat, cols as nat, slots as nat))
                } else {
                    None
                }
            },
            OpModel::Linear { weights, .. } => if weights.len() > slots || weights[0].len() > slots {
                Some(dimension_msg(weights.len(), weights[0].len(), slots as nat))
            } else {
                None
            },
            OpModel::Conv2d { weights, in_h, in_w, in_channels, kernel_h, kernel_w, stride, padding, .. } => {
                let s = conv_shape(in_h, in_w, in_channels, kernel_h, kernel_w, stride, padding);
                let rows = conv_rows(s, weights.len() as int);
                let cols = conv_cols(s);
                if rows > slots || cols > slots {
                    Some(dimension_msg(rows as nat, cols as nat, slots as nat))
                } else {
                    None
                }
            },
            _ => None,
        },
    }
}

/// Prepare an op for the CKKS backend with `slots` slots per packed tensor, a
/// multiplicative budget of `log_budget` bits and a scale of `log_delta` bits:
/// validate it, refuse what this backend cannot run, and build what its
/// evaluation needs.
pub fn plan_op(spec: &OpSpec, slots: usize, log_budget: usize, log_delta: usize) -> (r: Result<OpPlan, String>)
    requires
        sizes_fit(spec@),
        plan_sizes_fit(spec@, slots),
    ensures
        match plan_error(spec@, slots) {
            Some(e) => r matches Err(m) && m@ == e,
            None => r is Ok,
        },
        validate_spec(spec@) matches Err(e) ==> (r matches Err(m) && m@ == e),
        validate_spec(spec@) is Ok ==> match spec@ {
            OpModel::Pool { mode, in_h, in_w, channels, pool_h, pool_w, stride } => if mode == "max"@ {
                r matches Err(m) && m@ == pool_max_msg()
            } else {
                map_outcome(
                    r,
                    LinearKind::PoolAvg { pool_h, pool_w },
                    channels * windows(in_h as int, pool_h as int, stride as int) * windows(in_w as int, pool_w as int, stride as int),
                    channels * in_h * in_w,
                    pool_data(channels as int, in_h as int, in_w as int, pool_h as int, pool_w as int, stride as int),
                    Seq::new(
                        (channels * windows(in_h as int, pool_h as int, stride as int) * windows(in_w as int, pool_w as int, stride as int)) as nat,
                        |_i: int| 0i64,
                    ),
                    slots as int,
                )
            },
            OpModel::Linear { weights, bias, weight_bits } => map_outcome(
                r,
                LinearKind::Linear { weight_bits },
                weights.len() as int,
                weights[0].len() as int,
                flatten(weights),
                bias,
                slots as int,
            ),
            OpModel::Conv2d { weights, bias, weight_bits, in_h, in_w, in_channels, kernel_h, kernel_w, stride, padding } => {
                let s = conv_shape(in_h, in_w, in_channels, kernel_h, kernel_w, stride, padding);
                let rows = conv_rows(s, weights.len() as int);
                let cols = conv_cols(s);
                let plane = windows(in_h + 2 * padding, kernel_h as int, stride as int) * windows(in_w + 2 * padding, kernel_w as int, stride as int);
                map_outcome(
                    r,
                    LinearKind::Conv2d { weight_bits, in_channels, kernel_h, kernel_w },
                    rows,
                    cols,
                    Seq::new((rows * cols) as nat, |i: int| conv_entry(s, weights, weights.len() as int, i / cols, i % cols)),
                    Seq::new(rows as nat, |i: int| bias[i / plane]),
                    slots as int,
                )
            },
            OpModel::Requant { shift, mult, round_bias, out_bits, mults, shifts, round_biases, channel_size, .. } => if mults.len() == 0 {
                r matches Ok(OpPlan::RequantPerTensor { mult: m, shift: sh, round_bias: rb, out_bits: ob, input_bits: ib, max_depth: md })
                    && m == mult as i64 && sh == shift as usize && rb == round_bias as i64 && ob == out_bits
                    && ib == requant_input_bits() && md == max_depth(log_budget, log_delta)
            } else {
                let cs: usize = match channel_size {
                    Some(c) => c,
                    None => 1,
                };
                r matches Ok(OpPlan::RequantPerChannel { mults: ms, shifts: ss, round_biases: rbs, channel_size: c, out_bits: ob, input_bits: ib, total_len: tl, max_depth: md })
                    && ms@ == as_signed(mults) && ss@ == as_widths(shifts) && rbs@ == as_signed(round_biases)
                    && c == cs && ob == out_bits && ib == requant_input_bits() && tl == mults.len() * cs
                    && md == max_depth(log_budget, log_delta)
            },
            OpModel::Activation { lut, output_bits } => r matches Ok(OpPlan::Activation { lut: l, output_bits: ob })
                && l@ == as_signed(lut) && ob == output_bits,
            OpModel::Argmax { threshold } => r matches Ok(OpPlan::Argmax { threshold: t, degree: d, max_depth: md })
                && t == threshold && d == 16 && md == max_depth(log_budget, log_delta),
            OpModel::Add => r matches Ok(OpPlan::Add),
        },
{
    match spec.validate() {
        Ok(()) => {},
        Err(e) => {
            return Err(e);
        },
    }
    match spec {
        OpSpec::Pool { mode, in_h, in_w, channels, pool_h, pool_w, stride } => {
            if str_eq(mode.as_str(), "max") {
                return Err(String::from_str(
                    "operator Pool(max) is unsupported on backend 'ckks': a homomorphic maximum needs a polynomial sign approximation whose depth exceeds this backend's level budget, and no committed model uses it. Use Pool(avg), or run this model on the 'tfhe' backend (see docs/SUPPORTED-OPS.md).",
                ));
            }
            let m = match avg_pool_matrix(*channels, *in_h, *in_w, *pool_h, *pool_w, *stride) {
                Ok(m) => m,
                Err(e) => {
                    return Err(e);
                },
            };
            let ghost data = pool_data(*channels as int, *in_h as int, *in_w as int, *pool_h as int, *pool_w as int, *stride as int);
            assert(m.data@ =~= data);
            finish_map(LinearKind::PoolAvg { pool_h: *pool_h, pool_w: *pool_w }, m, slots)
        },
        OpSpec::Linear { weights, bias, weight_bits } => {
            let m = linear_matrix(weights, bias);
            proof {
                let rs = rows(weights@);
                lemma_first_where(rs, row_len_ne(rs[0].len()));
                lemma_flatten_len(rs, rs[0].len());
            }
            finish_map(LinearKind::Linear { weight_bits: *weight_bits }, m, slots)
        },
        OpSpec::Conv2d { weights, bias, weight_bits, in_h, in_w, in_channels, kernel_h, kernel_w, stride, padding } => {
            proof {
                let rs = rows(weights@);
                let fan_in = (*in_channels * *kernel_h * *kernel_w) as nat;
                lemma_first_where(rs, row_len_ne(fan_in));
                assert forall|k: int| 0 <= k < weights@.len() && k < bias@.len() implies (#[trigger] weights@[k])@.len() >= *in_channels * *kernel_h * *kernel_w by {
                    assert(rs[k] == weights@[k]@);
                }
                let (c, h, w) = (*in_channels as int, *kernel_h as int, *kernel_w as int);
                assert(c * h <= c * h * w) by (nonlinear_arith)
                    requires w >= 1, c >= 0, h >= 0;
            }
            let m = match conv2d_matrix(weights, bias, *in_h, *in_w, *in_channels, *kernel_h, *kernel_w, *stride, *padding) {
                Ok(m) => m,
                Err(e) => {
                    return Err(e);
                },
            };
            let ghost s = conv_shape(*in_h, *in_w, *in_channels, *kernel_h, *kernel_w, *stride, *padding);
            let ghost plane = windows(*in_h + 2 * *padding, *kernel_h as int, *stride as int) * windows(*in_w + 2 * *padding, *kernel_w as int, *stride as int);
            assert(m.data@ =~= Seq::new((m.rows * m.cols) as nat, |i: int| conv_entry(s, rows(weights@), weights@.len() as int, i / (m.cols as int), i % (m.cols as int))));
            assert forall|i: int| 0 <= i < m.rows implies #[trigger] (i / plane) < weights@.len() by {
                assert(m.rows == weights@.len() * plane) by (nonlinear_arith)
                    requires
                        m.rows == weights@.len() * windows(*in_h + 2 * *padding, *kernel_h as int, *stride as int)
                            * windows(*in_w + 2 * *padding, *kernel_w as int, *stride as int),
                        plane == windows(*in_h + 2 * *padding, *kernel_h as int, *stride as int) * windows(
                            *in_w + 2 * *padding,
                            *kernel_w as int,
                            *stride as int,
                        ),
                ;
                assert(plane >= 1) by (nonlinear_arith)
                    requires
                        plane == windows(*in_h + 2 * *padding, *kernel_h as int, *stride as int) * windows(
                            *in_w + 2 * *padding,
                            *kernel_w as int,
                            *stride as int,
                        ),
                        windows(*in_h + 2 * *padding, *kernel_h as int, *stride as int) >= 1,
                        windows(*in_w + 2 * *padding, *kernel_w as int, *stride as int) >= 1,
                ;
                assert(i / plane < weights@.len()) by (nonlinear_arith)
                    requires
                        0 <= i < weights@.len() * plane,
                        plane >= 1,
                ;
            }
            assert(m.bias@ =~= Seq::new(m.rows as nat, |i: int| bias@[i / plane]));
            finish_map(
                LinearKind::Conv2d { weight_bits: *weight_bits, in_channels: *in_channels, kernel_h: *kernel_h, kernel_w: *kernel_w },
                m,
                slots,
            )
        },
        OpSpec::Requant { shift, mult, round_bias, out_bits, mults, shifts, round_biases, channel_size, .. } => {
            let depth = fit_depth(log_budget, log_delta);
            if mults.len() == 0 {
                Ok(OpPlan::RequantPerTensor {
                    mult: #[verifier::truncate] (*mult as i64),
                    shift: *shift as usize,
                    round_bias: #[verifier::truncate] (*round_bias as i64),
                    out_bits: *out_bits,
                    input_bits: 14,
                    max_depth: depth,
                })
            } else {
                let ch_size = match channel_size {
                    Some(c) => *c,
                    None => 1,
                };
                Ok(OpPlan::RequantPerChannel {
                    mults: to_signed(mults),
                    shifts: to_widths(shifts),
                    round_biases: to_signed(round_biases),
                    channel_size: ch_size,
                    out_bits: *out_bits,
                    input_bits: 14,
                    total_len: mults.len() * ch_size,
                    max_depth: depth,
                })
            }
        },
        OpSpec::Activation { lut, output_bits } => Ok(OpPlan::Activation { lut: to_signed(lut), output_bits: *output_bits }),
        OpSpec::Argmax { threshold } => Ok(OpPlan::Argmax { threshold: *threshold, degree: 16, max_depth: fit_depth(log_budget, log_delta) }),
        OpSpec::Add {  } => Ok(OpPlan::Add),
    }
}


/// The polynomial depth at a degree, read from a table of depths by degree (0
/// where the table stops).
pub open spec fn depth_at(depths: Seq<usize>, degree: int) -> int {
    if 0 <= degree < depths.len() {
        depths[degree] as int
    } else {
        0
    }
}

/// The multiplicative budget one op consumes, in bits: a level per matrix map,
/// the polynomial depth of each fit, an extra level for a per-channel mask.
pub open spec fn node_bits(op: OpModel, log_delta: int, max_poly_degree: int, depths: Seq<usize>) -> int {
    match op {
        OpModel::Linear { .. } => log_delta,
        OpModel::Conv2d { .. } => log_delta,
        OpModel::Pool { mode, .. } => if mode == "avg"@ {
            log_delta
        } else {
            0
        },
        OpModel::Requant { mults, .. } => (depth_at(depths, max_poly_degree) + if mults.len() == 0 {
            0int
        } else {
            1int
        }) * log_delta,
        OpModel::Activation { lut, .. } => depth_at(depths, if lut.len() >= 1 {
            lut.len() - 1
        } else {
            0
        }) * log_delta,
        OpModel::Argmax { .. } => depth_at(depths, 7) * log_delta,
        OpModel::Add => 0,
    }
}

/// The degree whose depth an op reads from the table, if any.
pub open spec fn degree_needed(op: OpModel, max_poly_degree: int) -> Option<int> {
    match op {
        OpModel::Requant { .. } => Some(max_poly_degree),
        OpModel::Activation { lut, .. } => Some(if lut.len() >= 1 {
            lut.len() - 1
        } else {
            0
        }),
        OpModel::Argmax { .. } => Some(7),
        _ => None,
    }
}

/// The refusal of a node that overruns the multiplicative budget.
pub open spec fn over_depth_msg(name: Seq<char>, op_type: Seq<char>, needed: nat, budget: nat, k: nat, log_delta: nat) -> Seq<char> {
    "depth/scale budget exceeded at node '"@ + name + "' ("@ + op_type + "): the graph needs "@
        + crate::text::dec(needed) + " bits of multiplicative budget by this node but the profile holds only "@
        + crate::text::dec(budget) + " (k="@ + crate::text::dec(k) + ", log_delta="@ + crate::text::dec(
        log_delta,
    ) + "). Reduce max_poly_degree, or widen the parameter profile."@
}

/// The outcome of the budget walk from node `i` on, with `acc` bits consumed so far.
pub open spec fn depth_walk(
    nodes: Seq<crate::ir::NodeModel>,
    i: nat,
    acc: int,
    slots: usize,
    k: usize,
    log_delta: usize,
    max_poly_degree: usize,
    depths: Seq<usize>,
) -> Result<(), Seq<char>>
    decreases nodes.len() - i,
{
    if i >= nodes.len() {
        Ok(())
    } else {
        let node = nodes[i as int];
        match plan_error(node.op, slots) {
            Some(e) => Err("node '"@ + node.name + "': "@ + e),
            None => {
                let budget = if k >= log_delta { k - log_delta } else { 0 };
                let next = acc + node_bits(node.op, log_delta as int, max_poly_degree as int, depths);
                if next > budget {
                    Err(over_depth_msg(node.name, crate::ir::op_type_name(node.op), next as nat, budget as nat, k as nat, log_delta as nat))
                } else {
                    depth_walk(nodes, i + 1, next, slots, k, log_delta, max_poly_degree, depths)
                }
            },
        }
    }
}

/// Whether the budget walk from node `i` on stays within machine sizes: every
/// op it prepares fits, the depth table covers every degree it reads, and the
/// consumed bits stay representable.
pub open spec fn depth_walk_defined(
    nodes: Seq<crate::ir::NodeModel>,
    i: nat,
    acc: int,
    slots: usize,
    k: usize,
    log_delta: usize,
    max_poly_degree: usize,
    depths: Seq<usize>,
) -> bool
    decreases nodes.len() - i,
{
    if i >= nodes.len() {
        true
    } else {
        let node = nodes[i as int];
        &&& sizes_fit(node.op)
        &&& plan_sizes_fit(node.op, slots)
        &&& (plan_error(node.op, slots) is None ==> {
            let budget = if k >= log_delta { k - log_delta } else { 0 };
            let next = acc + node_bits(node.op, log_delta as int, max_poly_degree as int, depths);
            &&& (degree_needed(node.op, max_poly_degree as int) matches Some(d) ==> 0 <= d < depths.len())
            &&& (node.op is Requant ==> depth_at(depths, max_poly_degree as int) < usize::MAX)
            &&& node_bits(node.op, log_delta as int, max_poly_degree as int, depths) <= usize::MAX
            &&& next <= usize::MAX
            &&& (next <= budget ==> depth_walk_defined(nodes, i + 1, next, slots, k, log_delta, max_poly_degree, depths))
        })
    }
}

/// The budget one op consumes, in bits.
fn node_budget_bits(op: &OpSpec, log_delta: usize, max_poly_degree: usize, depths: &Vec<usize>) -> (r: usize)
    requires
        degree_needed(op@, max_poly_degree as int) matches Some(d) ==> 0 <= d < depths@.len(),
        node_bits(op@, log_delta as int, max_poly_degree as int, depths@) <= usize::MAX,
        op@ is Requant ==> depth_at(depths@, max_poly_degree as int) < usize::MAX,
    ensures
        r == node_bits(op@, log_delta as int, max_poly_degree as int, depths@),
{
    match op {
        OpSpec::Linear { .. } => log_delta,
        OpSpec::Conv2d { .. } => log_delta,
        OpSpec::Pool { mode, .. } => if str_eq(mode.as_str(), "avg") {
            log_delta
        } else {
            0
        },
        OpSpec::Requant { mults, .. } => {
            let extra: usize = if mults.len() == 0 {
                0
            } else {
                1
            };
            let d = depths[max_poly_degree];
            let levels = d + extra;
            levels * log_delta
        },
        OpSpec::Activation { lut, .. } => {
            let degree = if lut.len() >= 1 {
                lut.len() - 1
            } else {
                0
            };
            depths[degree] * log_delta
        },
        OpSpec::Argmax { .. } => depths[7] * log_delta,
        OpSpec::Add {  } => 0,
    }
}

/// Check a graph against the CKKS multiplicative budget of `k - log_delta`
/// bits before any crypto runs: widths are propagated first, then each node is
/// prepared as the backend would (a refusal names the node) and its consumed
/// budget accumulated; the first node that overruns the budget is refused.
/// `depths[d]` is the depth of the baby-step giant-step evaluation of a degree-`d`
/// polynomial.
pub fn check_graph_depth_budget(
    graph: &crate::ir::Graph,
    k: usize,
    log_delta: usize,
    lt_slots: usize,
    max_poly_degree: usize,
    depths: &Vec<usize>,
) -> (r: Result<(), String>)
    requires
        crate::bitwidth::propagate_defined(graph@),
        depth_walk_defined(graph@.nodes, 0, 0, lt_slots, k, log_delta, max_poly_degree, depths@),
    ensures
        match crate::bitwidth::propagate_spec(graph@) {
            Err(e) => r matches Err(m) && m@ == e,
            Ok(_) => match depth_walk(graph@.nodes, 0, 0, lt_slots, k, log_delta, max_poly_degree, depths@) {
                Ok(()) => r is Ok,
                Err(e) => r matches Err(m) && m@ == e,
            },
        },
{
    match crate::bitwidth::propagate_bit_widths(graph) {
        Ok(_) => {},
        Err(e) => {
            return Err(e);
        },
    }
    let budget = if k >= log_delta {
        k - log_delta
    } else {
        0
    };
    let ghost nodes = graph@.nodes;
    let mut accumulated: usize = 0;
    let mut i: usize = 0;
    while i < graph.nodes.len()
        invariant
            i <= nodes.len(),
            nodes == graph@.nodes,
            budget == (if k >= log_delta { k - log_delta } else { 0 }),
            crate::bitwidth::propagate_spec(graph@) is Ok,
            accumulated <= budget,
            depth_walk(nodes, 0, 0, lt_slots, k, log_delta, max_poly_degree, depths@) == depth_walk(
                nodes,
                i as nat,
                accumulated as int,
                lt_slots,
                k,
                log_delta,
                max_poly_degree,
                depths@,
            ),
            depth_walk_defined(nodes, i as nat, accumulated as int, lt_slots, k, log_delta, max_poly_degree, depths@),
        decreases nodes.len() - i,
    {
        let node = &graph.nodes[i];
        assert(nodes[i as int] == node@);
        match plan_op(&node.op, lt_slots, budget, log_delta) {
            Ok(_) => {},
            Err(e) => {
                let m = cat(String::from_str("node '"), node.name.as_str());
                let m = cat(m, "': ");
                return Err(cat(m, e.as_str()));
            },
        }
        let bits = node_budget_bits(&node.op, log_delta, max_poly_degree, depths);
        accumulated = accumulated + bits;
        if accumulated > budget {
            let m = cat(String::from_str("depth/scale budget exceeded at node '"), node.name.as_str());
            let m = cat(m, "' (");
            let m = cat(m, node.op.op_type());
            let m = cat(m, "): the graph needs ");
            let m = cat(m, usize_text(accumulated).as_str());
            let m = cat(m, " bits of multiplicative budget by this node but the profile holds only ");
            let m = cat(m, usize_text(budget).as_str());
            let m = cat(m, " (k=");
            let m = cat(m, usize_text(k).as_str());
            let m = cat(m, ", log_delta=");
            let m = cat(m, usize_text(log_delta).as_str());
            let m = cat(m, "). Reduce max_poly_degree, or widen the parameter profile.");
            return Err(m);
        }
        i = i + 1;
    }
    Ok(())
}

} // verus!
