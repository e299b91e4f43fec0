//! The plaintext side of the CKKS backend: the integer matrices its linear maps
//! apply, the generalized diagonals a slot-packed matrix-vector product reads,
//! the rotation schedule its keys cover, and the wire envelopes it writes.

use vstd::arithmetic::div_mod::lemma_fundamental_div_mod_converse;
use vstd::prelude::*;

use crate::ir::cat;
use crate::text::usize_text;

verus! {

/// Scheme identifier of the CKKS backend.
pub const SCHEME_CKKS: &'static str = "ckks";

/// Envelope tagging CKKS ciphertext material with its backend scheme identifier.
pub struct TaggedCts<T> {
    pub scheme: String,
    pub payload: T,
}

/// Envelope tagging CKKS key material with its backend scheme identifier.
pub struct TaggedKey<K> {
    pub scheme: String,
    pub payload: K,
}

/// A serialized CKKS ciphertext: the layout needed to re-allocate the receiver,
/// the CKKS metadata, and the body bytes.
pub struct CkksCtBytes {
    pub n: u32,
    pub base2k: u32,
    pub k: u32,
    pub rank: u32,
    pub log_delta: u32,
    pub log_sparsity: u32,
    /// The slot kind as a stable string, "real" or "complex".
    pub slots_kind: String,
    pub len: u32,
    pub body: Vec<u8>,
}

/// The two-input addition op of the CKKS backend.
pub struct Add;

/// A plaintext linear map `y[i] = sum_j data[i * cols + j] * x[j] + bias[i]`,
/// in raw integer units.
#[derive(Debug, Clone)]
pub struct PlainMatrix {
    pub rows: usize,
    pub cols: usize,
    pub data: Vec<i64>,
    pub bias: Vec<i64>,
}

/// The rows of a weight matrix laid end to end.
pub open spec fn flatten(rows: Seq<Seq<i64>>) -> Seq<i64>
    decreases rows.len(),
{
    if rows.len() == 0 {
        seq![]
    } else {
        flatten(rows.drop_last()) + rows.last()
    }
}

/// The matrix of a `Linear` op: its weight rows laid end to end, as many rows as
/// weight rows, as many columns as the first row holds.
pub fn linear_matrix(weights: &Vec<Vec<i64>>, bias: &Vec<i64>) -> (m: PlainMatrix)
    ensures
        m.rows == weights@.len(),
        m.cols == (if weights@.len() > 0 {
            weights@[0]@.len()
        } else {
            0
        }),
        m.data@ == flatten(crate::ir::rows(weights@)),
        m.bias@ == bias@,
{
    let rows = weights.len();
    let cols = if rows > 0 {
        weights[0].len()
    } else {
        0
    };
    let mut data: Vec<i64> = Vec::new();
    let mut i: usize = 0;
    while i < weights.len()
        invariant
            i <= weights@.len(),
            data@ == flatten(crate::ir::rows(weights@.take(i as int))),
        decreases weights@.len() - i,
    {
        let row = &weights[i];
        let ghost before = data@;
        let mut j: usize = 0;
        while j < row.len()
            invariant
                j <= row@.len(),
                data@ == before + row@.take(j as int),
            decreases row@.len() - j,
        {
            data.push(row[j]);
            assert(row@.take(j + 1) =~= row@.take(j as int).push(row@[j as int]));
            assert(data@ =~= before + row@.take(j + 1));
            j = j + 1;
        }
        assert(row@.take(row@.len() as int) =~= row@);
        assert(crate::ir::rows(weights@.take(i + 1)).drop_last() =~= crate::ir::rows(weights@.take(i as int)));
        assert(crate::ir::rows(weights@.take(i + 1)).last() == row@);
        i = i + 1;
    }
    assert(weights@.take(weights@.len() as int) =~= weights@);
    let mut b: Vec<i64> = Vec::new();
    let mut k: usize = 0;
    while k < bias.len()
        invariant
            k <= bias@.len(),
            b@ == bias@.take(k as int),
        decreases bias@.len() - k,
    {
        b.push(bias[k]);
        assert(bias@.take(k + 1) =~= bias@.take(k as int).push(bias@[k as int]));
        k = k + 1;
    }
    assert(bias@.take(bias@.len() as int) =~= bias@);
    PlainMatrix { rows, cols, data, bias: b }
}

/// The number of window positions along one axis.
pub open spec fn windows(extent: int, window: int, stride: int) -> int {
    (extent - window) / stride + 1
}

/// The entry of an average-pooling matrix at output row `r` and input column
/// `c`: 1 when the input pixel lies in the output pixel's window of the same
/// channel, 0 otherwise.
pub open spec fn pool_entry(
    in_h: int,
    in_w: int,
    pool_h: int,
    pool_w: int,
    stride: int,
    r: int,
    c: int,
) -> i64 {
    let out_h = windows(in_h, pool_h, stride);
    let out_w = windows(in_w, pool_w, stride);
    let ch_out = r / (out_h * out_w);
    let oy = (r % (out_h * out_w)) / out_w;
    let ox = r % out_w;
    let ch_in = c / (in_h * in_w);
    let y = (c % (in_h * in_w)) / in_w;
    let x = c % in_w;
    if ch_out == ch_in && oy * stride <= y < oy * stride + pool_h && ox * stride <= x < ox * stride
        + pool_w {
        1
    } else {
        0
    }
}

/// Products of bounded factors stay bounded.
proof fn lemma_mul_le(a: int, b: int, x: int, y: int)
    by (nonlinear_arith)
    requires
        0 <= a <= x,
        0 <= b <= y,
    ensures
        a * b <= x * y,
{
}

/// The last window of an axis ends inside the extent.
proof fn lemma_last_window(extent: int, window: int, stride: int, o: int)
    requires
        0 <= window <= extent,
        stride >= 1,
        0 <= o < windows(extent, window, stride),
    ensures
        o * stride + window <= extent,
{
    let q = (extent - window) / stride;
    assert(q * stride <= extent - window) by (nonlinear_arith)
        requires
            q == (extent - window) / stride,
            stride >= 1,
            extent - window >= 0,
    ;
    lemma_mul_le(o, stride, q, stride);
}

/// The average-pooling matrix over `channels` planes of `in_h` by `in_w`
/// pixels: output pixel `(ch, oy, ox)` sums the `pool_h` by `pool_w` window at
/// `(oy * stride, ox * stride)` of plane `ch`; the bias is zero.
pub fn avg_pool_matrix(
    channels: usize,
    in_h: usize,
    in_w: usize,
    pool_h: usize,
    pool_w: usize,
    stride: usize,
) -> (r: Result<PlainMatrix, String>)
    requires
        stride >= 1,
        pool_h <= in_h,
        pool_w <= in_w,
        windows(in_h as int, pool_h as int, stride as int) <= usize::MAX,
        windows(in_w as int, pool_w as int, stride as int) <= usize::MAX,
        channels * windows(in_h as int, pool_h as int, stride as int) * windows(
            in_w as int,
            pool_w as int,
            stride as int,
        ) * (channels * in_h * in_w) <= usize::MAX,
        channels * windows(in_h as int, pool_h as int, stride as int) * windows(
            in_w as int,
            pool_w as int,
            stride as int,
        ) <= usize::MAX,
        channels * in_h * in_w <= usize::MAX,
        channels * in_h <= usize::MAX,
    ensures
        r matches Ok(m) && {
            &&& m.rows == channels * windows(in_h as int, pool_h as int, stride as int) * windows(
                in_w as int,
                pool_w as int,
                stride as int,
            )
            &&& m.cols == channels * in_h * in_w
            &&& m.data@.len() == m.rows * m.cols
            &&& forall|i: int|
                0 <= i < m.data@.len() ==> #[trigger] m.data@[i] == pool_entry(
                    in_h as int,
                    in_w as int,
                    pool_h as int,
                    pool_w as int,
                    stride as int,
                    i / (m.cols as int),
                    i % (m.cols as int),
                )
            &&& m.bias@ == Seq::new(m.rows as nat, |_i: int| 0i64)
        },
{
    let out_h = (in_h - pool_h) / stride + 1;
    let out_w = (in_w - pool_w) / stride + 1;
    proof {
        assert(channels * out_h <= channels * out_h * out_w) by (nonlinear_arith)
            requires
                out_w >= 1,
        ;
        assert(channels * in_h <= channels * in_h * in_w || in_w == 0) by (nonlinear_arith)
            requires
                in_w >= 0,
        ;
        assert(out_h * out_w <= channels * out_h * out_w || channels == 0) by (nonlinear_arith)
            requires
                channels >= 0,
        ;
        assert(in_h * in_w <= channels * in_h * in_w || channels == 0) by (nonlinear_arith)
            requires
                channels >= 0,
        ;
    }
    let rows = channels * out_h * out_w;
    let cols = channels * in_h * in_w;
    assert(rows > 0 ==> channels >= 1 && out_h * out_w >= 1) by (nonlinear_arith)
        requires
            rows == channels * out_h * out_w,
            out_h >= 1,
            out_w >= 1,
    ;
    assert(cols > 0 ==> in_h * in_w >= 1) by (nonlinear_arith)
        requires
            cols == channels * in_h * in_w,
    ;
    let mut data: Vec<i64> = Vec::new();
    let mut bias: Vec<i64> = Vec::new();
    let mut r: usize = 0;
    while r < rows
        invariant
            r <= rows,
            rows == channels * out_h * out_w,
            cols == channels * in_h * in_w,
            rows * cols <= usize::MAX,
            out_h == windows(in_h as int, pool_h as int, stride as int),
            out_w == windows(in_w as int, pool_w as int, stride as int),
            out_h >= 1,
            out_w >= 1,
            stride >= 1,
            pool_h <= in_h,
            pool_w <= in_w,
            channels >= 1 ==> out_h * out_w <= rows,
            channels >= 1 ==> in_h * in_w <= cols,
            rows > 0 ==> channels >= 1 && out_h * out_w >= 1,
            cols > 0 ==> in_h * in_w >= 1,
            data@.len() == r * cols,
            bias@ == Seq::new(r as nat, |_i: int| 0i64),
            forall|i: int|
                0 <= i < data@.len() ==> #[trigger] data@[i] == pool_entry(
                    in_h as int,
                    in_w as int,
                    pool_h as int,
                    pool_w as int,
                    stride as int,
                    i / (cols as int),
                    i % (cols as int),
                ),
        decreases rows - r,
    {
        assert(channels >= 1);
        let plane_out = out_h * out_w;
        let ch_out = r / plane_out;
        let oy = (r % plane_out) / out_w;
        let ox = r % out_w;
        proof {
            assert(oy < out_h) by {
                assert((r % plane_out) < out_h * out_w);
                assert((r % plane_out) / out_w < out_h) by (nonlinear_arith)
                    requires
                        (r % plane_out) < out_h * out_w,
                        out_w >= 1,
                        r % plane_out >= 0,
                ;
            }
            lemma_last_window(in_h as int, pool_h as int, stride as int, oy as int);
            lemma_last_window(in_w as int, pool_w as int, stride as int, ox as int);
            lemma_mul_le((r + 1) as int, cols as int, rows as int, cols as int);
        }
        let y0 = oy * stride;
        let x0 = ox * stride;
        let ghost row_start = data@.len();
        let mut c: usize = 0;
        while c < cols
            invariant
                c <= cols,
                r < rows,
                (r + 1) * cols <= usize::MAX,
                cols == channels * in_h * in_w,
                channels >= 1 ==> in_h * in_w <= cols,
                channels >= 1,
                cols > 0 ==> in_h * in_w >= 1,
                row_start == r * cols,
                data@.len() == row_start + c,
                y0 + pool_h <= in_h,
                x0 + pool_w <= in_w,
                y0 == oy * stride,
                x0 == ox * stride,
                ch_out as int == (r as int) / (out_h as int * out_w as int),
                oy as int == ((r as int) % (out_h as int * out_w as int)) / (out_w as int),
                ox as int == (r as int) % (out_w as int),
                out_h == windows(in_h as int, pool_h as int, stride as int),
                out_w == windows(in_w as int, pool_w as int, stride as int),
                forall|i: int|
                    0 <= i < data@.len() ==> #[trigger] data@[i] == pool_entry(
                        in_h as int,
                        in_w as int,
                        pool_h as int,
                        pool_w as int,
                        stride as int,
                        i / (cols as int),
                        i % (cols as int),
                    ),
            decreases cols - c,
        {
            let plane_in = in_h * in_w;
            let ch_in = c / plane_in;
            let y = (c % plane_in) / in_w;
            let x = c % in_w;
            let v: i64 = if ch_out == ch_in && y0 <= y && y < y0 + pool_h && x0 <= x && x < x0
                + pool_w {
                1
            } else {
                0
            };
            proof {
                lemma_fundamental_div_mod_converse(
                    (r * cols + c) as int,
                    cols as int,
                    r as int,
                    c as int,
                );
                assert((r * cols + c) as int == r as int * cols as int + c as int);
            }
            assert(v == pool_entry(
                in_h as int,
                in_w as int,
                pool_h as int,
                pool_w as int,
                stride as int,
                r as int,
                c as int,
            ));
            data.push(v);
            c = c + 1;
        }
        bias.push(0);
        assert(bias@ =~= Seq::new((r + 1) as nat, |_i: int| 0i64));
        assert(data@.len() == (r + 1) * cols) by (nonlinear_arith)
            requires
                data@.len() == r * cols + cols,
        ;
        r = r + 1;
    }
    Ok(PlainMatrix { rows, cols, data, bias })
}

/// The generalized diagonal `d` of a matrix with `slots` slots: slot `i` holds
/// the entry at row `i` and column `(i + d) mod slots`, or 0 where that row or
/// column is outside the matrix.
pub open spec fn diagonal(rows: int, cols: int, data: Seq<i64>, slots: int, d: int) -> Seq<i64> {
    Seq::new(
        slots as nat,
        |i: int|
            if i < rows && (i + d) % slots < cols {
                data[i * cols + (i + d) % slots]
            } else {
                0i64
            },
    )
}

/// The rotation offsets the fixed baby-step giant-step schedule can ask for:
/// the baby steps `1 .. giant_step` and the giant steps `giant_step * j` for
/// `j` in `1 .. lt_slots / giant_step`. Rotation 0 is the identity and needs no
/// key.
pub open spec fn rotation_schedule(giant_step: int, lt_slots: int) -> Seq<i64> {
    Seq::new((if giant_step >= 1 { giant_step - 1 } else { 0 }) as nat, |i: int| (i + 1) as i64) + Seq::new(
        (if lt_slots / giant_step >= 1 { lt_slots / giant_step - 1 } else { 0 }) as nat,
        |j: int| ((j + 1) * giant_step) as i64,
    )
}

/// Every slot rotation the fixed baby-step giant-step schedule can ask for, at
/// any diagonal pattern.
pub fn schedule_rotations(giant_step: usize, lt_slots: usize) -> (r: Vec<i64>)
    requires
        giant_step >= 1,
        giant_step <= i64::MAX,
        lt_slots <= i64::MAX,
    ensures
        r@ == rotation_schedule(giant_step as int, lt_slots as int),
{
    let mut r: Vec<i64> = Vec::new();
    let mut b: usize = 1;
    while b < giant_step
        invariant
            1 <= b <= giant_step,
            giant_step <= i64::MAX,
            r@ == Seq::new((b - 1) as nat, |i: int| (i + 1) as i64),
        decreases giant_step - b,
    {
        r.push(b as i64);
        assert(r@ =~= Seq::new(b as nat, |i: int| (i + 1) as i64));
        b = b + 1;
    }
    let ghost baby = r@;
    let giants = lt_slots / giant_step;
    let mut j: usize = 1;
    while j < giants
        invariant
            giants == lt_slots / giant_step,
            1 <= j,
            j <= giants || (giants == 0 && j == 1),
            giant_step >= 1,
            lt_slots <= i64::MAX,
            r@ == baby + Seq::new((j - 1) as nat, |k: int| ((k + 1) * giant_step) as i64),
            baby == Seq::new((giant_step - 1) as nat, |i: int| (i + 1) as i64),
        decreases giants - j,
    {
        assert(j * giant_step <= lt_slots) by (nonlinear_arith)
            requires
                j < lt_slots / giant_step,
                giant_step >= 1,
        ;
        r.push((j * giant_step) as i64);
        assert(r@ =~= baby + Seq::new(j as nat, |k: int| ((k + 1) * giant_step) as i64));
        j = j + 1;
    }
    let ghost giant = Seq::new((j - 1) as nat, |k: int| ((k + 1) * giant_step) as i64);
    assert((j - 1) == (if lt_slots / giant_step >= 1 { lt_slots / giant_step - 1 } else { 0 }));
    assert(giant =~= Seq::new(
        (if lt_slots as int / giant_step as int >= 1 { lt_slots as int / giant_step as int - 1 } else { 0 }) as nat,
        |k: int| ((k + 1) * giant_step as int) as i64,
    ));
    assert(baby =~= Seq::new(
        (if giant_step as int >= 1 { giant_step as int - 1 } else { 0 }) as nat,
        |i: int| (i + 1) as i64,
    ));
    assert(r@ =~= rotation_schedule(giant_step as int, lt_slots as int));
    r
}


/// The geometry of a convolution: input planes, kernel, stride and padding.
pub struct ConvShape {
    pub in_h: int,
    pub in_w: int,
    pub in_channels: int,
    pub kernel_h: int,
    pub kernel_w: int,
    pub stride: int,
    pub padding: int,
}

/// The output rows of a convolution with `out_channels` kernels.
pub open spec fn conv_rows(s: ConvShape, out_channels: int) -> int {
    out_channels * windows(s.in_h + 2 * s.padding, s.kernel_h, s.stride) * windows(
        s.in_w + 2 * s.padding,
        s.kernel_w,
        s.stride,
    )
}

/// The input columns of a convolution.
pub open spec fn conv_cols(s: ConvShape) -> int {
    s.in_channels * s.in_h * s.in_w
}

/// The entry of a convolution matrix at output row `r` and input column `c`:
/// the kernel weight that lands input pixel `(ic, iy, ix)` on output pixel
/// `(oc, oy, ox)`, or 0 where the pixel is outside the kernel's footprint or
/// the output channel has no bias.
pub open spec fn conv_entry(s: ConvShape, weights: Seq<Seq<i64>>, live: int, r: int, c: int) -> i64 {
    let out_h = windows(s.in_h + 2 * s.padding, s.kernel_h, s.stride);
    let out_w = windows(s.in_w + 2 * s.padding, s.kernel_w, s.stride);
    let oc = r / (out_h * out_w);
    let oy = (r % (out_h * out_w)) / out_w;
    let ox = r % out_w;
    let ic = c / (s.in_h * s.in_w);
    let iy = (c % (s.in_h * s.in_w)) / s.in_w;
    let ix = c % s.in_w;
    let ky = iy + s.padding - oy * s.stride;
    let kx = ix + s.padding - ox * s.stride;
    if oc < live && 0 <= ky < s.kernel_h && 0 <= kx < s.kernel_w {
        weights[oc][(ic * s.kernel_h + ky) * s.kernel_w + kx]
    } else {
        0
    }
}

/// The shape of the arguments of `conv2d_matrix`.
pub open spec fn conv_shape(
    in_h: usize,
    in_w: usize,
    in_channels: usize,
    kernel_h: usize,
    kernel_w: usize,
    stride: usize,
    padding: usize,
) -> ConvShape {
    ConvShape {
        in_h: in_h as int,
        in_w: in_w as int,
        in_channels: in_channels as int,
        kernel_h: kernel_h as int,
        kernel_w: kernel_w as int,
        stride: stride as int,
        padding: padding as int,
    }
}

/// A kernel index stays inside the fan-in.
proof fn lemma_kernel_index(ic: int, ky: int, kx: int, in_channels: int, kernel_h: int, kernel_w: int)
    by (nonlinear_arith)
    requires
        0 <= ic < in_channels,
        0 <= ky < kernel_h,
        0 <= kx < kernel_w,
    ensures
        0 <= (ic * kernel_h + ky) * kernel_w + kx < in_channels * kernel_h * kernel_w,
        ic * kernel_h + ky < in_channels * kernel_h,
        ic * kernel_h <= in_channels * kernel_h,
{
}

/// A quotient by a product stays below the other factor.
proof fn lemma_div_below(a: int, b: int, n: int)
    by (nonlinear_arith)
    requires
        0 <= a < n * b,
        b >= 1,
    ensures
        a / b < n,
{
}

/// The entry of a convolution matrix computed from the output and input pixel.
fn conv_entry_at(
    weights: &Vec<Vec<i64>>,
    live: usize,
    oc: usize,
    oy: usize,
    ox: usize,
    ic: usize,
    iy: usize,
    ix: usize,
    kernel_h: usize,
    kernel_w: usize,
    stride: usize,
    padding: usize,
    in_channels: usize,
    in_h: usize,
    in_w: usize,
) -> (v: i64)
    requires
        live <= weights@.len(),
        ic < in_channels,
        iy < in_h,
        ix < in_w,
        oy * stride + kernel_h <= in_h + 2 * padding,
        ox * stride + kernel_w <= in_w + 2 * padding,
        in_h + 2 * padding <= usize::MAX,
        in_w + 2 * padding <= usize::MAX,
        in_channels * kernel_h * kernel_w <= usize::MAX,
        in_channels * kernel_h <= usize::MAX,
        forall|k: int| 0 <= k < live ==> (#[trigger] weights@[k])@.len() >= in_channels * kernel_h * kernel_w,
    ensures
        v == ({
            let ky = iy + padding - oy * stride;
            let kx = ix + padding - ox * stride;
            if oc < live && 0 <= ky < kernel_h && 0 <= kx < kernel_w {
                weights@[oc as int]@[(ic * kernel_h + ky) * kernel_w + kx]
            } else {
                0i64
            }
        }),
{
    if oc >= live {
        return 0;
    }
    let y0 = oy * stride;
    let x0 = ox * stride;
    if iy + padding < y0 || ix + padding < x0 {
        return 0;
    }
    let ky = iy + padding - y0;
    let kx = ix + padding - x0;
    if ky >= kernel_h || kx >= kernel_w {
        return 0;
    }
    proof { lemma_kernel_index(ic as int, ky as int, kx as int, in_channels as int, kernel_h as int, kernel_w as int); }
    weights[oc][(ic * kernel_h + ky) * kernel_w + kx]
}

/// The matrix of a `Conv2d` op over `in_channels` planes of `in_h` by `in_w`
/// pixels: output pixel `(oc, oy, ox)` sums kernel `oc` over the window at
/// `(oy * stride - padding, ox * stride - padding)`, padded pixels counting as
/// zero; row `(oc, oy, ox)` carries bias `bias[oc]`. Kernels beyond the last
/// bias contribute nothing.
pub fn conv2d_matrix(
    weights: &Vec<Vec<i64>>,
    bias: &Vec<i64>,
    in_h: usize,
    in_w: usize,
    in_channels: usize,
    kernel_h: usize,
    kernel_w: usize,
    stride: usize,
    padding: usize,
) -> (r: Result<PlainMatrix, String>)
    requires
        stride >= 1,
        in_h + 2 * padding <= usize::MAX,
        in_w + 2 * padding <= usize::MAX,
        windows(in_h + 2 * padding, kernel_h as int, stride as int) <= usize::MAX,
        windows(in_w + 2 * padding, kernel_w as int, stride as int) <= usize::MAX,
        kernel_h <= in_h + 2 * padding,
        kernel_w <= in_w + 2 * padding,
        in_channels * kernel_h <= usize::MAX,
        in_channels * kernel_h * kernel_w <= usize::MAX,
        in_channels * in_h <= usize::MAX,
        weights@.len() * windows(in_h + 2 * padding, kernel_h as int, stride as int) <= usize::MAX,
        conv_rows(conv_shape(in_h, in_w, in_channels, kernel_h, kernel_w, stride, padding), weights@.len() as int) <= usize::MAX,
        conv_cols(conv_shape(in_h, in_w, in_channels, kernel_h, kernel_w, stride, padding)) <= usize::MAX,
        conv_rows(conv_shape(in_h, in_w, in_channels, kernel_h, kernel_w, stride, padding), weights@.len() as int)
            * conv_cols(conv_shape(in_h, in_w, in_channels, kernel_h, kernel_w, stride, padding)) <= usize::MAX,
        forall|k: int|
            0 <= k < weights@.len() && k < bias@.len() ==> (#[trigger] weights@[k])@.len() >= in_channels
                * kernel_h * kernel_w,
    ensures
        r matches Ok(m) && {
            let s = conv_shape(in_h, in_w, in_channels, kernel_h, kernel_w, stride, padding);
            let live = if weights@.len() <= bias@.len() {
                weights@.len() as int
            } else {
                bias@.len() as int
            };
            let plane = windows(in_h + 2 * padding, kernel_h as int, stride as int) * windows(
                in_w + 2 * padding,
                kernel_w as int,
                stride as int,
            );
            &&& m.rows == conv_rows(s, weights@.len() as int)
            &&& m.cols == conv_cols(s)
            &&& m.data@.len() == m.rows * m.cols
            &&& forall|i: int|
                0 <= i < m.data@.len() ==> #[trigger] m.data@[i] == conv_entry(
                    s,
                    crate::ir::rows(weights@),
                    live,
                    i / (m.cols as int),
                    i % (m.cols as int),
                )
            &&& m.bias@.len() == m.rows
            &&& forall|i: int|
                0 <= i < m.rows ==> #[trigger] m.bias@[i] == if i / plane < live {
                    bias@[i / plane]
                } else {
                    0i64
                }
        },
{
    let ghost s = conv_shape(in_h, in_w, in_channels, kernel_h, kernel_w, stride, padding);
    let out_channels = weights.len();
    let live = if weights.len() <= bias.len() {
        weights.len()
    } else {
        bias.len()
    };
    let out_h = (in_h + 2 * padding - kernel_h) / stride + 1;
    let out_w = (in_w + 2 * padding - kernel_w) / stride + 1;
    assert(out_channels * out_h <= out_channels * out_h * out_w) by (nonlinear_arith)
        requires
            out_w >= 1,
    ;
    assert(in_channels * in_h <= in_channels * in_h * in_w || in_w == 0) by (nonlinear_arith);
    let rows = out_channels * out_h * out_w;
    let cols = in_channels * in_h * in_w;
    assert(rows > 0 ==> out_channels >= 1 && out_h * out_w >= 1) by (nonlinear_arith)
        requires
            rows == out_channels * out_h * out_w,
            out_h >= 1,
            out_w >= 1,
    ;
    assert(cols > 0 ==> in_h * in_w >= 1 && in_channels >= 1) by (nonlinear_arith)
        requires
            cols == in_channels * in_h * in_w,
    ;
    assert(rows > 0 ==> out_h * out_w <= rows) by (nonlinear_arith)
        requires
            rows == out_channels * out_h * out_w,
    ;
    assert(cols > 0 ==> in_h * in_w <= cols) by (nonlinear_arith)
        requires
            cols == in_channels * in_h * in_w,
    ;
    let ghost plane = out_h * out_w;
    let mut data: Vec<i64> = Vec::new();
    let mut bias_out: Vec<i64> = Vec::new();
    let mut r: usize = 0;
    while r < rows
        invariant
            r <= rows,
            rows == conv_rows(s, weights@.len() as int),
            cols == conv_cols(s),
            s == conv_shape(in_h, in_w, in_channels, kernel_h, kernel_w, stride, padding),
            rows == out_channels * out_h * out_w,
            out_channels == weights@.len(),
            cols == in_channels * in_h * in_w,
            rows * cols <= usize::MAX,
            live == (if weights@.len() <= bias@.len() { weights@.len() } else { bias@.len() }),
            out_h == windows(in_h + 2 * padding, kernel_h as int, stride as int),
            out_w == windows(in_w + 2 * padding, kernel_w as int, stride as int),
            plane == out_h * out_w,
            out_h >= 1,
            out_w >= 1,
            stride >= 1,
            kernel_h <= in_h + 2 * padding,
            kernel_w <= in_w + 2 * padding,
            in_h + 2 * padding <= usize::MAX,
            in_w + 2 * padding <= usize::MAX,
            in_channels * kernel_h <= usize::MAX,
            in_channels * kernel_h * kernel_w <= usize::MAX,
            forall|k: int|
                0 <= k < weights@.len() && k < bias@.len() ==> (#[trigger] weights@[k])@.len() >= in_channels
                    * kernel_h * kernel_w,
            rows > 0 ==> out_channels >= 1 && out_h * out_w >= 1 && out_h * out_w <= rows,
            cols > 0 ==> in_h * in_w >= 1 && in_channels >= 1 && in_h * in_w <= cols,
            data@.len() == r * cols,
            bias_out@.len() == r,
            forall|i: int|
                0 <= i < r ==> #[trigger] bias_out@[i] == if i / plane < live {
                    bias@[i / plane]
                } else {
                    0i64
                },
            forall|i: int|
                0 <= i < data@.len() ==> #[trigger] data@[i] == conv_entry(
                    s,
                    crate::ir::rows(weights@),
                    live as int,
                    i / (cols as int),
                    i % (cols as int),
                ),
        decreases rows - r,
    {
        let plane_out = out_h * out_w;
        let oc = r / plane_out;
        let oy = (r % plane_out) / out_w;
        let ox = r % out_w;
        proof {
            lemma_div_below((r % plane_out) as int, out_w as int, out_h as int);
            lemma_last_window((in_h + 2 * padding) as int, kernel_h as int, stride as int, oy as int);
            lemma_last_window((in_w + 2 * padding) as int, kernel_w as int, stride as int, ox as int);
            lemma_mul_le((r + 1) as int, cols as int, rows as int, cols as int);
        }
        let b = if oc < live {
            bias[oc]
        } else {
            0
        };
        bias_out.push(b);
        let ghost row_start = data@.len();
        let mut c: usize = 0;
        while c < cols
            invariant
                c <= cols,
                r < rows,
                (r + 1) * cols <= usize::MAX,
                cols == conv_cols(s),
                cols == in_channels * in_h * in_w,
                s == conv_shape(in_h, in_w, in_channels, kernel_h, kernel_w, stride, padding),
                cols > 0 ==> in_h * in_w >= 1 && in_channels >= 1 && in_h * in_w <= cols,
                live <= weights@.len(),
                live == (if weights@.len() <= bias@.len() { weights@.len() } else { bias@.len() }),
                row_start == r * cols,
                data@.len() == row_start + c,
                oy * stride + kernel_h <= in_h + 2 * padding,
                ox * stride + kernel_w <= in_w + 2 * padding,
                in_h + 2 * padding <= usize::MAX,
                in_w + 2 * padding <= usize::MAX,
                in_channels * kernel_h <= usize::MAX,
                in_channels * kernel_h * kernel_w <= usize::MAX,
                forall|k: int|
                    0 <= k < weights@.len() && k < bias@.len() ==> (#[trigger] weights@[k])@.len()
                        >= in_channels * kernel_h * kernel_w,
                oc as int == (r as int) / (out_h as int * out_w as int),
                oy as int == ((r as int) % (out_h as int * out_w as int)) / (out_w as int),
                ox as int == (r as int) % (out_w as int),
                out_h == windows(in_h + 2 * padding, kernel_h as int, stride as int),
                out_w == windows(in_w + 2 * padding, kernel_w as int, stride as int),
                forall|i: int|
                    0 <= i < data@.len() ==> #[trigger] data@[i] == conv_entry(
                        s,
                        crate::ir::rows(weights@),
                        live as int,
                        i / (cols as int),
                        i % (cols as int),
                    ),
            decreases cols - c,
        {
            let plane_in = in_h * in_w;
            let ic = c / plane_in;
            let iy = (c % plane_in) / in_w;
            let ix = c % in_w;
            proof {
                assert(in_channels * in_h * in_w == in_channels * (in_h * in_w)) by (nonlinear_arith);
                lemma_div_below(c as int, plane_in as int, in_channels as int);
                lemma_div_below((c % plane_in) as int, in_w as int, in_h as int);
            }
            let v = conv_entry_at(
                weights,
                live,
                oc,
                oy,
                ox,
                ic,
                iy,
                ix,
                kernel_h,
                kernel_w,
                stride,
                padding,
                in_channels,
                in_h,
                in_w,
            );
            proof {
                lemma_fundamental_div_mod_converse(
                    (r * cols + c) as int,
                    cols as int,
                    r as int,
                    c as int,
                );
                assert((r * cols + c) as int == r as int * cols as int + c as int);
                if oc < live {
                    assert(crate::ir::rows(weights@)[oc as int] == weights@[oc as int]@);
                }
            }
            assert(v == conv_entry(s, crate::ir::rows(weights@), live as int, r as int, c as int));
            data.push(v);
            c = c + 1;
        }
        assert(data@.len() == (r + 1) * cols) by (nonlinear_arith)
            requires
                data@.len() == r * cols + cols,
        ;
        r = r + 1;
    }
    Ok(PlainMatrix { rows, cols, data, bias: bias_out })
}


/// Whether some slot of a diagonal is nonzero.
pub open spec fn has_nonzero(v: Seq<i64>) -> bool {
    exists|i: int| 0 <= i < v.len() && v[i] != 0
}

/// The nonzero generalized diagonals among `0 .. upto`, with their offsets, in
/// increasing offset order.
pub open spec fn nonzero_diagonals(rows: int, cols: int, data: Seq<i64>, slots: int, upto: int) -> Seq<(usize, Seq<i64>)>
    decreases upto,
{
    if upto <= 0 {
        seq![]
    } else {
        let prev = nonzero_diagonals(rows, cols, data, slots, upto - 1);
        let v = diagonal(rows, cols, data, slots, upto - 1);
        if has_nonzero(v) {
            prev.push(((upto - 1) as usize, v))
        } else {
            prev
        }
    }
}

/// The refusal of a matrix that does not fit the slots.
pub open spec fn dimension_msg(rows: nat, cols: nat, slots: nat) -> Seq<char> {
    "matrix dimension ("@ + crate::text::dec(rows) + ", "@ + crate::text::dec(cols)
        + ") exceeds backend lt_slots "@ + crate::text::dec(slots)
}

/// The diagonals of `m` with their values, as the offsets and slot vectors.
pub open spec fn diagonal_views(ds: Seq<(usize, Vec<i64>)>) -> Seq<(usize, Seq<i64>)> {
    ds.map_values(|p: (usize, Vec<i64>)| (p.0, p.1@))
}

/// One generalized diagonal of a matrix, and whether it has a nonzero slot.
fn diagonal_at(m: &PlainMatrix, slots: usize, d: usize) -> (r: (Vec<i64>, bool))
    requires
        m.data@.len() == m.rows * m.cols,
        m.rows <= slots,
        m.cols <= slots,
        d < slots,
        slots + slots <= usize::MAX,
    ensures
        r.0@ == diagonal(m.rows as int, m.cols as int, m.data@, slots as int, d as int),
        r.1 == has_nonzero(r.0@),
{
    let n = m.data.len();
    let mut v: Vec<i64> = Vec::new();
    let mut nonzero = false;
    let mut i: usize = 0;
    while i < slots
        invariant
            i <= slots,
            n == m.data@.len(),
            d < slots,
            slots + slots <= usize::MAX,
            m.data@.len() == m.rows * m.cols,
            v@ == diagonal(m.rows as int, m.cols as int, m.data@, slots as int, d as int).take(i as int),
            nonzero == (exists|j: int| 0 <= j < i && v@[j] != 0),
        decreases slots - i,
    {
        let col = (i + d) % slots;
        let val: i64 = if i < m.rows && col < m.cols {
            assert(i * m.cols + col < m.rows * m.cols) by (nonlinear_arith)
                requires
                    i < m.rows,
                    col < m.cols,
            ;
            assert(i * m.cols <= i * m.cols + col);
            m.data[i * m.cols + col]
        } else {
            0
        };
        let ghost before = v@;
        v.push(val);
        assert(v@ =~= diagonal(m.rows as int, m.cols as int, m.data@, slots as int, d as int).take(i + 1));
        if val != 0 {
            nonzero = true;
            assert(v@[i as int] != 0);
        } else {
            assert forall|j: int| 0 <= j < i + 1 && v@[j] != 0 implies 0 <= j < i && before[j] != 0 by {
                assert(v@[j] == if j < i { before[j] } else { val });
            }
        }
        i = i + 1;
    }
    assert(diagonal(m.rows as int, m.cols as int, m.data@, slots as int, d as int).take(slots as int) =~= diagonal(m.rows as int, m.cols as int, m.data@, slots as int, d as int));
    (v, nonzero)
}

/// The nonzero generalized diagonals of a matrix packed into `slots` slots, in
/// increasing offset order; a matrix wider or taller than the slots is refused.
pub fn matrix_diagonals(m: &PlainMatrix, slots: usize) -> (r: Result<Vec<(usize, Vec<i64>)>, String>)
    requires
        m.data@.len() == m.rows * m.cols,
        slots + slots <= usize::MAX,
    ensures
        (m.rows > slots || m.cols > slots) ==> (r matches Err(e) && e@ == dimension_msg(
            m.rows as nat,
            m.cols as nat,
            slots as nat,
        )),
        (m.rows <= slots && m.cols <= slots) ==> (r matches Ok(ds) && diagonal_views(ds@)
            == nonzero_diagonals(m.rows as int, m.cols as int, m.data@, slots as int, slots as int)),
{
    if m.rows > slots || m.cols > slots {
        let e = cat(String::from_str("matrix dimension ("), usize_text(m.rows).as_str());
        let e = cat(e, ", ");
        let e = cat(e, usize_text(m.cols).as_str());
        let e = cat(e, ") exceeds backend lt_slots ");
        let e = cat(e, usize_text(slots).as_str());
        return Err(e);
    }
    let mut ds: Vec<(usize, Vec<i64>)> = Vec::new();
    let mut d: usize = 0;
    while d < slots
        invariant
            d <= slots,
            m.rows <= slots,
            m.cols <= slots,
            slots + slots <= usize::MAX,
            m.data@.len() == m.rows * m.cols,
            diagonal_views(ds@) == nonzero_diagonals(m.rows as int, m.cols as int, m.data@, slots as int, d as int),
        decreases slots - d,
    {
        let (v, nonzero) = diagonal_at(m, slots, d);
        if nonzero {
            ds.push((d, v));
        }
        assert(diagonal_views(ds@) =~= nonzero_diagonals(m.rows as int, m.cols as int, m.data@, slots as int, d + 1));
        d = d + 1;
    }
    Ok(ds)
}


/// Every listed diagonal is the diagonal at its offset, below `upto`, with a
/// nonzero slot; offsets rise strictly; and every diagonal below `upto` with a
/// nonzero slot is listed.
proof fn lemma_nonzero_diagonals_list(rows: int, cols: int, data: Seq<i64>, slots: int, upto: int)
    requires
        0 <= upto <= usize::MAX + 1,
    ensures
        forall|k: int|
            0 <= k < nonzero_diagonals(rows, cols, data, slots, upto).len() ==> {
                let e = #[trigger] nonzero_diagonals(rows, cols, data, slots, upto)[k];
                &&& (e.0 as int) < upto
                &&& e.1 == diagonal(rows, cols, data, slots, e.0 as int)
                &&& has_nonzero(e.1)
            },
        forall|k1: int, k2: int|
            0 <= k1 < k2 < nonzero_diagonals(rows, cols, data, slots, upto).len() ==> (#[trigger] nonzero_diagonals(rows, cols, data, slots, upto)[k1]).0
                < (#[trigger] nonzero_diagonals(rows, cols, data, slots, upto)[k2]).0,
        forall|d: int|
            0 <= d < upto && #[trigger] has_nonzero(diagonal(rows, cols, data, slots, d)) ==> exists|k: int|
                0 <= k < nonzero_diagonals(rows, cols, data, slots, upto).len()
                    && #[trigger] nonzero_diagonals(rows, cols, data, slots, upto)[k].0 == d,
    decreases upto,
{
    if upto > 0 {
        lemma_nonzero_diagonals_list(rows, cols, data, slots, upto - 1);
        let prev = nonzero_diagonals(rows, cols, data, slots, upto - 1);
        let cur = nonzero_diagonals(rows, cols, data, slots, upto);
        let v = diagonal(rows, cols, data, slots, upto - 1);
        assert(((upto - 1) as usize) as int == upto - 1);
        assert forall|d: int|
            0 <= d < upto && #[trigger] has_nonzero(diagonal(rows, cols, data, slots, d)) implies exists|k: int|
                0 <= k < cur.len() && #[trigger] cur[k].0 == d by {
            if d < upto - 1 {
                let k = choose|k: int| 0 <= k < prev.len() && #[trigger] prev[k].0 == d;
                assert(cur[k] == prev[k]);
            } else {
                assert(cur[prev.len() as int].0 == d);
            }
        }
        assert forall|k: int| 0 <= k < cur.len() implies {
            let e = #[trigger] cur[k];
            &&& (e.0 as int) < upto
            &&& e.1 == diagonal(rows, cols, data, slots, e.0 as int)
            &&& has_nonzero(e.1)
        } by {
            if k < prev.len() {
                assert(cur[k] == prev[k]);
            }
        }
        assert forall|k1: int, k2: int| 0 <= k1 < k2 < cur.len() implies (#[trigger] cur[k1]).0 < (#[trigger] cur[k2]).0 by {
            if k2 < prev.len() {
                assert(cur[k1] == prev[k1] && cur[k2] == prev[k2]);
            } else {
                assert(cur[k1] == prev[k1]);
            }
        }
    }
}

/// Where an entry at row `i` lands on the diagonal at offset `d`: the column
/// `(i + d) mod slots` is the one whose offset from `i`, modulo `slots`, is `d`.
proof fn lemma_diagonal_column(i: int, d: int, slots: int)
    requires
        0 <= i < slots,
        0 <= d < slots,
    ensures
        0 <= (i + d) % slots < slots,
        ((i + d) % slots - i) % slots == d,
{
    if i + d < slots {
        vstd::arithmetic::div_mod::lemma_small_mod((i + d) as nat, slots as nat);
        vstd::arithmetic::div_mod::lemma_small_mod(d as nat, slots as nat);
    } else {
        lemma_fundamental_div_mod_converse(i + d, slots, 1, i + d - slots);
        lemma_fundamental_div_mod_converse(d - slots, slots, -1, d);
    }
}

/// The offset of the diagonal that holds entry `(r, c)`: `(c - r) mod slots`,
/// and row `r` of that diagonal reads column `c`.
proof fn lemma_entry_offset(r: int, c: int, slots: int)
    requires
        0 <= r < slots,
        0 <= c < slots,
    ensures
        0 <= (c - r) % slots < slots,
        (r + (c - r) % slots) % slots == c,
{
    if c >= r {
        vstd::arithmetic::div_mod::lemma_small_mod((c - r) as nat, slots as nat);
        vstd::arithmetic::div_mod::lemma_small_mod(c as nat, slots as nat);
    } else {
        lemma_fundamental_div_mod_converse(c - r, slots, -1, c - r + slots);
        lemma_fundamental_div_mod_converse(c + slots, slots, 1, c);
    }
}

/// The entry at row `r` and column `c` of a row-major matrix with `cols` columns.
pub open spec fn matrix_entry(data: Seq<i64>, cols: int, r: int, c: int) -> i64 {
    data[r * cols + c]
}

/// The nonzero diagonals of a matrix packed into `slots` slots reconstruct it.
/// They come at distinct offsets below `slots`, in rising order, each with one
/// value per slot and some slot nonzero. Every nonzero entry `(r, c)` appears, in slot `r` of the
/// diagonal at offset `(c - r) mod slots`. And every nonzero slot `i` of a
/// diagonal at offset `d` holds the entry of row `i` at the column `c` with
/// `(c - i) mod slots == d`. So the product of the matrix with a vector `x`
/// is, at row `i`, the sum over the diagonals `(d, v)` of `v[i] * x[(i + d) mod slots]`.
pub proof fn lemma_diagonals_reconstruct(rows: int, cols: int, data: Seq<i64>, slots: int)
    requires
        data.len() == rows * cols,
        0 <= rows <= slots,
        0 <= cols <= slots,
        0 < slots <= usize::MAX,
    ensures
        forall|k: int|
            0 <= k < nonzero_diagonals(rows, cols, data, slots, slots).len() ==> {
                &&& (#[trigger] nonzero_diagonals(rows, cols, data, slots, slots)[k]).0 < slots
                &&& nonzero_diagonals(rows, cols, data, slots, slots)[k].1.len() == slots
                &&& exists|i: int| 0 <= i < slots && nonzero_diagonals(rows, cols, data, slots, slots)[k].1[i] != 0
            },
        forall|k1: int, k2: int|
            0 <= k1 < k2 < nonzero_diagonals(rows, cols, data, slots, slots).len() ==> (#[trigger] nonzero_diagonals(rows, cols, data, slots, slots)[k1]).0
                < (#[trigger] nonzero_diagonals(rows, cols, data, slots, slots)[k2]).0,
        forall|r: int, c: int|
            0 <= r < rows && 0 <= c < cols && #[trigger] matrix_entry(data, cols, r, c) != 0 ==> exists|k: int|
                0 <= k < nonzero_diagonals(rows, cols, data, slots, slots).len()
                    && #[trigger] nonzero_diagonals(rows, cols, data, slots, slots)[k].0 == (c - r) % slots
                    && nonzero_diagonals(rows, cols, data, slots, slots)[k].1[r] == matrix_entry(data, cols, r, c),
        forall|k: int, i: int|
            0 <= k < nonzero_diagonals(rows, cols, data, slots, slots).len() && 0 <= i < slots
                && (#[trigger] nonzero_diagonals(rows, cols, data, slots, slots)[k].1[i]) != 0 ==> i < rows
                && exists|c: int|
                0 <= c < cols && (c - i) % slots == nonzero_diagonals(rows, cols, data, slots, slots)[k].0
                    && #[trigger] matrix_entry(data, cols, i, c) == nonzero_diagonals(rows, cols, data, slots, slots)[k].1[i],
{
    lemma_nonzero_diagonals_list(rows, cols, data, slots, slots);
    let ds = nonzero_diagonals(rows, cols, data, slots, slots);
    assert forall|r: int, c: int|
        0 <= r < rows && 0 <= c < cols && #[trigger] matrix_entry(data, cols, r, c) != 0 implies exists|k: int|
            0 <= k < ds.len() && #[trigger] ds[k].0 == (c - r) % slots && ds[k].1[r] == matrix_entry(data, cols, r, c) by {
        lemma_entry_offset(r, c, slots);
        let d = (c - r) % slots;
        let v = diagonal(rows, cols, data, slots, d);
        assert(v[r] == data[r * cols + c]);
        assert(has_nonzero(v));
        let k = choose|k: int| 0 <= k < ds.len() && #[trigger] ds[k].0 == d;
        assert(ds[k].1 == v);
    }
    assert forall|k: int, i: int|
        0 <= k < ds.len() && 0 <= i < slots && (#[trigger] ds[k].1[i]) != 0 implies i < rows && exists|c: int|
            0 <= c < cols && (c - i) % slots == ds[k].0 && #[trigger] matrix_entry(data, cols, i, c) == ds[k].1[i] by {
        let d = ds[k].0 as int;
        lemma_diagonal_column(i, d, slots);
        let c = (i + d) % slots;
        assert(ds[k].1[i] == diagonal(rows, cols, data, slots, d)[i]);
        assert(c < cols);
        assert(matrix_entry(data, cols, i, c) == ds[k].1[i]);
    }
}


/// A matrix laid out row after row holds each weight row's entries in order:
/// entry `(r, c)` of the flattened rows is `rows[r][c]`, when every row has
/// `cols` entries.
pub proof fn lemma_flatten_entries(rows: Seq<Seq<i64>>, cols: int)
    requires
        cols >= 0,
        forall|r: int| 0 <= r < rows.len() ==> (#[trigger] rows[r]).len() == cols,
    ensures
        flatten(rows).len() == rows.len() * cols,
        forall|r: int, c: int|
            0 <= r < rows.len() && 0 <= c < cols ==> #[trigger] matrix_entry(flatten(rows), cols, r, c)
                == rows[r][c],
    decreases rows.len(),
{
    if rows.len() > 0 {
        let prev = rows.drop_last();
        lemma_flatten_entries(prev, cols);
        let n = prev.len();
        assert(rows.len() * cols == n * cols + cols) by (nonlinear_arith)
            requires
                rows.len() == n + 1,
        ;
        assert forall|r: int, c: int| 0 <= r < rows.len() && 0 <= c < cols implies #[trigger] matrix_entry(
            flatten(rows),
            cols,
            r,
            c,
        ) == rows[r][c] by {
            if r < n {
                assert((r + 1) * cols <= n * cols) by (nonlinear_arith)
                    requires
                        0 <= r < n,
                        cols >= 0,
                ;
                assert((r + 1) * cols == r * cols + cols) by (nonlinear_arith);
                assert(0 <= r * cols) by (nonlinear_arith)
                    requires
                        r >= 0,
                        cols >= 0,
                ;
                assert(matrix_entry(flatten(prev), cols, r, c) == prev[r][c]);
            } else {
                assert(r * cols == n * cols);
            }
        }
    }
}


/// A row-major index over three axes splits back into its coordinates.
proof fn lemma_index3(a: int, b: int, nb: int, c: int, nc: int)
    requires
        a >= 0,
        0 <= b < nb,
        0 <= c < nc,
    ensures
        ((a * nb + b) * nc + c) / (nb * nc) == a,
        (((a * nb + b) * nc + c) % (nb * nc)) / nc == b,
        ((a * nb + b) * nc + c) % nc == c,
{
    let i = (a * nb + b) * nc + c;
    assert((a * nb + b) * nc + c == a * (nb * nc) + (b * nc + c)) by (nonlinear_arith);
    assert(0 <= b * nc + c < nb * nc) by (nonlinear_arith)
        requires
            0 <= b < nb,
            0 <= c < nc,
    ;
    lemma_fundamental_div_mod_converse(i, nb * nc, a, b * nc + c);
    lemma_fundamental_div_mod_converse(b * nc + c, nc, b, c);
    assert(i == (a * nb + b) * nc + c);
    lemma_fundamental_div_mod_converse(i, nc, a * nb + b, c);
}

/// What a convolution matrix computes: the row of output pixel `(oc, oy, ox)`
/// takes input pixel `(ic, iy, ix)` with the kernel weight at `(ic, ky, kx)`,
/// where `(ky, kx)` is the pixel's place in the window that starts at
/// `(oy * stride - padding, ox * stride - padding)`; pixels outside the window,
/// and output channels without a bias, get 0.
pub proof fn lemma_conv_entry_is_the_kernel_weight(
    s: ConvShape,
    weights: Seq<Seq<i64>>,
    live: int,
    oc: int,
    oy: int,
    ox: int,
    ic: int,
    iy: int,
    ix: int,
)
    requires
        s.in_h >= 1,
        s.in_w >= 1,
        s.kernel_h >= 1,
        s.kernel_w >= 1,
        s.stride >= 1,
        s.padding >= 0,
        oc >= 0,
        0 <= oy < windows(s.in_h + 2 * s.padding, s.kernel_h, s.stride),
        0 <= ox < windows(s.in_w + 2 * s.padding, s.kernel_w, s.stride),
        0 <= ic,
        0 <= iy < s.in_h,
        0 <= ix < s.in_w,
    ensures
        ({
            let out_h = windows(s.in_h + 2 * s.padding, s.kernel_h, s.stride);
            let out_w = windows(s.in_w + 2 * s.padding, s.kernel_w, s.stride);
            let ky = iy + s.padding - oy * s.stride;
            let kx = ix + s.padding - ox * s.stride;
            conv_entry(s, weights, live, (oc * out_h + oy) * out_w + ox, (ic * s.in_h + iy) * s.in_w + ix)
                == if oc < live && 0 <= ky < s.kernel_h && 0 <= kx < s.kernel_w {
                weights[oc][(ic * s.kernel_h + ky) * s.kernel_w + kx]
            } else {
                0
            }
        }),
{
    let out_h = windows(s.in_h + 2 * s.padding, s.kernel_h, s.stride);
    let out_w = windows(s.in_w + 2 * s.padding, s.kernel_w, s.stride);
    lemma_index3(oc, oy, out_h, ox, out_w);
    lemma_index3(ic, iy, s.in_h, ix, s.in_w);
}

/// What an average-pooling matrix computes: the row of output pixel
/// `(ch, oy, ox)` takes input pixel `(ch2, y, x)` with weight 1 exactly when it
/// is the same channel and the pixel lies in the window at
/// `(oy * stride, ox * stride)`, and 0 otherwise.
pub proof fn lemma_pool_entry_is_the_window(
    in_h: int,
    in_w: int,
    pool_h: int,
    pool_w: int,
    stride: int,
    ch: int,
    oy: int,
    ox: int,
    ch2: int,
    y: int,
    x: int,
)
    requires
        in_h >= 1,
        in_w >= 1,
        1 <= pool_h <= in_h,
        1 <= pool_w <= in_w,
        stride >= 1,
        ch >= 0,
        ch2 >= 0,
        0 <= oy < windows(in_h, pool_h, stride),
        0 <= ox < windows(in_w, pool_w, stride),
        0 <= y < in_h,
        0 <= x < in_w,
    ensures
        pool_entry(
            in_h,
            in_w,
            pool_h,
            pool_w,
            stride,
            (ch * windows(in_h, pool_h, stride) + oy) * windows(in_w, pool_w, stride) + ox,
            (ch2 * in_h + y) * in_w + x,
        ) == if ch == ch2 && oy * stride <= y < oy * stride + pool_h && ox * stride <= x < ox * stride + pool_w {
            1i64
        } else {
            0i64
        },
{
    lemma_index3(ch, oy, windows(in_h, pool_h, stride), ox, windows(in_w, pool_w, stride));
    lemma_index3(ch2, y, in_h, x, in_w);
}

} // verus!
