//! Convolutions, forward and transposed, in one and two dimensions.
//!
//! All four share one scheme: [`unfold`] lays out, for each output position, the
//! inputs that contribute to it as one row of a matrix, one matrix product combines
//! them with the kernel, and the bias is added while the rows are moved to planes.
use vstd::prelude::*;
use crate::arith;
use crate::arith::Arith;
use crate::arith::Gemm;
use crate::index;
use crate::model::Bias;
use crate::model::Conv1dWeight;
use crate::model::Conv2dWeight;

verus! {

/// How the positions of one axis of the output relate to those of the input.
#[derive(Clone, Copy, Debug, PartialEq, Eq)]
pub struct Axis {
    /// Extent of the input.
    pub n_in: usize,
    /// Extent of the output.
    pub n_out: usize,
    /// Number of kernel taps.
    pub k: usize,
    pub stride: usize,
    pub pad: usize,
    pub dilation: usize,
    /// Whether this is an axis of a transposed convolution.
    pub transposed: bool,
}

/// Extent of the output of a forward convolution.
pub open spec fn forward_extent(n_in: int, pad: int, k: int, stride: int, dilation: int) -> int {
    (n_in + 2 * pad - dilation * (k - 1) - 1) / stride + 1
}

/// Extent of the output of a transposed convolution.
pub open spec fn transposed_extent(n_in: int, pad: int, k: int, stride: int) -> int {
    (n_in - 1) * stride + (k - 1) - 2 * pad + 1
}

/// A forward convolution is defined along this axis.
pub open spec fn forward_ok(n_in: int, pad: int, k: int, stride: int, dilation: int) -> bool {
    &&& k >= 1
    &&& stride >= 1
    &&& dilation * (k - 1) + 1 <= n_in + 2 * pad <= usize::MAX
}

/// A transposed convolution is defined along this axis.
pub open spec fn transposed_ok(n_in: int, pad: int, k: int, stride: int) -> bool {
    &&& n_in >= 1
    &&& k >= 1
    &&& stride >= 1
    &&& 2 * pad <= (n_in - 1) * stride + (k - 1)
    &&& (n_in - 1) * stride + k <= usize::MAX
}

/// The axis is that of a convolution which is defined.
pub open spec fn axis_ok(ax: Axis) -> bool {
    if ax.transposed {
        &&& transposed_ok(ax.n_in as int, ax.pad as int, ax.k as int, ax.stride as int)
        &&& ax.n_out == transposed_extent(
            ax.n_in as int,
            ax.pad as int,
            ax.k as int,
            ax.stride as int,
        )
    } else {
        &&& forward_ok(
            ax.n_in as int,
            ax.pad as int,
            ax.k as int,
            ax.stride as int,
            ax.dilation as int,
        )
        &&& ax.n_out == forward_extent(
            ax.n_in as int,
            ax.pad as int,
            ax.k as int,
            ax.stride as int,
            ax.dilation as int,
        )
    }
}

/// The input position that contributes to output position `o` through tap `d`, or `-1`
/// where none does.
///
/// A forward convolution reads position `o * stride + d * dilation - pad`. A transposed
/// one reads the position `i` with `i * stride + d - pad == o`.
pub open spec fn tap(ax: Axis, o: int, d: int) -> int {
    if ax.transposed {
        let s = o + ax.pad - d;
        if s >= 0 && s % (ax.stride as int) == 0 && s / (ax.stride as int) < ax.n_in {
            s / (ax.stride as int)
        } else {
            -1
        }
    } else {
        let s = o * ax.stride + d * ax.dilation - ax.pad;
        if 0 <= s < ax.n_in {
            s
        } else {
            -1
        }
    }
}

/// What the input `x` of `c` channels contributes to output position `(oh, ow)` of batch
/// entry `bi` through channel `ci` and tap `(dh, dw)`; `z` outside the input.
pub open spec fn patch_value<T>(
    x: Seq<T>,
    c: int,
    ah: Axis,
    aw: Axis,
    z: T,
    bi: int,
    oh: int,
    ow: int,
    ci: int,
    dh: int,
    dw: int,
) -> T {
    if tap(ah, oh, dh) >= 0 && tap(aw, ow, dw) >= 0 {
        x[index::pos4(
            bi,
            ci,
            tap(ah, oh, dh),
            tap(aw, ow, dw),
            c,
            ah.n_in as int,
            aw.n_in as int,
        )]
    } else {
        z
    }
}

/// The matrix with one row for each output position `(bi, oh, ow)` and one column for
/// each `(ci, dh, dw)`.
pub open spec fn unfolded<T>(x: Seq<T>, b: int, c: int, ah: Axis, aw: Axis, z: T) -> Seq<T> {
    let patch = c * ah.k * aw.k;
    Seq::new(
        (b * ah.n_out * aw.n_out * patch) as nat,
        |p: int|
            patch_value(
                x,
                c,
                ah,
                aw,
                z,
                p / patch / aw.n_out as int / ah.n_out as int,
                p / patch / aw.n_out as int % ah.n_out as int,
                p / patch % aw.n_out as int,
                p % patch / aw.k as int / ah.k as int,
                p % patch / aw.k as int % ah.k as int,
                p % patch % aw.k as int,
            ),
    )
}

/// The matrix product of a convolution. The kernel is stored one row per output channel,
/// or, where `by_input` holds, one column per output channel.
pub open spec fn conv_gemm(rows: int, c_out: int, patch: int, by_input: bool) -> Gemm {
    Gemm {
        m: rows as usize,
        n: c_out as usize,
        k: patch as usize,
        lhs_cs: 1,
        lhs_rs: patch as usize,
        rhs_cs: if by_input { 1 } else { patch as usize },
        rhs_rs: if by_input { c_out as usize } else { 1 },
    }
}

/// `r` may be entry `(i, j)` of the product `p` with `bias` added to it.
pub open spec fn is_biased_entry<A: Arith>(
    a: &A,
    p: A::Product,
    i: int,
    j: int,
    bias: A::T,
    r: A::T,
) -> bool {
    exists|e: A::T| #[trigger] arith::is_entry(a, p, i, j, e) && arith::is_sum(a, e, bias, r)
}

/// `out` is the product `p`, with the bias of each column added, its rows `(b, pos)` and
/// columns `c` laid out as `[b, c, pos]`.
pub open spec fn is_biased_planes<A: Arith>(
    a: &A,
    p: A::Product,
    b: int,
    c: int,
    area: int,
    bias: Seq<A::T>,
    out: Seq<A::T>,
) -> bool {
    &&& out.len() == b * c * area
    &&& forall|i: int|
        0 <= i < out.len() ==> is_biased_entry(
            a,
            p,
            index::pos2(i / area / c, i % area, area),
            i / area % c,
            bias[i / area % c],
            #[trigger] out[i],
        )
}

/// `out`, of shape `[b, c_out, ah.n_out, aw.n_out]`, is the convolution of `x`, of shape
/// `[b, c_in, ah.n_in, aw.n_in]`, with the kernel `wt`, plus `bias`.
pub open spec fn is_conv<A: Arith>(
    a: &A,
    x: Seq<A::T>,
    b: int,
    c_in: int,
    ah: Axis,
    aw: Axis,
    c_out: int,
    wt: Seq<A::T>,
    by_input: bool,
    bias: Seq<A::T>,
    out: Seq<A::T>,
) -> bool {
    exists|z: A::T, one: A::T, p: A::Product|
        {
            &&& #[trigger] arith::is_zero(a, z)
            &&& #[trigger] arith::is_ratio(a, 1, 1, one)
            &&& #[trigger] arith::is_gemm(
                a,
                conv_gemm(b * ah.n_out * aw.n_out, c_out, c_in * ah.k * aw.k, by_input),
                unfolded(x, b, c_in, ah, aw, z),
                wt,
                one,
                p,
            )
            &&& is_biased_planes(a, p, b, c_out, ah.n_out * aw.n_out, bias, out)
        }
}

/// The operands of a convolution have the elements that it reads, and the matrices that
/// it builds have sizes that fit in `usize`.
pub open spec fn conv_fits(
    x_len: int,
    b: int,
    c_in: int,
    ah: Axis,
    aw: Axis,
    c_out: int,
    wt_len: int,
    bias_len: int,
) -> bool {
    let rows = b * ah.n_out * aw.n_out;
    let patch = c_in * ah.k * aw.k;
    &&& b * c_in * ah.n_in * aw.n_in <= x_len
    &&& patch * c_out <= wt_len
    &&& c_out <= bias_len
    &&& rows <= usize::MAX
    &&& patch <= usize::MAX
    &&& rows * patch <= usize::MAX
    &&& rows * c_out <= usize::MAX
}

/// The extent of the output is at least one and fits.
pub proof fn lemma_forward_extent(n_in: int, pad: int, k: int, stride: int, dilation: int)
    requires
        forward_ok(n_in, pad, k, stride, dilation),
        0 <= dilation,
    ensures
        1 <= forward_extent(n_in, pad, k, stride, dilation) <= n_in + 2 * pad,
{
    let room = n_in + 2 * pad - dilation * (k - 1) - 1;
    index::lemma_extent(dilation, k - 1);
    assert(0 <= room / stride <= room) by (nonlinear_arith)
        requires
            room >= 0,
            stride >= 1,
    ;
}

/// A tap reads inside the input, and the arithmetic that finds its position fits.
proof fn lemma_tap(ax: Axis, o: int, d: int)
    requires
        axis_ok(ax),
        0 <= o < ax.n_out,
        0 <= d < ax.k,
    ensures
        -1 <= tap(ax, o, d) < ax.n_in,
        ax.transposed ==> o + ax.pad <= usize::MAX,
        !ax.transposed ==> 0 <= o * ax.stride && 0 <= d * ax.dilation && o * ax.stride + d
            * ax.dilation <= usize::MAX,
{
    if ax.transposed {
        let s = o + ax.pad - d;
        if s >= 0 {
            assert(0 <= s / ax.stride as int) by (nonlinear_arith)
                requires
                    s >= 0,
                    ax.stride >= 1,
            ;
        }
    } else {
        let room = ax.n_in + 2 * ax.pad - ax.dilation * (ax.k - 1) - 1;
        let stride = ax.stride as int;
        assert(o * stride <= room) by (nonlinear_arith)
            requires
                0 <= o <= room / stride,
                stride >= 1,
                room >= 0,
        ;
        assert(d * ax.dilation <= ax.dilation * (ax.k - 1)) by (nonlinear_arith)
            requires
                0 <= d <= ax.k - 1,
                0 <= ax.dilation,
        ;
        assert(0 <= o * stride && 0 <= d * ax.dilation) by (nonlinear_arith)
            requires
                0 <= o,
                0 <= d,
                stride >= 1,
                0 <= ax.dilation,
        ;
    }
}

/// The axis has at least one output position.
proof fn lemma_axis_nonempty(ax: Axis)
    requires
        axis_ok(ax),
    ensures
        ax.n_out >= 1,
        ax.k >= 1,
{
    if !ax.transposed {
        let room = ax.n_in + 2 * ax.pad - ax.dilation * (ax.k - 1) - 1;
        let stride = ax.stride as int;
        assert(room / stride >= 0) by (nonlinear_arith)
            requires
                room >= 0,
                stride >= 1,
        ;
    }
}

/// Finds the input position that contributes through one tap.
fn source(ax: Axis, o: usize, d: usize) -> (r: Option<usize>)
    requires
        axis_ok(ax),
        o < ax.n_out,
        d < ax.k,
    ensures
        match r {
            Some(s) => s == tap(ax, o as int, d as int),
            None => tap(ax, o as int, d as int) == -1,
        },
{
    proof {
        lemma_tap(ax, o as int, d as int);
    }
    if ax.transposed {
        let s: usize = o + ax.pad;
        if s < d {
            return None;
        }
        let t: usize = s - d;
        if t % ax.stride != 0 {
            return None;
        }
        let i: usize = t / ax.stride;
        if i < ax.n_in {
            Some(i)
        } else {
            None
        }
    } else {
        let s: usize = o * ax.stride + d * ax.dilation;
        if s < ax.pad {
            return None;
        }
        let i: usize = s - ax.pad;
        if i < ax.n_in {
            Some(i)
        } else {
            None
        }
    }
}

/// Lays out the inputs of each output position as one row of a matrix.
pub fn unfold<T: Copy>(x: &[T], b: usize, c: usize, ah: Axis, aw: Axis, z: T) -> (r: Vec<T>)
    requires
        axis_ok(ah),
        axis_ok(aw),
        b * c * ah.n_in * aw.n_in <= x@.len(),
        b * ah.n_out * aw.n_out <= usize::MAX,
        c * ah.k * aw.k <= usize::MAX,
        b * ah.n_out * aw.n_out * (c * ah.k * aw.k) <= usize::MAX,
    ensures
        r@ == unfolded(x@, b as int, c as int, ah, aw, z),
{
    let len_in: usize = x.len();
    let mut out: Vec<T> = Vec::new();
    proof {
        lemma_axis_nonempty(ah);
        lemma_axis_nonempty(aw);
        index::lemma_extent(b as int, ah.n_out as int);
        index::lemma_extent(c as int, ah.k as int);
        index::lemma_partial_extent(b * ah.n_out, aw.n_out as int, usize::MAX as int);
        index::lemma_partial_extent(c * ah.k, aw.k as int, usize::MAX as int);
    }
    let rows: usize = b * ah.n_out * aw.n_out;
    let patch: usize = c * ah.k * aw.k;
    let total: usize = rows * patch;
    let mut p: usize = 0;
    while p < total
        invariant
            p <= total,
            total == rows * patch,
            rows == b * ah.n_out * aw.n_out,
            patch == c * ah.k * aw.k,
            b * c * ah.n_in * aw.n_in <= x@.len(),
            len_in == x@.len(),
            axis_ok(ah),
            axis_ok(aw),
            ah.n_out >= 1,
            aw.n_out >= 1,
            ah.k >= 1,
            aw.k >= 1,
            out@.len() == p,
            forall|q: int|
                0 <= q < p ==> out@[q] == #[trigger] unfolded(x@, b as int, c as int, ah, aw, z)[q],
        decreases total - p,
    {
        proof {
            index::lemma_unpair(p as int, rows as int, patch as int);
        }
        let row: usize = p / patch;
        let col: usize = p % patch;
        let ow: usize = row % aw.n_out;
        let oh: usize = row / aw.n_out % ah.n_out;
        let bi: usize = row / aw.n_out / ah.n_out;
        let dw: usize = col % aw.k;
        let dh: usize = col / aw.k % ah.k;
        let ci: usize = col / aw.k / ah.k;
        proof {
            index::lemma_untriple(row as int, b as int, ah.n_out as int, aw.n_out as int);
            index::lemma_untriple(col as int, c as int, ah.k as int, aw.k as int);
        }
        let v: T = match (source(ah, oh, dh), source(aw, ow, dw)) {
            (Some(ih), Some(iw)) => {
                proof {
                    lemma_tap(ah, oh as int, dh as int);
                    lemma_tap(aw, ow as int, dw as int);
                    index::lemma_quad(
                        bi as int,
                        ci as int,
                        ih as int,
                        iw as int,
                        b as int,
                        c as int,
                        ah.n_in as int,
                        aw.n_in as int,
                    );
                    index::lemma_within4(
                        bi as int,
                        ci as int,
                        ih as int,
                        iw as int,
                        c as int,
                        ah.n_in as int,
                        aw.n_in as int,
                    );
                }
                x[((bi * c + ci) * ah.n_in + ih) * aw.n_in + iw]
            },
            _ => z,
        };
        out.push(v);
        p = p + 1;
    }
    out
}

/// The matrix product of a convolution reads inside its operands.
pub proof fn lemma_conv_gemm(rows: int, c_out: int, patch: int, by_input: bool)
    requires
        0 <= rows <= usize::MAX,
        0 <= c_out <= usize::MAX,
        0 <= patch <= usize::MAX,
        rows * c_out <= usize::MAX,
    ensures
        arith::gemm_in_bounds(
            conv_gemm(rows, c_out, patch, by_input),
            rows * patch,
            patch * c_out,
        ),
{
    assert(rows > 0 && patch > 0 ==> (rows - 1) * patch + (patch - 1) * 1 < rows * patch)
        by (nonlinear_arith);
    assert(c_out > 0 && patch > 0 ==> (c_out - 1) * patch + (patch - 1) * 1 < patch * c_out)
        by (nonlinear_arith);
    assert(c_out > 0 && patch > 0 ==> (c_out - 1) * 1 + (patch - 1) * c_out < patch * c_out)
        by (nonlinear_arith);
}

/// Adds the bias to each entry of a product while laying its rows out as planes.
fn biased_planes<A: Arith>(a: &A, p: &A::Product, b: usize, c: usize, area: usize, bias: &[A::T]) -> (r:
    Vec<A::T>)
    requires
        area >= 1,
        b * c * area <= usize::MAX,
        c <= bias@.len(),
    ensures
        is_biased_planes(a, *p, b as int, c as int, area as int, bias@, r@),
{
    let mut out: Vec<A::T> = Vec::new();
    proof {
        index::lemma_extent(b as int, c as int);
        index::lemma_partial_extent(b * c, area as int, usize::MAX as int);
    }
    let total: usize = b * c * area;
    let mut i: usize = 0;
    while i < total
        invariant
            i <= total,
            total == b * c * area,
            area >= 1,
            c <= bias@.len(),
            out@.len() == i,
            forall|q: int|
                0 <= q < i ==> is_biased_entry(
                    a,
                    *p,
                    index::pos2(q / area as int / c as int, q % area as int, area as int),
                    q / area as int % c as int,
                    bias@[q / area as int % c as int],
                    #[trigger] out@[q],
                ),
        decreases total - i,
    {
        proof {
            index::lemma_untriple(i as int, b as int, c as int, area as int);
        }
        let at: usize = i % area;
        let co: usize = i / area % c;
        let bi: usize = i / area / c;
        proof {
            index::lemma_within2(bi as int, at as int, area as int);
            index::lemma_pair(bi as int, at as int, b as int, area as int);
            assert(b * area <= b * c * area) by (nonlinear_arith)
                requires
                    b >= 0,
                    c >= 1,
                    area >= 1,
            ;
        }
        let row: usize = bi * area + at;
        let e: A::T = arith::entry(a, p, row, co);
        let v: A::T = arith::plus(a, e, bias[co]);
        out.push(v);
        i = i + 1;
    }
    out
}

/// Convolves `x`, of shape `[b, c_in, ah.n_in, aw.n_in]`, with the kernel `wt`.
fn convolve<A: Arith>(
    a: &A,
    x: &[A::T],
    b: usize,
    c_in: usize,
    ah: Axis,
    aw: Axis,
    c_out: usize,
    wt: &[A::T],
    by_input: bool,
    bias: &[A::T],
) -> (r: Vec<A::T>)
    requires
        axis_ok(ah),
        axis_ok(aw),
        conv_fits(
            x@.len() as int,
            b as int,
            c_in as int,
            ah,
            aw,
            c_out as int,
            wt@.len() as int,
            bias@.len() as int,
        ),
    ensures
        is_conv(
            a,
            x@,
            b as int,
            c_in as int,
            ah,
            aw,
            c_out as int,
            wt@,
            by_input,
            bias@,
            r@,
        ),
{
    proof {
        lemma_axis_nonempty(ah);
        lemma_axis_nonempty(aw);
        index::lemma_extent(b as int, ah.n_out as int);
        index::lemma_extent(c_in as int, ah.k as int);
        index::lemma_extent(b * ah.n_out, aw.n_out as int);
        index::lemma_extent(c_in * ah.k, aw.k as int);
        index::lemma_partial_extent(b * ah.n_out, aw.n_out as int, usize::MAX as int);
        index::lemma_partial_extent(c_in * ah.k, aw.k as int, usize::MAX as int);
        assert(b * c_out * (ah.n_out * aw.n_out) == b * ah.n_out * aw.n_out * c_out)
            by (nonlinear_arith);
    }
    let rows: usize = b * ah.n_out * aw.n_out;
    let patch: usize = c_in * ah.k * aw.k;
    let z: A::T = arith::zero(a);
    let one: A::T = arith::ratio(a, 1, 1);
    let col: Vec<A::T> = unfold(x, b, c_in, ah, aw, z);
    proof {
        lemma_conv_gemm(rows as int, c_out as int, patch as int, by_input);
    }
    let g: Gemm = Gemm {
        m: rows,
        n: c_out,
        k: patch,
        lhs_cs: 1,
        lhs_rs: patch,
        rhs_cs: if by_input {
            1
        } else {
            patch
        },
        rhs_rs: if by_input {
            c_out
        } else {
            1
        },
    };
    let p: A::Product = arith::matmul(a, g, col.as_slice(), wt, one);
    if b == 0 {
        let out: Vec<A::T> = Vec::new();
        assert(0 * c_out * (ah.n_out * aw.n_out) == 0) by (nonlinear_arith);
        assert(is_biased_planes(
            a,
            p,
            b as int,
            c_out as int,
            ah.n_out * aw.n_out,
            bias@,
            out@,
        ));
        return out;
    }
    proof {
        assert(ah.n_out * aw.n_out <= b * ah.n_out * aw.n_out) by (nonlinear_arith)
            requires
                b >= 1,
                ah.n_out >= 1,
                aw.n_out >= 1,
        ;
        assert(ah.n_out * aw.n_out >= 1) by (nonlinear_arith)
            requires
                ah.n_out >= 1,
                aw.n_out >= 1,
        ;
    }
    let area: usize = ah.n_out * aw.n_out;
    biased_planes(a, &p, b, c_out, area, bias)
}

/// The axis of a forward convolution.
pub open spec fn forward_axis(
    n_in: usize,
    pad: usize,
    k: usize,
    stride: usize,
    dilation: usize,
) -> Axis {
    Axis {
        n_in,
        n_out: forward_extent(
            n_in as int,
            pad as int,
            k as int,
            stride as int,
            dilation as int,
        ) as usize,
        k,
        stride,
        pad,
        dilation,
        transposed: false,
    }
}

/// The axis of a transposed convolution.
pub open spec fn transposed_axis(n_in: usize, pad: usize, k: usize, stride: usize) -> Axis {
    Axis {
        n_in,
        n_out: transposed_extent(n_in as int, pad as int, k as int, stride as int) as usize,
        k,
        stride,
        pad,
        dilation: 1,
        transposed: true,
    }
}

/// The second axis of a convolution in one dimension.
pub open spec fn unit_axis() -> Axis {
    forward_axis(1, 0, 1, 1, 1)
}

/// Describes the axis of a forward convolution.
fn make_forward(n_in: usize, pad: usize, k: usize, stride: usize, dilation: usize) -> (r: Axis)
    requires
        forward_ok(n_in as int, pad as int, k as int, stride as int, dilation as int),
    ensures
        r == forward_axis(n_in, pad, k, stride, dilation),
        axis_ok(r),
{
    proof {
        index::lemma_extent(dilation as int, k - 1);
        let room = n_in + 2 * pad - dilation * (k - 1) - 1;
        assert(0 <= room / stride as int <= room) by (nonlinear_arith)
            requires
                room >= 0,
                stride >= 1,
        ;
    }
    let span: usize = dilation * (k - 1);
    let n_out: usize = (n_in + 2 * pad - span - 1) / stride + 1;
    Axis { n_in, n_out, k, stride, pad, dilation, transposed: false }
}

/// Describes the axis of a transposed convolution.
fn make_transposed(n_in: usize, pad: usize, k: usize, stride: usize) -> (r: Axis)
    requires
        transposed_ok(n_in as int, pad as int, k as int, stride as int),
    ensures
        r == transposed_axis(n_in, pad, k, stride),
        axis_ok(r),
{
    proof {
        index::lemma_extent(n_in - 1, stride as int);
    }
    let n_out: usize = (n_in - 1) * stride + (k - 1) - 2 * pad + 1;
    Axis { n_in, n_out, k, stride, pad, dilation: 1, transposed: true }
}

/// The inputs on which [`conv2d`] is defined: channels agree, no extent of the kernel is
/// zero, the padded input covers the kernel, and the operands have their elements.
#[verifier::opaque]
pub open spec fn conv2d_ok<T>(
    x_len: int,
    s: [usize; 4],
    w: &Conv2dWeight<T>,
    bias: Seq<T>,
    pad_h: usize,
    pad_w: usize,
    stride_h: usize,
    stride_w: usize,
) -> bool {
    &&& s[1] == w.in_ch
    &&& w.in_ch > 0
    &&& w.out_ch > 0
    &&& forward_ok(s[2] as int, pad_h as int, w.kh as int, stride_h as int, 1)
    &&& forward_ok(s[3] as int, pad_w as int, w.kw as int, stride_w as int, 1)
    &&& conv_fits(
        x_len,
        s[0] as int,
        s[1] as int,
        forward_axis(s[2], pad_h, w.kh, stride_h, 1),
        forward_axis(s[3], pad_w, w.kw, stride_w, 1),
        w.out_ch as int,
        w.data@.len() as int,
        bias.len() as int,
    )
}

/// The shape that [`conv2d`] gives.
pub open spec fn conv2d_shape<T>(
    s: [usize; 4],
    w: &Conv2dWeight<T>,
    pad_h: usize,
    pad_w: usize,
    stride_h: usize,
    stride_w: usize,
) -> [usize; 4] {
    [
        s[0],
        w.out_ch,
        forward_extent(s[2] as int, pad_h as int, w.kh as int, stride_h as int, 1) as usize,
        forward_extent(s[3] as int, pad_w as int, w.kw as int, stride_w as int, 1) as usize,
    ]
}

/// `out` is the result of [`conv2d`].
#[verifier::opaque]
pub open spec fn is_conv2d<A: Arith>(
    a: &A,
    x: Seq<A::T>,
    s: [usize; 4],
    w: &Conv2dWeight<A::T>,
    bias: Seq<A::T>,
    pad_h: usize,
    pad_w: usize,
    stride_h: usize,
    stride_w: usize,
    out: Seq<A::T>,
) -> bool {
    is_conv(
        a,
        x,
        s[0] as int,
        s[1] as int,
        forward_axis(s[2], pad_h, w.kh, stride_h, 1),
        forward_axis(s[3], pad_w, w.kw, stride_w, 1),
        w.out_ch as int,
        w.data@,
        false,
        bias,
        out,
    )
}

/// 2D convolution without dilation of `x`, of shape `[B, C_in, H, W]`.
///
/// The result has shape `[B, C_out, H_out, W_out]`, where
/// `H_out = (H + 2 * pad_h - kH) / stride_h + 1` and `W_out` likewise.
pub fn conv2d<A: Arith>(
    a: &A,
    x: &[A::T],
    x_shape: [usize; 4],
    w: &Conv2dWeight<A::T>,
    bias: &Bias<A::T>,
    pad_h: usize,
    pad_w: usize,
    stride_h: usize,
    stride_w: usize,
) -> (r: (Vec<A::T>, [usize; 4]))
    requires
        conv2d_ok(x@.len() as int, x_shape, w, bias.data@, pad_h, pad_w, stride_h, stride_w),
    ensures
        r.1 == conv2d_shape(x_shape, w, pad_h, pad_w, stride_h, stride_w),
        r.0@.len() == index::size4(r.1),
        r.1[1] > 0,
        r.1[2] > 0,
        r.1[3] > 0,
        is_conv2d(a, x@, x_shape, w, bias.data@, pad_h, pad_w, stride_h, stride_w, r.0@),
{
    proof {
        reveal(conv2d_ok);
        reveal(is_conv2d);
    }
    let ah: Axis = make_forward(x_shape[2], pad_h, w.kh, stride_h, 1);
    let aw: Axis = make_forward(x_shape[3], pad_w, w.kw, stride_w, 1);
    let out: Vec<A::T> = convolve(
        a,
        x,
        x_shape[0],
        x_shape[1],
        ah,
        aw,
        w.out_ch,
        w.data.as_slice(),
        false,
        bias.data.as_slice(),
    );
    let shape: [usize; 4] = [x_shape[0], w.out_ch, ah.n_out, aw.n_out];
    proof {
        lemma_axis_nonempty(ah);
        lemma_axis_nonempty(aw);
        assert(x_shape[0] * w.out_ch * (ah.n_out * aw.n_out) == x_shape[0] * w.out_ch * ah.n_out
            * aw.n_out) by (nonlinear_arith);
    }
    (out, shape)
}

/// The inputs on which [`conv1d_with_stride`] is defined.
#[verifier::opaque]
pub open spec fn conv1d_ok<T>(
    x_len: int,
    s: [usize; 3],
    w: &Conv1dWeight<T>,
    bias: Seq<T>,
    pad: usize,
    stride: usize,
    dilation: usize,
) -> bool {
    &&& s[1] == w.in_ch
    &&& w.in_ch > 0
    &&& w.out_ch > 0
    &&& forward_ok(s[2] as int, pad as int, w.k as int, stride as int, dilation as int)
    &&& conv_fits(
        x_len,
        s[0] as int,
        s[1] as int,
        forward_axis(s[2], pad, w.k, stride, dilation),
        unit_axis(),
        w.out_ch as int,
        w.data@.len() as int,
        bias.len() as int,
    )
}

/// The shape that [`conv1d_with_stride`] gives.
pub open spec fn conv1d_shape<T>(
    s: [usize; 3],
    w: &Conv1dWeight<T>,
    pad: usize,
    stride: usize,
    dilation: usize,
) -> [usize; 3] {
    [
        s[0],
        w.out_ch,
        forward_extent(
            s[2] as int,
            pad as int,
            w.k as int,
            stride as int,
            dilation as int,
        ) as usize,
    ]
}

/// `out` is the result of [`conv1d_with_stride`].
#[verifier::opaque]
pub open spec fn is_conv1d<A: Arith>(
    a: &A,
    x: Seq<A::T>,
    s: [usize; 3],
    w: &Conv1dWeight<A::T>,
    bias: Seq<A::T>,
    pad: usize,
    stride: usize,
    dilation: usize,
    out: Seq<A::T>,
) -> bool {
    is_conv(
        a,
        x,
        s[0] as int,
        s[1] as int,
        forward_axis(s[2], pad, w.k, stride, dilation),
        unit_axis(),
        w.out_ch as int,
        w.data@,
        false,
        bias,
        out,
    )
}

/// 1D convolution of `x`, of shape `[B, C_in, L]`.
///
/// The result has shape `[B, C_out, L_out]`, where
/// `L_out = (L + 2 * pad - dilation * (k - 1) - 1) / stride + 1`.
pub fn conv1d_with_stride<A: Arith>(
    a: &A,
    x: &[A::T],
    x_shape: [usize; 3],
    w: &Conv1dWeight<A::T>,
    bias: &Bias<A::T>,
    pad: usize,
    stride: usize,
    dilation: usize,
) -> (r: (Vec<A::T>, [usize; 3]))
    requires
        conv1d_ok(x@.len() as int, x_shape, w, bias.data@, pad, stride, dilation),
    ensures
        r.1 == conv1d_shape(x_shape, w, pad, stride, dilation),
        r.0@.len() == index::size3(r.1),
        r.1[1] > 0,
        r.1[2] > 0,
        is_conv1d(a, x@, x_shape, w, bias.data@, pad, stride, dilation, r.0@),
{
    proof {
        reveal(conv1d_ok);
        reveal(is_conv1d);
    }
    let ah: Axis = make_forward(x_shape[2], pad, w.k, stride, dilation);
    let aw: Axis = make_forward(1, 0, 1, 1, 1);
    let out: Vec<A::T> = convolve(
        a,
        x,
        x_shape[0],
        x_shape[1],
        ah,
        aw,
        w.out_ch,
        w.data.as_slice(),
        false,
        bias.data.as_slice(),
    );
    let shape: [usize; 3] = [x_shape[0], w.out_ch, ah.n_out];
    proof {
        lemma_axis_nonempty(ah);
        assert(aw.n_out == 1);
        assert(ah.n_out * aw.n_out == ah.n_out) by (nonlinear_arith)
            requires
                aw.n_out == 1,
        ;
    }
    (out, shape)
}

/// 1D convolution with stride 1 of `x`, of shape `[B, C_in, L]`.
pub fn conv1d<A: Arith>(
    a: &A,
    x: &[A::T],
    x_shape: [usize; 3],
    w: &Conv1dWeight<A::T>,
    bias: &Bias<A::T>,
    pad: usize,
    dilation: usize,
) -> (r: (Vec<A::T>, [usize; 3]))
    requires
        conv1d_ok(x@.len() as int, x_shape, w, bias.data@, pad, 1, dilation),
    ensures
        r.1 == conv1d_shape(x_shape, w, pad, 1, dilation),
        r.0@.len() == index::size3(r.1),
        r.1[1] > 0,
        r.1[2] > 0,
        is_conv1d(a, x@, x_shape, w, bias.data@, pad, 1, dilation, r.0@),
{
    conv1d_with_stride(a, x, x_shape, w, bias, pad, 1, dilation)
}

/// 1D convolution with one tap: a linear map of the channels at each position.
pub fn conv1d_k1<A: Arith>(
    a: &A,
    x: &[A::T],
    x_shape: [usize; 3],
    w: &Conv1dWeight<A::T>,
    bias: &Bias<A::T>,
) -> (r: (Vec<A::T>, [usize; 3]))
    requires
        conv1d_ok(x@.len() as int, x_shape, w, bias.data@, 0, 1, 1),
    ensures
        r.1 == conv1d_shape(x_shape, w, 0, 1, 1),
        r.0@.len() == index::size3(r.1),
        r.1[1] > 0,
        r.1[2] > 0,
        is_conv1d(a, x@, x_shape, w, bias.data@, 0, 1, 1, r.0@),
{
    conv1d(a, x, x_shape, w, bias, 0, 1)
}

/// The inputs on which [`conv_transpose2d`] is defined.
#[verifier::opaque]
pub open spec fn conv_transpose2d_ok<T>(
    x_len: int,
    s: [usize; 4],
    w: &Conv2dWeight<T>,
    bias: Seq<T>,
    pad_h: usize,
    pad_w: usize,
    stride_h: usize,
    stride_w: usize,
) -> bool {
    &&& s[1] == w.in_ch
    &&& w.in_ch > 0
    &&& w.out_ch > 0
    &&& transposed_ok(s[2] as int, pad_h as int, w.kh as int, stride_h as int)
    &&& transposed_ok(s[3] as int, pad_w as int, w.kw as int, stride_w as int)
    &&& conv_fits(
        x_len,
        s[0] as int,
        s[1] as int,
        transposed_axis(s[2], pad_h, w.kh, stride_h),
        transposed_axis(s[3], pad_w, w.kw, stride_w),
        w.out_ch as int,
        w.data@.len() as int,
        bias.len() as int,
    )
}

/// The shape that [`conv_transpose2d`] gives.
pub open spec fn conv_transpose2d_shape<T>(
    s: [usize; 4],
    w: &Conv2dWeight<T>,
    pad_h: usize,
    pad_w: usize,
    stride_h: usize,
    stride_w: usize,
) -> [usize; 4] {
    [
        s[0],
        w.out_ch,
        transposed_extent(s[2] as int, pad_h as int, w.kh as int, stride_h as int) as usize,
        transposed_extent(s[3] as int, pad_w as int, w.kw as int, stride_w as int) as usize,
    ]
}

/// `out` is the result of [`conv_transpose2d`].
#[verifier::opaque]
pub open spec fn is_conv_transpose2d<A: Arith>(
    a: &A,
    x: Seq<A::T>,
    s: [usize; 4],
    w: &Conv2dWeight<A::T>,
    bias: Seq<A::T>,
    pad_h: usize,
    pad_w: usize,
    stride_h: usize,
    stride_w: usize,
    out: Seq<A::T>,
) -> bool {
    is_conv(
        a,
        x,
        s[0] as int,
        s[1] as int,
        transposed_axis(s[2], pad_h, w.kh, stride_h),
        transposed_axis(s[3], pad_w, w.kw, stride_w),
        w.out_ch as int,
        w.data@,
        true,
        bias,
        out,
    )
}

/// 2D transposed convolution of `x`, of shape `[B, C_in, H, W]`. The kernel is stored
/// `[C_in, kH, kW, C_out]`.
///
/// The result has shape `[B, C_out, H_out, W_out]`, where
/// `H_out = (H - 1) * stride_h - 2 * pad_h + kH` and `W_out` likewise.
pub fn conv_transpose2d<A: Arith>(
    a: &A,
    x: &[A::T],
    x_shape: [usize; 4],
    w: &Conv2dWeight<A::T>,
    bias: &Bias<A::T>,
    pad_h: usize,
    pad_w: usize,
    stride_h: usize,
    stride_w: usize,
) -> (r: (Vec<A::T>, [usize; 4]))
    requires
        conv_transpose2d_ok(
            x@.len() as int,
            x_shape,
            w,
            bias.data@,
            pad_h,
            pad_w,
            stride_h,
            stride_w,
        ),
    ensures
        r.1 == conv_transpose2d_shape(x_shape, w, pad_h, pad_w, stride_h, stride_w),
        r.0@.len() == index::size4(r.1),
        r.1[1] > 0,
        r.1[2] > 0,
        r.1[3] > 0,
        is_conv_transpose2d(a, x@, x_shape, w, bias.data@, pad_h, pad_w, stride_h, stride_w, r.0@),
{
    proof {
        reveal(conv_transpose2d_ok);
        reveal(is_conv_transpose2d);
    }
    let ah: Axis = make_transposed(x_shape[2], pad_h, w.kh, stride_h);
    let aw: Axis = make_transposed(x_shape[3], pad_w, w.kw, stride_w);
    let out: Vec<A::T> = convolve(
        a,
        x,
        x_shape[0],
        x_shape[1],
        ah,
        aw,
        w.out_ch,
        w.data.as_slice(),
        true,
        bias.data.as_slice(),
    );
    let shape: [usize; 4] = [x_shape[0], w.out_ch, ah.n_out, aw.n_out];
    proof {
        lemma_axis_nonempty(ah);
        lemma_axis_nonempty(aw);
        assert(x_shape[0] * w.out_ch * (ah.n_out * aw.n_out) == x_shape[0] * w.out_ch * ah.n_out
            * aw.n_out) by (nonlinear_arith);
    }
    (out, shape)
}

/// The inputs on which [`conv_transpose1d`] is defined.
#[verifier::opaque]
pub open spec fn conv_transpose1d_ok<T>(
    x_len: int,
    s: [usize; 3],
    w: &Conv1dWeight<T>,
    bias: Seq<T>,
    pad: usize,
    stride: usize,
) -> bool {
    &&& s[1] == w.in_ch
    &&& transposed_ok(s[2] as int, pad as int, w.k as int, stride as int)
    &&& conv_fits(
        x_len,
        s[0] as int,
        s[1] as int,
        transposed_axis(s[2], pad, w.k, stride),
        unit_axis(),
        w.out_ch as int,
        w.data@.len() as int,
        bias.len() as int,
    )
}

/// The shape that [`conv_transpose1d`] gives.
pub open spec fn conv_transpose1d_shape<T>(
    s: [usize; 3],
    w: &Conv1dWeight<T>,
    pad: usize,
    stride: usize,
) -> [usize; 3] {
    [
        s[0],
        w.out_ch,
        transposed_extent(s[2] as int, pad as int, w.k as int, stride as int) as usize,
    ]
}

/// `out` is the result of [`conv_transpose1d`].
#[verifier::opaque]
pub open spec fn is_conv_transpose1d<A: Arith>(
    a: &A,
    x: Seq<A::T>,
    s: [usize; 3],
    w: &Conv1dWeight<A::T>,
    bias: Seq<A::T>,
    pad: usize,
    stride: usize,
    out: Seq<A::T>,
) -> bool {
    is_conv(
        a,
        x,
        s[0] as int,
        s[1] as int,
        transposed_axis(s[2], pad, w.k, stride),
        unit_axis(),
        w.out_ch as int,
        w.data@,
        true,
        bias,
        out,
    )
}

/// 1D transposed convolution of `x`, of shape `[B, C_in, L]`. The kernel is stored
/// `[C_in, k, C_out]`.
///
/// The result has shape `[B, C_out, L_out]`, where `L_out = (L - 1) * stride + k - 2 * pad`.
pub fn conv_transpose1d<A: Arith>(
    a: &A,
    x: &[A::T],
    x_shape: [usize; 3],
    w: &Conv1dWeight<A::T>,
    bias: &Bias<A::T>,
    pad: usize,
    stride: usize,
) -> (r: (Vec<A::T>, [usize; 3]))
    requires
        conv_transpose1d_ok(x@.len() as int, x_shape, w, bias.data@, pad, stride),
    ensures
        r.1 == conv_transpose1d_shape(x_shape, w, pad, stride),
        r.0@.len() == index::size3(r.1),
        r.1[2] > 0,
        is_conv_transpose1d(a, x@, x_shape, w, bias.data@, pad, stride, r.0@),
{
    proof {
        reveal(conv_transpose1d_ok);
        reveal(is_conv_transpose1d);
    }
    let ah: Axis = make_transposed(x_shape[2], pad, w.k, stride);
    let aw: Axis = make_forward(1, 0, 1, 1, 1);
    let out: Vec<A::T> = convolve(
        a,
        x,
        x_shape[0],
        x_shape[1],
        ah,
        aw,
        w.out_ch,
        w.data.as_slice(),
        true,
        bias.data.as_slice(),
    );
    let shape: [usize; 3] = [x_shape[0], w.out_ch, ah.n_out];
    proof {
        lemma_axis_nonempty(ah);
        assert(aw.n_out == 1);
        assert(ah.n_out * aw.n_out == ah.n_out) by (nonlinear_arith)
            requires
                aw.n_out == 1,
        ;
    }
    (out, shape)
}

} // verus!
