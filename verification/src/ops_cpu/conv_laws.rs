//! What convolutions compute, without rounding.
use vstd::prelude::*;
use crate::arith;
use crate::arith::Arith;
use crate::exact;
use crate::index;
use crate::model::Conv1dWeight;
use crate::model::Conv2dWeight;
use crate::ops_cpu::conv;
use crate::ops_cpu::conv::Axis;

verus! {

/// The number at row `i` and column `j` of plane `c` of a `[b, channels, h, w]` tensor; around the
/// plane there are zeros.
pub open spec fn pixel<T>(
    val: spec_fn(T) -> real,
    x: Seq<T>,
    channels: int,
    h: int,
    w: int,
    b: int,
    c: int,
    i: int,
    j: int,
) -> real {
    if 0 <= i < h && 0 <= j < w {
        val(x[((b * channels + c) * h + i) * w + j])
    } else {
        0 as real
    }
}

/// The number that is `stride` to the place `s`, in a row that is stretched so that its numbers
/// lie `stride` apart: the place in the row, or one before it.
pub open spec fn stretched(s: int, stride: int) -> int {
    if s % stride == 0 {
        s / stride
    } else {
        -1
    }
}

/// The sum over channels, rows and columns of a kernel.
pub open spec fn over_kernel(
    channels: int,
    kh: int,
    kw: int,
    f: spec_fn(int, int, int) -> real,
) -> real {
    exact::total(
        channels,
        |c: int| exact::total(kh, |u: int| exact::total(kw, |v: int| f(c, u, v))),
    )
}

/// What a kernel gives at row `i` and column `j`, lying on the planes of `x`, of shape `s`.
pub open spec fn slid2<T>(
    val: spec_fn(T) -> real,
    x: Seq<T>,
    s: [usize; 4],
    w: &Conv2dWeight<T>,
    pad_h: usize,
    pad_w: usize,
    stride_h: usize,
    stride_w: usize,
    b: int,
    co: int,
    i: int,
    j: int,
) -> real {
    over_kernel(
        w.in_ch as int,
        w.kh as int,
        w.kw as int,
        |c: int, u: int, v: int|
            pixel(
                val,
                x,
                s[1] as int,
                s[2] as int,
                s[3] as int,
                b,
                c,
                i * stride_h + u - pad_h,
                j * stride_w + v - pad_w,
            ) * val(w.data@[((co * w.in_ch + c) * w.kh + u) * w.kw + v]),
    )
}

/// What a kernel gives at position `i`, lying on the rows of `x`, of shape `s`.
pub open spec fn slid1<T>(
    val: spec_fn(T) -> real,
    x: Seq<T>,
    s: [usize; 3],
    w: &Conv1dWeight<T>,
    pad: usize,
    stride: usize,
    dilation: usize,
    b: int,
    co: int,
    i: int,
) -> real {
    over_kernel(
        w.in_ch as int,
        w.k as int,
        1,
        |c: int, u: int, v: int|
            pixel(
                val,
                x,
                s[1] as int,
                s[2] as int,
                1,
                b,
                c,
                i * stride + u * dilation - pad,
                0,
            ) * val(w.data@[(co * w.in_ch + c) * w.k + u]),
    )
}

/// What a kernel gives at row `i` and column `j` of the planes of `x`, of shape `s`, stretched.
pub open spec fn spread2<T>(
    val: spec_fn(T) -> real,
    x: Seq<T>,
    s: [usize; 4],
    w: &Conv2dWeight<T>,
    pad_h: usize,
    pad_w: usize,
    stride_h: usize,
    stride_w: usize,
    b: int,
    co: int,
    i: int,
    j: int,
) -> real {
    over_kernel(
        w.in_ch as int,
        w.kh as int,
        w.kw as int,
        |c: int, u: int, v: int|
            pixel(
                val,
                x,
                s[1] as int,
                s[2] as int,
                s[3] as int,
                b,
                c,
                stretched(i + pad_h - u, stride_h as int),
                stretched(j + pad_w - v, stride_w as int),
            ) * val(w.data@[((c * w.kh + u) * w.kw + v) * w.out_ch + co]),
    )
}

/// What a kernel gives at position `i` of the rows of `x`, of shape `s`, stretched.
pub open spec fn spread1<T>(
    val: spec_fn(T) -> real,
    x: Seq<T>,
    s: [usize; 3],
    w: &Conv1dWeight<T>,
    pad: usize,
    stride: usize,
    b: int,
    co: int,
    i: int,
) -> real {
    over_kernel(
        w.in_ch as int,
        w.k as int,
        1,
        |c: int, u: int, v: int|
            pixel(
                val,
                x,
                s[1] as int,
                s[2] as int,
                1,
                b,
                c,
                stretched(i + pad - u, stride as int),
                0,
            ) * val(w.data@[(c * w.k + u) * w.out_ch + co]),
    )
}

/// Sums over kernels of equal numbers are equal.
proof fn lemma_over_same(
    channels: int,
    kh: int,
    kw: int,
    f: spec_fn(int, int, int) -> real,
    g: spec_fn(int, int, int) -> real,
)
    requires
        forall|c: int, u: int, v: int|
            0 <= c < channels && 0 <= u < kh && 0 <= v < kw ==> #[trigger] f(c, u, v) == g(c, u, v),
    ensures
        over_kernel(channels, kh, kw, f) == over_kernel(channels, kh, kw, g),
{
    let x = |c: int| exact::total(kh, |u: int| exact::total(kw, |v: int| f(c, u, v)));
    let y = |c: int| exact::total(kh, |u: int| exact::total(kw, |v: int| g(c, u, v)));
    assert forall|c: int| 0 <= c < channels implies #[trigger] x(c) == y(c) by {
        let p = |u: int| exact::total(kw, |v: int| f(c, u, v));
        let q = |u: int| exact::total(kw, |v: int| g(c, u, v));
        assert forall|u: int| 0 <= u < kh implies #[trigger] p(u) == q(u) by {
            let (r, s) = (|v: int| f(c, u, v), |v: int| g(c, u, v));
            assert forall|v: int| 0 <= v < kw implies #[trigger] r(v) == s(v) by {
                assert(f(c, u, v) == g(c, u, v));
            }
            exact::total_same(kw, r, s);
        }
        exact::total_same(kh, p, q);
    }
    exact::total_same(channels, x, y);
}

/// A sum over the flattened kernel.
proof fn lemma_flattened(channels: int, kh: int, kw: int, f: spec_fn(int, int, int) -> real)
    requires
        0 <= channels,
        0 < kh,
        0 < kw,
    ensures
        exact::total(channels * kh * kw, |t: int| f(t / kw / kh, t / kw % kh, t % kw))
            == over_kernel(channels, kh, kw, f),
{
    let m = channels * kh;
    assert(0 <= m) by (nonlinear_arith)
        requires
            m == channels * kh,
            0 <= channels,
            0 < kh,
    ;
    let g = |q: int, v: int| f(q / kh, q % kh, v);
    exact::total_of_pairs(m, kw, g);
    let (x, y) = (
        |t: int| g(t / kw, t % kw),
        |t: int| f(t / kw / kh, t / kw % kh, t % kw),
    );
    exact::total_same(m * kw, x, y);
    let h = |c: int, u: int| exact::total(kw, |v: int| f(c, u, v));
    exact::total_of_pairs(channels, kh, h);
    let (p, q) = (
        |i: int| exact::total(kw, |v: int| g(i, v)),
        |i: int| h(i / kh, i % kh),
    );
    assert forall|i: int| 0 <= i < m implies #[trigger] p(i) == q(i) by {
        exact::total_same(kw, |v: int| g(i, v), |v: int| f(i / kh, i % kh, v));
    }
    exact::total_same(m, p, q);
    let (r, s) = (
        |c: int| exact::total(kh, |u: int| h(c, u)),
        |c: int| exact::total(kh, |u: int| exact::total(kw, |v: int| f(c, u, v))),
    );
    assert forall|c: int| 0 <= c < channels implies #[trigger] r(c) == s(c) by {
        exact::total_same(
            kh,
            |u: int| h(c, u),
            |u: int| exact::total(kw, |v: int| f(c, u, v)),
        );
    }
    exact::total_same(channels, r, s);
}

/// What the row of an output position holds.
proof fn lemma_row<T>(
    x: Seq<T>,
    b: int,
    c_in: int,
    ah: Axis,
    aw: Axis,
    z: T,
    bi: int,
    oh: int,
    ow: int,
    t: int,
)
    requires
        ah.k >= 1,
        aw.k >= 1,
        0 <= bi < b,
        0 <= oh < ah.n_out,
        0 <= ow < aw.n_out,
        0 <= t < c_in * ah.k * aw.k,
    ensures
        conv::unfolded(x, b, c_in, ah, aw, z)[index::pos2(
            index::pos3(bi, oh, ow, ah.n_out as int, aw.n_out as int),
            t,
            c_in * ah.k * aw.k,
        )] == conv::patch_value(
            x,
            c_in,
            ah,
            aw,
            z,
            bi,
            oh,
            ow,
            t / aw.k as int / ah.k as int,
            t / aw.k as int % ah.k as int,
            t % aw.k as int,
        ),
{
    let patch = c_in * ah.k * aw.k;
    let row = index::pos3(bi, oh, ow, ah.n_out as int, aw.n_out as int);
    index::lemma_triple(bi, oh, ow, b, ah.n_out as int, aw.n_out as int);
    index::lemma_pair(row, t, b * ah.n_out * aw.n_out, patch);
}

/// The factor of a tap in the kernel.
pub open spec fn factor_at(
    c_in: int,
    c_out: int,
    kh: int,
    kw: int,
    by_input: bool,
    co: int,
    c: int,
    u: int,
    v: int,
) -> int {
    if by_input {
        ((c * kh + u) * kw + v) * c_out + co
    } else {
        ((co * c_in + c) * kh + u) * kw + v
    }
}

/// What a tap reads.
spec fn read<T>(
    val: spec_fn(T) -> real,
    x: Seq<T>,
    c_in: int,
    ah: Axis,
    aw: Axis,
    bi: int,
    oh: int,
    ow: int,
    c: int,
    u: int,
    v: int,
) -> real {
    pixel(
        val,
        x,
        c_in,
        ah.n_in as int,
        aw.n_in as int,
        bi,
        c,
        conv::tap(ah, oh, u),
        conv::tap(aw, ow, v),
    )
}

/// A number that a convolution gives.
proof fn lemma_convolved<A: Arith>(
    a: &A,
    val: spec_fn(A::T) -> real,
    x: Seq<A::T>,
    b: int,
    c_in: int,
    ah: Axis,
    aw: Axis,
    c_out: int,
    wt: Seq<A::T>,
    by_input: bool,
    bias: Seq<A::T>,
    out: Seq<A::T>,
    bi: int,
    co: int,
    oh: int,
    ow: int,
)
    requires
        exact::is_exact(a, val),
        exact::is_exact_gemm(a, val),
        conv::axis_ok(ah),
        conv::axis_ok(aw),
        0 <= c_in,
        0 <= c_out <= usize::MAX,
        b * ah.n_out * aw.n_out <= usize::MAX,
        c_in * ah.k * aw.k <= usize::MAX,
        conv::is_conv(a, x, b, c_in, ah, aw, c_out, wt, by_input, bias, out),
        0 <= bi < b,
        0 <= co < c_out,
        0 <= oh < ah.n_out,
        0 <= ow < aw.n_out,
    ensures
        val(out[((bi * c_out + co) * ah.n_out + oh) * aw.n_out + ow]) == over_kernel(
            c_in,
            ah.k as int,
            aw.k as int,
            |c: int, u: int, v: int|
                read(val, x, c_in, ah, aw, bi, oh, ow, c, u, v) * val(
                    wt[factor_at(c_in, c_out, ah.k as int, aw.k as int, by_input, co, c, u, v)],
                ),
        ) + val(bias[co]),
{
    let (n, m) = (ah.n_out as int, aw.n_out as int);
    let (kh, kw) = (ah.k as int, aw.k as int);
    let patch = c_in * ah.k * aw.k;
    let rows = b * ah.n_out * aw.n_out;
    let area = n * m;
    assert(0 <= patch) by (nonlinear_arith)
        requires
            patch == c_in * kh * kw,
            0 <= c_in,
            1 <= kh,
            1 <= kw,
    ;
    let g = conv::conv_gemm(rows, c_out, patch, by_input);
    let (z, one, p) = choose|z: A::T, one: A::T, p: A::Product|
        {
            &&& #[trigger] arith::is_zero(a, z)
            &&& #[trigger] arith::is_ratio(a, 1, 1, one)
            &&& #[trigger] arith::is_gemm(
                a,
                g,
                conv::unfolded(x, b, c_in, ah, aw, z),
                wt,
                one,
                p,
            )
            &&& conv::is_biased_planes(a, p, b, c_out, ah.n_out * aw.n_out, bias, out)
        };
    let lhs = conv::unfolded(x, b, c_in, ah, aw, z);
    index::lemma_pair(oh, ow, n, m);
    let at = oh * m + ow;
    let pos = index::pos3(bi, co, at, c_out, area);
    index::lemma_triple(bi, co, at, b, c_out, area);
    assert(((bi * c_out + co) * n + oh) * m + ow == (bi * c_out + co) * (n * m) + (oh * m + ow))
        by (nonlinear_arith);
    assert(pos == ((bi * c_out + co) * n + oh) * m + ow);
    let row = index::pos2(bi, at, area);
    assert(row == index::pos3(bi, oh, ow, n, m)) by {
        assert((bi * n + oh) * m + ow == bi * (n * m) + (oh * m + ow)) by (nonlinear_arith);
    }
    index::lemma_triple(bi, oh, ow, b, n, m);
    assert(0 <= row < rows);
    assert(conv::is_biased_entry(a, p, row, co, bias[co], out[pos]));
    let e = choose|e: A::T| #[trigger]
        arith::is_entry(a, p, row, co, e) && arith::is_sum(a, e, bias[co], out[pos]);
    let product = |t: int|
        val(lhs[row * g.lhs_rs + t * g.lhs_cs]) * val(wt[t * g.rhs_rs + co * g.rhs_cs]);
    assert(val(e) == val(one) * exact::total(g.k as int, product));
    assert(val(one) == 1 as real) by {
        assert((1 as int as real) / (1 as int as real) == 1 as real) by (nonlinear_arith);
    }
    let sum = exact::total(g.k as int, product);
    assert((1 as real) * sum == sum) by (nonlinear_arith);
    let term = |c: int, u: int, v: int|
        read(val, x, c_in, ah, aw, bi, oh, ow, c, u, v) * val(
            wt[factor_at(c_in, c_out, kh, kw, by_input, co, c, u, v)],
        );
    let flat = |t: int| term(t / kw / kh, t / kw % kh, t % kw);
    assert forall|t: int| 0 <= t < patch implies #[trigger] product(t) == flat(t) by {
        lemma_row(x, b, c_in, ah, aw, z, bi, oh, ow, t);
        index::lemma_untriple(t, c_in, kh, kw);
        let (c, u, v) = (t / kw / kh, t / kw % kh, t % kw);
        assert(t == (c * kh + u) * kw + v);
        assert(row * g.lhs_rs + t * g.lhs_cs == index::pos2(row, t, patch));
        lemma_tap_inside(ah, oh, u);
        lemma_tap_inside(aw, ow, v);
        if by_input {
            assert(t * g.rhs_rs + co * g.rhs_cs == t * c_out + co);
        } else {
            assert(t * g.rhs_rs + co * g.rhs_cs == ((co * c_in + c) * kh + u) * kw + v) by {
                assert(co * (c_in * kh * kw) + ((c * kh + u) * kw + v) == ((co * c_in + c) * kh
                    + u) * kw + v) by (nonlinear_arith);
            }
        }
    }
    exact::total_same(patch, product, flat);
    lemma_flattened(c_in, kh, kw, term);
    exact::total_same(patch, flat, |t: int| term(t / kw / kh, t / kw % kh, t % kw));
    lemma_over_same(
        c_in,
        kh,
        kw,
        term,
        |c: int, u: int, v: int|
            read(val, x, c_in, ah, aw, bi, oh, ow, c, u, v) * val(
                wt[factor_at(c_in, c_out, ah.k as int, aw.k as int, by_input, co, c, u, v)],
            ),
    );
}

/// A tap reads inside the input or before it.
proof fn lemma_tap_inside(ax: Axis, o: int, d: int)
    requires
        conv::axis_ok(ax),
    ensures
        -1 <= conv::tap(ax, o, d) < ax.n_in,
{
    if ax.transposed {
        let s = o + ax.pad - d;
        if s >= 0 {
            assert(0 <= s / ax.stride as int) by (nonlinear_arith)
                requires
                    s >= 0,
                    ax.stride >= 1,
            ;
        }
    }
}

/// A tap of a transposed convolution reads the number that comes to lie there when the input is
/// stretched.
proof fn lemma_stretched(ax: Axis, o: int, d: int)
    requires
        conv::axis_ok(ax),
        ax.transposed,
    ensures
        0 <= conv::tap(ax, o, d) ==> conv::tap(ax, o, d) == stretched(
            o + ax.pad - d,
            ax.stride as int,
        ),
        0 <= stretched(o + ax.pad - d, ax.stride as int) < ax.n_in ==> conv::tap(ax, o, d)
            == stretched(o + ax.pad - d, ax.stride as int),
{
    let s = o + ax.pad - d;
    if s < 0 {
        assert(s / (ax.stride as int) < 0) by (nonlinear_arith)
            requires
                s < 0,
                ax.stride >= 1,
        ;
    }
}

/// A convolution in two dimensions: every output is the bias of its channel plus the sum, over the
/// input channels and the kernel, of the factors times the pixels that the kernel lies on, where
/// it is moved by the strides and starts the padding before the plane.
pub proof fn conv2d_slides_its_kernel<A: Arith>(
    a: &A,
    val: spec_fn(A::T) -> real,
    x: Seq<A::T>,
    s: [usize; 4],
    w: &Conv2dWeight<A::T>,
    bias: Seq<A::T>,
    pad_h: usize,
    pad_w: usize,
    stride_h: usize,
    stride_w: usize,
    out: Seq<A::T>,
    b: int,
    co: int,
    i: int,
    j: int,
)
    requires
        exact::is_exact(a, val),
        exact::is_exact_gemm(a, val),
        conv::conv2d_ok(index::size4(s), s, w, bias, pad_h, pad_w, stride_h, stride_w),
        conv::is_conv2d(a, x, s, w, bias, pad_h, pad_w, stride_h, stride_w, out),
        0 <= b < s[0],
        0 <= co < w.out_ch,
        0 <= i <= (s[2] + 2 * pad_h - w.kh) / stride_h as int,
        0 <= j <= (s[3] + 2 * pad_w - w.kw) / stride_w as int,
    ensures
        ({
            let h = (s[2] + 2 * pad_h - w.kh) / stride_h as int + 1;
            let l = (s[3] + 2 * pad_w - w.kw) / stride_w as int + 1;
            val(out[((b * w.out_ch + co) * h + i) * l + j]) == slid2(
                val,
                x,
                s,
                w,
                pad_h,
                pad_w,
                stride_h,
                stride_w,
                b,
                co,
                i,
                j,
            ) + val(bias[co])
        }),
{
    reveal(conv::conv2d_ok);
    reveal(conv::is_conv2d);
    let ah = conv::forward_axis(s[2], pad_h, w.kh, stride_h, 1);
    let aw = conv::forward_axis(s[3], pad_w, w.kw, stride_w, 1);
    conv::lemma_forward_extent(s[2] as int, pad_h as int, w.kh as int, stride_h as int, 1);
    conv::lemma_forward_extent(s[3] as int, pad_w as int, w.kw as int, stride_w as int, 1);
    lemma_convolved(
        a,
        val,
        x,
        s[0] as int,
        s[1] as int,
        ah,
        aw,
        w.out_ch as int,
        w.data@,
        false,
        bias,
        out,
        b,
        co,
        i,
        j,
    );
    let f = |c: int, u: int, v: int|
        read(val, x, s[1] as int, ah, aw, b, i, j, c, u, v) * val(
            w.data@[factor_at(
                s[1] as int,
                w.out_ch as int,
                ah.k as int,
                aw.k as int,
                false,
                co,
                c,
                u,
                v,
            )],
        );
    let g = |c: int, u: int, v: int|
        pixel(
            val,
            x,
            s[1] as int,
            s[2] as int,
            s[3] as int,
            b,
            c,
            i * stride_h + u - pad_h,
            j * stride_w + v - pad_w,
        ) * val(w.data@[((co * w.in_ch + c) * w.kh + u) * w.kw + v]);
    assert forall|c: int, u: int, v: int|
        0 <= c < s[1] && 0 <= u < ah.k && 0 <= v < aw.k implies #[trigger] f(c, u, v) == g(
        c,
        u,
        v,
    ) by {
        assert(u * 1 == u && v * 1 == v);
    }
    lemma_over_same(s[1] as int, ah.k as int, aw.k as int, f, g);
}

/// A convolution in one dimension: as [`conv2d_slides_its_kernel`], with the taps of the kernel
/// `dilation` apart.
pub proof fn conv1d_slides_its_kernel<A: Arith>(
    a: &A,
    val: spec_fn(A::T) -> real,
    x: Seq<A::T>,
    s: [usize; 3],
    w: &Conv1dWeight<A::T>,
    bias: Seq<A::T>,
    pad: usize,
    stride: usize,
    dilation: usize,
    out: Seq<A::T>,
    b: int,
    co: int,
    i: int,
)
    requires
        exact::is_exact(a, val),
        exact::is_exact_gemm(a, val),
        conv::conv1d_ok(index::size3(s), s, w, bias, pad, stride, dilation),
        conv::is_conv1d(a, x, s, w, bias, pad, stride, dilation, out),
        0 <= b < s[0],
        0 <= co < w.out_ch,
        0 <= i <= (s[2] + 2 * pad - dilation * (w.k - 1) - 1) / stride as int,
    ensures
        ({
            let l = (s[2] + 2 * pad - dilation * (w.k - 1) - 1) / stride as int + 1;
            val(out[(b * w.out_ch + co) * l + i]) == slid1(
                val,
                x,
                s,
                w,
                pad,
                stride,
                dilation,
                b,
                co,
                i,
            ) + val(bias[co])
        }),
{
    reveal(conv::conv1d_ok);
    reveal(conv::is_conv1d);
    let ah = conv::forward_axis(s[2], pad, w.k, stride, dilation);
    let aw = conv::unit_axis();
    conv::lemma_forward_extent(
        s[2] as int,
        pad as int,
        w.k as int,
        stride as int,
        dilation as int,
    );
    assert(aw.n_out == 1 && aw.k == 1 && aw.n_in == 1 && conv::axis_ok(aw));
    lemma_convolved(
        a,
        val,
        x,
        s[0] as int,
        s[1] as int,
        ah,
        aw,
        w.out_ch as int,
        w.data@,
        false,
        bias,
        out,
        b,
        co,
        i,
        0,
    );
    let f = |c: int, u: int, v: int|
        read(val, x, s[1] as int, ah, aw, b, i, 0, c, u, v) * val(
            w.data@[factor_at(
                s[1] as int,
                w.out_ch as int,
                ah.k as int,
                aw.k as int,
                false,
                co,
                c,
                u,
                v,
            )],
        );
    let g = |c: int, u: int, v: int|
        pixel(
            val,
            x,
            s[1] as int,
            s[2] as int,
            1,
            b,
            c,
            i * stride + u * dilation - pad,
            0,
        ) * val(w.data@[(co * w.in_ch + c) * w.k + u]);
    assert forall|c: int, u: int, v: int|
        0 <= c < s[1] && 0 <= u < ah.k && 0 <= v < aw.k implies #[trigger] f(c, u, v) == g(
        c,
        u,
        v,
    ) by {
        assert(conv::tap(aw, 0, 0) == 0);
    }
    lemma_over_same(s[1] as int, ah.k as int, aw.k as int, f, g);
}

/// A transposed convolution in two dimensions: every output is the bias of its channel plus the
/// sum, over the input channels and the kernel, of the factors times the pixels that come to lie
/// as far back when the input is stretched by the strides and cut by the padding.
pub proof fn conv_transpose2d_spreads_its_kernel<A: Arith>(
    a: &A,
    val: spec_fn(A::T) -> real,
    x: Seq<A::T>,
    s: [usize; 4],
    w: &Conv2dWeight<A::T>,
    bias: Seq<A::T>,
    pad_h: usize,
    pad_w: usize,
    stride_h: usize,
    stride_w: usize,
    out: Seq<A::T>,
    b: int,
    co: int,
    i: int,
    j: int,
)
    requires
        exact::is_exact(a, val),
        exact::is_exact_gemm(a, val),
        conv::conv_transpose2d_ok(index::size4(s), s, w, bias, pad_h, pad_w, stride_h, stride_w),
        conv::is_conv_transpose2d(a, x, s, w, bias, pad_h, pad_w, stride_h, stride_w, out),
        0 <= b < s[0],
        0 <= co < w.out_ch,
        0 <= i < (s[2] - 1) * stride_h + w.kh - 2 * pad_h,
        0 <= j < (s[3] - 1) * stride_w + w.kw - 2 * pad_w,
    ensures
        ({
            let h = (s[2] - 1) * stride_h + w.kh - 2 * pad_h;
            let l = (s[3] - 1) * stride_w + w.kw - 2 * pad_w;
            val(out[((b * w.out_ch + co) * h + i) * l + j]) == spread2(
                val,
                x,
                s,
                w,
                pad_h,
                pad_w,
                stride_h,
                stride_w,
                b,
                co,
                i,
                j,
            ) + val(bias[co])
        }),
{
    reveal(conv::conv_transpose2d_ok);
    reveal(conv::is_conv_transpose2d);
    let ah = conv::transposed_axis(s[2], pad_h, w.kh, stride_h);
    let aw = conv::transposed_axis(s[3], pad_w, w.kw, stride_w);
    lemma_convolved(
        a,
        val,
        x,
        s[0] as int,
        s[1] as int,
        ah,
        aw,
        w.out_ch as int,
        w.data@,
        true,
        bias,
        out,
        b,
        co,
        i,
        j,
    );
    let f = |c: int, u: int, v: int|
        read(val, x, s[1] as int, ah, aw, b, i, j, c, u, v) * val(
            w.data@[factor_at(
                s[1] as int,
                w.out_ch as int,
                ah.k as int,
                aw.k as int,
                true,
                co,
                c,
                u,
                v,
            )],
        );
    let g = |c: int, u: int, v: int|
        pixel(
            val,
            x,
            s[1] as int,
            s[2] as int,
            s[3] as int,
            b,
            c,
            stretched(i + pad_h - u, stride_h as int),
            stretched(j + pad_w - v, stride_w as int),
        ) * val(w.data@[((c * w.kh + u) * w.kw + v) * w.out_ch + co]);
    assert forall|c: int, u: int, v: int|
        0 <= c < s[1] && 0 <= u < ah.k && 0 <= v < aw.k implies #[trigger] f(c, u, v) == g(
        c,
        u,
        v,
    ) by {
        lemma_stretched(ah, i, u);
        lemma_stretched(aw, j, v);
    }
    lemma_over_same(s[1] as int, ah.k as int, aw.k as int, f, g);
}

/// A transposed convolution in one dimension: as [`conv_transpose2d_spreads_its_kernel`].
pub proof fn conv_transpose1d_spreads_its_kernel<A: Arith>(
    a: &A,
    val: spec_fn(A::T) -> real,
    x: Seq<A::T>,
    s: [usize; 3],
    w: &Conv1dWeight<A::T>,
    bias: Seq<A::T>,
    pad: usize,
    stride: usize,
    out: Seq<A::T>,
    b: int,
    co: int,
    i: int,
)
    requires
        exact::is_exact(a, val),
        exact::is_exact_gemm(a, val),
        conv::conv_transpose1d_ok(index::size3(s), s, w, bias, pad, stride),
        conv::is_conv_transpose1d(a, x, s, w, bias, pad, stride, out),
        0 <= b < s[0],
        0 <= co < w.out_ch,
        0 <= i < (s[2] - 1) * stride + w.k - 2 * pad,
    ensures
        ({
            let l = (s[2] - 1) * stride + w.k - 2 * pad;
            val(out[(b * w.out_ch + co) * l + i]) == spread1(
                val,
                x,
                s,
                w,
                pad,
                stride,
                b,
                co,
                i,
            ) + val(bias[co])
        }),
{
    reveal(conv::conv_transpose1d_ok);
    reveal(conv::is_conv_transpose1d);
    let ah = conv::transposed_axis(s[2], pad, w.k, stride);
    let aw = conv::unit_axis();
    assert(aw.n_out == 1 && aw.k == 1 && aw.n_in == 1 && conv::axis_ok(aw));
    lemma_convolved(
        a,
        val,
        x,
        s[0] as int,
        s[1] as int,
        ah,
        aw,
        w.out_ch as int,
        w.data@,
        true,
        bias,
        out,
        b,
        co,
        i,
        0,
    );
    let f = |c: int, u: int, v: int|
        read(val, x, s[1] as int, ah, aw, b, i, 0, c, u, v) * val(
            w.data@[factor_at(
                s[1] as int,
                w.out_ch as int,
                ah.k as int,
                aw.k as int,
                true,
                co,
                c,
                u,
                v,
            )],
        );
    let g = |c: int, u: int, v: int|
        pixel(
            val,
            x,
            s[1] as int,
            s[2] as int,
            1,
            b,
            c,
            stretched(i + pad - u, stride as int),
            0,
        ) * val(w.data@[(c * w.k + u) * w.out_ch + co]);
    assert forall|c: int, u: int, v: int|
        0 <= c < s[1] && 0 <= u < ah.k && 0 <= v < aw.k implies #[trigger] f(c, u, v) == g(
        c,
        u,
        v,
    ) by {
        assert(conv::tap(aw, 0, 0) == 0);
        lemma_stretched(ah, i, u);
    }
    lemma_over_same(s[1] as int, ah.k as int, aw.k as int, f, g);
}

} // verus!
