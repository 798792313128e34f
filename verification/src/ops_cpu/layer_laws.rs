//! What the layers of the encoders and decoders compute, step by step, without rounding.
use vstd::prelude::*;
use crate::arith;
use crate::arith::Arith;
use crate::exact;
use crate::index;
use crate::model::Conv1dWeight;
use crate::model::Conv2dWeight;
use crate::model::DConvLayer;
use crate::model::FreqEmb;
use crate::model::HDecLayer;
use crate::model::HEncLayer;
use crate::model::TDecLayer;
use crate::model::TEncLayer;
use crate::ops_cpu::conv;
use crate::ops_cpu::conv_laws;
use crate::ops_cpu::dconv;
use crate::ops_cpu::decoder;
use crate::ops_cpu::decoder_laws;
use crate::ops_cpu::elementwise;
use crate::ops_cpu::encoder;
use crate::ops_cpu::forward;
use crate::ops_cpu::layout;
use crate::ops_cpu::norm;
use crate::ops_cpu::operator_laws;

verus! {

/// The functions that a network without rounding computes with: `val` says which number a value
/// stands for, `ex` is the exponential, `lg` the logarithm and `erf` the error function.
pub open spec fn is_unrounded<A: Arith>(
    a: &A,
    val: spec_fn(A::T) -> real,
    ex: spec_fn(real) -> real,
    lg: spec_fn(real) -> real,
    erf: spec_fn(real) -> real,
) -> bool {
    &&& exact::is_exact(a, val)
    &&& exact::is_exact_gemm(a, val)
    &&& exact::is_exact_order(a, val)
    &&& exact::is_exact_root(a, val)
    &&& exact::is_exact_erf(a, val, erf)
    &&& exact::is_exact_exponential(a, val, ex, lg)
}

/// `out` is `x`, of shape `s`, under the kernel `w`, plus the bias.
pub open spec fn is_slid2<T>(
    val: spec_fn(T) -> real,
    x: Seq<T>,
    s: [usize; 4],
    w: &Conv2dWeight<T>,
    bias: Seq<T>,
    pad_h: usize,
    pad_w: usize,
    stride_h: usize,
    stride_w: usize,
    out: Seq<T>,
) -> bool {
    let h = (s[2] + 2 * pad_h - w.kh) / stride_h as int + 1;
    let l = (s[3] + 2 * pad_w - w.kw) / stride_w as int + 1;
    forall|b: int, co: int, i: int, j: int|
        0 <= b < s[0] && 0 <= co < w.out_ch && 0 <= i < h && 0 <= j < l ==> #[trigger] is_slid2_at(
            val,
            x,
            s,
            w,
            bias,
            pad_h,
            pad_w,
            stride_h,
            stride_w,
            out,
            h,
            l,
            b,
            co,
            i,
            j,
        )
}

/// One number of [`is_slid2`].
pub open spec fn is_slid2_at<T>(
    val: spec_fn(T) -> real,
    x: Seq<T>,
    s: [usize; 4],
    w: &Conv2dWeight<T>,
    bias: Seq<T>,
    pad_h: usize,
    pad_w: usize,
    stride_h: usize,
    stride_w: usize,
    out: Seq<T>,
    h: int,
    l: int,
    b: int,
    co: int,
    i: int,
    j: int,
) -> bool {
    val(out[((b * w.out_ch + co) * h + i) * l + j]) == conv_laws::slid2(
        val,
        x,
        s,
        w,
        pad_h,
        pad_w,
        stride_h,
        stride_w,
        b,
        co,
        i,
        j,
    ) + val(bias[co])
}

/// `out` is `x`, of shape `s`, under the kernel `w`, plus the bias.
pub open spec fn is_slid1<T>(
    val: spec_fn(T) -> real,
    x: Seq<T>,
    s: [usize; 3],
    w: &Conv1dWeight<T>,
    bias: Seq<T>,
    pad: usize,
    stride: usize,
    dilation: usize,
    out: Seq<T>,
) -> bool {
    let l = (s[2] + 2 * pad - dilation * (w.k - 1) - 1) / stride as int + 1;
    forall|b: int, co: int, i: int|
        0 <= b < s[0] && 0 <= co < w.out_ch && 0 <= i < l ==> #[trigger] is_slid1_at(
            val,
            x,
            s,
            w,
            bias,
            pad,
            stride,
            dilation,
            out,
            l,
            b,
            co,
            i,
        )
}

/// One number of [`is_slid1`].
pub open spec fn is_slid1_at<T>(
    val: spec_fn(T) -> real,
    x: Seq<T>,
    s: [usize; 3],
    w: &Conv1dWeight<T>,
    bias: Seq<T>,
    pad: usize,
    stride: usize,
    dilation: usize,
    out: Seq<T>,
    l: int,
    b: int,
    co: int,
    i: int,
) -> bool {
    val(out[(b * w.out_ch + co) * l + i]) == conv_laws::slid1(
        val,
        x,
        s,
        w,
        pad,
        stride,
        dilation,
        b,
        co,
        i,
    ) + val(bias[co])
}

/// `out` is each of `x` times its normal share, where `c` is one over the root of two.
pub open spec fn is_normal_share<T>(
    val: spec_fn(T) -> real,
    erf: spec_fn(real) -> real,
    c: real,
    x: Seq<T>,
    out: Seq<T>,
) -> bool {
    &&& c > 0 as real
    &&& 2 as real * (c * c) == 1 as real
    &&& out.len() == x.len()
    &&& forall|i: int|
        0 <= i < x.len() ==> 2 as real * val(#[trigger] out[i]) == val(x[i]) * (1 as real + erf(
            val(x[i]) * c,
        ))
}

/// `out` is each of `x` times its normal share.
pub open spec fn is_half_gated<T>(
    val: spec_fn(T) -> real,
    erf: spec_fn(real) -> real,
    x: Seq<T>,
    out: Seq<T>,
) -> bool {
    exists|c: real| #[trigger] is_normal_share(val, erf, c, x, out)
}

/// `out` is the first half of the channels of `x`, each by the logistic share of the second.
pub open spec fn is_gated_by_half<T>(
    val: spec_fn(T) -> real,
    ex: spec_fn(real) -> real,
    x: Seq<T>,
    b: int,
    c: int,
    area: int,
    out: Seq<T>,
) -> bool {
    &&& out.len() == b * c * area
    &&& forall|bi: int, ci: int, t: int|
        0 <= bi < b && 0 <= ci < c && 0 <= t < area ==> #[trigger] is_gated_at(
            val,
            ex,
            x,
            c,
            area,
            out,
            bi,
            ci,
            t,
        )
}

/// One number of [`is_gated_by_half`].
pub open spec fn is_gated_at<T>(
    val: spec_fn(T) -> real,
    ex: spec_fn(real) -> real,
    x: Seq<T>,
    c: int,
    area: int,
    out: Seq<T>,
    bi: int,
    ci: int,
    t: int,
) -> bool {
    val(out[(bi * c + ci) * area + t]) * (1 as real + ex(
        -val(x[(bi * (2 * c) + c + ci) * area + t]),
    )) == val(x[(bi * (2 * c) + ci) * area + t])
}

/// Convolutions in two dimensions.
proof fn lemma_slid2<A: Arith>(
    a: &A,
    val: spec_fn(A::T) -> real,
    n: int,
    x: Seq<A::T>,
    s: [usize; 4],
    w: &Conv2dWeight<A::T>,
    bias: Seq<A::T>,
    pad_h: usize,
    pad_w: usize,
    stride_h: usize,
    stride_w: usize,
    out: Seq<A::T>,
)
    requires
        exact::is_exact(a, val),
        exact::is_exact_gemm(a, val),
        conv::conv2d_ok(n, s, w, bias, pad_h, pad_w, stride_h, stride_w),
        conv::is_conv2d(a, x, s, w, bias, pad_h, pad_w, stride_h, stride_w, out),
    ensures
        is_slid2(val, x, s, w, bias, pad_h, pad_w, stride_h, stride_w, out),
{
    assert(conv::conv2d_ok(index::size4(s), s, w, bias, pad_h, pad_w, stride_h, stride_w)) by {
        reveal(conv::conv2d_ok);
    }
    let h = (s[2] + 2 * pad_h - w.kh) / stride_h as int + 1;
    let l = (s[3] + 2 * pad_w - w.kw) / stride_w as int + 1;
    assert forall|b: int, co: int, i: int, j: int|
        0 <= b < s[0] && 0 <= co < w.out_ch && 0 <= i < h && 0 <= j < l implies #[trigger] is_slid2_at(
        val,
        x,
        s,
        w,
        bias,
        pad_h,
        pad_w,
        stride_h,
        stride_w,
        out,
        h,
        l,
        b,
        co,
        i,
        j,
    ) by {
        conv_laws::conv2d_slides_its_kernel(
            a,
            val,
            x,
            s,
            w,
            bias,
            pad_h,
            pad_w,
            stride_h,
            stride_w,
            out,
            b,
            co,
            i,
            j,
        );
    }
}

/// Convolutions in one dimension.
proof fn lemma_slid1<A: Arith>(
    a: &A,
    val: spec_fn(A::T) -> real,
    n: int,
    x: Seq<A::T>,
    s: [usize; 3],
    w: &Conv1dWeight<A::T>,
    bias: Seq<A::T>,
    pad: usize,
    stride: usize,
    dilation: usize,
    out: Seq<A::T>,
)
    requires
        exact::is_exact(a, val),
        exact::is_exact_gemm(a, val),
        conv::conv1d_ok(n, s, w, bias, pad, stride, dilation),
        conv::is_conv1d(a, x, s, w, bias, pad, stride, dilation, out),
    ensures
        is_slid1(val, x, s, w, bias, pad, stride, dilation, out),
{
    assert(conv::conv1d_ok(index::size3(s), s, w, bias, pad, stride, dilation)) by {
        reveal(conv::conv1d_ok);
        assert(s[0] * s[1] * s[2] * 1 == s[0] * s[1] * s[2]);
    }
    let l = (s[2] + 2 * pad - dilation * (w.k - 1) - 1) / stride as int + 1;
    assert forall|b: int, co: int, i: int|
        0 <= b < s[0] && 0 <= co < w.out_ch && 0 <= i < l implies #[trigger] is_slid1_at(
        val,
        x,
        s,
        w,
        bias,
        pad,
        stride,
        dilation,
        out,
        l,
        b,
        co,
        i,
    ) by {
        conv_laws::conv1d_slides_its_kernel(
            a,
            val,
            x,
            s,
            w,
            bias,
            pad,
            stride,
            dilation,
            out,
            b,
            co,
            i,
        );
    }
}

/// GELU.
proof fn lemma_gelu<A: Arith>(
    a: &A,
    val: spec_fn(A::T) -> real,
    erf: spec_fn(real) -> real,
    x: Seq<A::T>,
    out: Seq<A::T>,
)
    requires
        exact::is_exact(a, val),
        exact::is_exact_root(a, val),
        exact::is_exact_erf(a, val, erf),
        elementwise::is_gelu(a, x, out),
    ensures
        is_half_gated(val, erf, x, out),
{
    let c = operator_laws::gelu_takes_the_normal_share(a, val, erf, x, out);
    assert(is_normal_share(val, erf, c, x, out));
}

/// GLU.
proof fn lemma_glu<A: Arith>(
    a: &A,
    val: spec_fn(A::T) -> real,
    ex: spec_fn(real) -> real,
    lg: spec_fn(real) -> real,
    x: Seq<A::T>,
    b: int,
    c: int,
    area: int,
    out: Seq<A::T>,
)
    requires
        exact::is_exact(a, val),
        exact::is_exact_order(a, val),
        exact::is_exact_exponential(a, val, ex, lg),
        elementwise::is_glu(a, x, b, c, area, out),
    ensures
        is_gated_by_half(val, ex, x, b, c, area, out),
{
    assert(out.len() == b * c * area) by {
        reveal(elementwise::is_glu);
    }
    assert forall|bi: int, ci: int, t: int|
        0 <= bi < b && 0 <= ci < c && 0 <= t < area implies #[trigger] is_gated_at(
        val,
        ex,
        x,
        c,
        area,
        out,
        bi,
        ci,
        t,
    ) by {
        operator_laws::glu_gates_the_first_half(
            a,
            val,
            ex,
            lg,
            x,
            b,
            c,
            area,
            out,
            bi,
            ci,
            t,
        );
    }
}

/// A layer of the frequency encoder: a kernel of eight frequencies every four, GELU, the residual
/// layers for each frequency, a map to twice the channels, and GLU.
pub proof fn frequency_encoders_compute<A: Arith>(
    a: &A,
    val: spec_fn(A::T) -> real,
    ex: spec_fn(real) -> real,
    lg: spec_fn(real) -> real,
    erf: spec_fn(real) -> real,
    n: int,
    x: Seq<A::T>,
    s: [usize; 4],
    layer: &HEncLayer<A::T>,
    out: Seq<A::T>,
) -> (r: (Seq<A::T>, Seq<A::T>, Seq<A::T>, Seq<A::T>))
    requires
        is_unrounded(a, val, ex, lg, erf),
        encoder::henc_ok(n, s, layer),
        encoder::is_henc(a, x, s, layer, out),
    ensures
        ({
            let (c, g, d, w) = r;
            let h = encoder::henc_conv_shape(s, layer);
            let u = encoder::per_frequency_shape(h, layer.dconv.layers@);
            let t = encoder::henc_rewrite_shape(s, layer);
            &&& is_slid2(val, x, s, &layer.conv, layer.conv_bias.data@, 2, 0, 4, 1, c)
            &&& is_half_gated(val, erf, c, g)
            &&& encoder::is_per_frequency(a, g, h, layer.dconv.layers@, d)
            &&& is_slid2(val, d, u, &layer.rewrite, layer.rewrite_bias.data@, 0, 0, 1, 1, w)
            &&& is_gated_by_half(
                val,
                ex,
                w,
                s[0] as int,
                layer.conv.out_ch as int,
                t[2] * t[3],
                out,
            )
        }),
{
    reveal(encoder::is_henc);
    reveal(encoder::henc_ok);
    let h = encoder::henc_conv_shape(s, layer);
    let u = encoder::per_frequency_shape(h, layer.dconv.layers@);
    let t = encoder::henc_rewrite_shape(s, layer);
    let (c, g, d, w) = choose|c: Seq<A::T>, g: Seq<A::T>, d: Seq<A::T>, w: Seq<A::T>|
        {
            &&& #[trigger] conv::is_conv2d(
                a,
                x,
                s,
                &layer.conv,
                layer.conv_bias.data@,
                2,
                0,
                4,
                1,
                c,
            )
            &&& #[trigger] elementwise::is_gelu(a, c, g)
            &&& #[trigger] encoder::is_per_frequency(a, g, h, layer.dconv.layers@, d)
            &&& #[trigger] conv::is_conv2d(
                a,
                d,
                u,
                &layer.rewrite,
                layer.rewrite_bias.data@,
                0,
                0,
                1,
                1,
                w,
            )
            &&& elementwise::is_glu(a, w, t[0] as int, t[1] as int / 2, t[2] * t[3], out)
        };
    lemma_slid2(a, val, n, x, s, &layer.conv, layer.conv_bias.data@, 2, 0, 4, 1, c);
    lemma_gelu(a, val, erf, c, g);
    lemma_slid2(
        a,
        val,
        index::size4(u),
        d,
        u,
        &layer.rewrite,
        layer.rewrite_bias.data@,
        0,
        0,
        1,
        1,
        w,
    );
    lemma_glu(a, val, ex, lg, w, t[0] as int, t[1] as int / 2, t[2] * t[3], out);
    (c, g, d, w)
}

/// A layer of the time encoder: the rows are filled up with zeros to a multiple of four, then
/// come a kernel of eight samples every four, GELU, the residual layers, a map to twice the
/// channels, and GLU.
pub proof fn time_encoders_compute<A: Arith>(
    a: &A,
    val: spec_fn(A::T) -> real,
    ex: spec_fn(real) -> real,
    lg: spec_fn(real) -> real,
    erf: spec_fn(real) -> real,
    n: int,
    x: Seq<A::T>,
    s: [usize; 3],
    layer: &TEncLayer<A::T>,
    out: Seq<A::T>,
) -> (r: (A::T, Seq<A::T>, Seq<A::T>, Seq<A::T>, Seq<A::T>))
    requires
        is_unrounded(a, val, ex, lg, erf),
        encoder::tenc_ok(n, s, layer),
        encoder::is_tenc(a, x, s, layer, out),
    ensures
        ({
            let (z, c, g, d, w) = r;
            let full = [s[0], s[1], ((s[2] + 3) / 4 * 4) as usize];
            let t = encoder::tenc_rewrite_shape(s, layer);
            &&& val(z) == 0 as real
            &&& is_slid1(
                val,
                layout::padded(x, s[0] * s[1], s[2] as int, (s[2] + 3) / 4 * 4, z),
                full,
                &layer.conv,
                layer.conv_bias.data@,
                2,
                4,
                1,
                c,
            )
            &&& is_half_gated(val, erf, c, g)
            &&& dconv::is_dconv(
                a,
                g,
                encoder::tenc_conv_shape(s, layer),
                layer.dconv.layers@,
                d,
            )
            &&& is_slid1(
                val,
                d,
                encoder::tenc_dconv_shape(s, layer),
                &layer.rewrite,
                layer.rewrite_bias.data@,
                0,
                1,
                1,
                w,
            )
            &&& is_gated_by_half(
                val,
                ex,
                w,
                t[0] as int,
                layer.conv.out_ch as int,
                t[2] as int,
                out,
            )
        }),
{
    reveal(encoder::is_tenc);
    reveal(encoder::tenc_ok);
    let p = encoder::tenc_padded_shape(s);
    let h = encoder::tenc_conv_shape(s, layer);
    let e = encoder::tenc_dconv_shape(s, layer);
    let t = encoder::tenc_rewrite_shape(s, layer);
    let (z, c, g, d, w) = choose|
        z: A::T,
        c: Seq<A::T>,
        g: Seq<A::T>,
        d: Seq<A::T>,
        w: Seq<A::T>,
    |
        {
            &&& #[trigger] arith::is_zero(a, z)
            &&& #[trigger] conv::is_conv1d(
                a,
                layout::padded(x, s[0] * s[1], s[2] as int, p[2] as int, z),
                p,
                &layer.conv,
                layer.conv_bias.data@,
                2,
                4,
                1,
                c,
            )
            &&& #[trigger] elementwise::is_gelu(a, c, g)
            &&& #[trigger] dconv::is_dconv(a, g, h, layer.dconv.layers@, d)
            &&& #[trigger] conv::is_conv1d(
                a,
                d,
                e,
                &layer.rewrite,
                layer.rewrite_bias.data@,
                0,
                1,
                1,
                w,
            )
            &&& elementwise::is_glu(a, w, t[0] as int, t[1] as int / 2, t[2] as int, out)
        };
    assert(encoder::rounded_up(s[2] as int) == (s[2] + 3) / 4 * 4);
    assert(p =~= [s[0], s[1], ((s[2] + 3) / 4 * 4) as usize]);
    lemma_slid1(
        a,
        val,
        index::size3(p),
        layout::padded(x, s[0] * s[1], s[2] as int, p[2] as int, z),
        p,
        &layer.conv,
        layer.conv_bias.data@,
        2,
        4,
        1,
        c,
    );
    lemma_gelu(a, val, erf, c, g);
    lemma_slid1(
        a,
        val,
        index::size3(e),
        d,
        e,
        &layer.rewrite,
        layer.rewrite_bias.data@,
        0,
        1,
        1,
        w,
    );
    lemma_glu(a, val, ex, lg, w, t[0] as int, t[1] as int / 2, t[2] as int, out);
    (z, c, g, d, w)
}

/// Inside a layer of the frequency decoder: the sum of the input and the skip, a kernel of three
/// by three to twice the channels, GLU, and the residual layers for each frequency.
pub proof fn frequency_decoders_compute_inside<A: Arith>(
    a: &A,
    val: spec_fn(A::T) -> real,
    ex: spec_fn(real) -> real,
    lg: spec_fn(real) -> real,
    erf: spec_fn(real) -> real,
    x: Seq<A::T>,
    s: [usize; 4],
    skip: Seq<A::T>,
    layer: &HDecLayer<A::T>,
    mixed: Seq<A::T>,
) -> (r: (Seq<A::T>, Seq<A::T>, Seq<A::T>))
    requires
        is_unrounded(a, val, ex, lg, erf),
        decoder::hdec_ok(x.len() as int, s, skip.len() as int, s, layer),
        decoder_laws::is_hdec_inside(a, x, s, skip, layer, mixed),
    ensures
        ({
            let (sum, w, g) = r;
            let t = decoder::hdec_rewrite_shape(s, layer);
            &&& forall|i: int|
                0 <= i < x.len() && i < skip.len() ==> val(#[trigger] sum[i]) == val(x[i]) + val(
                    skip[i],
                )
            &&& is_slid2(val, sum, s, &layer.rewrite, layer.rewrite_bias.data@, 1, 1, 1, 1, w)
            &&& is_gated_by_half(val, ex, w, s[0] as int, s[1] as int, t[2] * t[3], g)
            &&& encoder::is_per_frequency(
                a,
                g,
                decoder::hdec_glu_shape(s, layer),
                layer.dconv.layers@,
                mixed,
            )
        }),
{
    reveal(decoder::hdec_ok);
    let t = decoder::hdec_rewrite_shape(s, layer);
    let (sum, w, g) = choose|sum: Seq<A::T>, w: Seq<A::T>, g: Seq<A::T>|
        {
            &&& #[trigger] decoder::is_zip_sum(a, x, skip, sum)
            &&& #[trigger] conv::is_conv2d(
                a,
                sum,
                s,
                &layer.rewrite,
                layer.rewrite_bias.data@,
                1,
                1,
                1,
                1,
                w,
            )
            &&& #[trigger] elementwise::is_glu(
                a,
                w,
                t[0] as int,
                t[1] as int / 2,
                t[2] * t[3],
                g,
            )
            &&& encoder::is_per_frequency(
                a,
                g,
                decoder::hdec_glu_shape(s, layer),
                layer.dconv.layers@,
                mixed,
            )
        };
    reveal(decoder::is_zip_sum);
    lemma_slid2(
        a,
        val,
        decoder::shorter(x.len() as int, skip.len() as int),
        sum,
        s,
        &layer.rewrite,
        layer.rewrite_bias.data@,
        1,
        1,
        1,
        1,
        w,
    );
    lemma_glu(a, val, ex, lg, w, t[0] as int, t[1] as int / 2, t[2] * t[3], g);
    (sum, w, g)
}

/// Inside a layer of the time decoder: a kernel of three to twice the channels on the sum of the
/// input and the skip, GLU, and the residual layers.
pub proof fn time_decoders_compute_inside<A: Arith>(
    a: &A,
    val: spec_fn(A::T) -> real,
    ex: spec_fn(real) -> real,
    lg: spec_fn(real) -> real,
    erf: spec_fn(real) -> real,
    x: Seq<A::T>,
    s: [usize; 3],
    skip: Seq<A::T>,
    skip_shape: [usize; 3],
    layer: &TDecLayer<A::T>,
    mixed: Seq<A::T>,
) -> (r: (Seq<A::T>, Seq<A::T>, Seq<A::T>))
    requires
        is_unrounded(a, val, ex, lg, erf),
        decoder::tdec_ok(x.len() as int, s, skip.len() as int, skip_shape, layer),
        decoder_laws::is_tdec_inside(a, x, s, skip, skip_shape, layer, mixed),
    ensures
        ({
            let (sum, w, g) = r;
            let t = decoder::tdec_rewrite_shape(s, layer);
            &&& sum.len() == s[0] * s[1] * s[2]
            &&& forall|row: int, i: int|
                0 <= row < s[0] * s[1] && 0 <= i < s[2] ==> #[trigger] is_row_sum_at(
                    val,
                    x,
                    s[2] as int,
                    skip,
                    skip_shape[2] as int,
                    sum,
                    row,
                    i,
                )
            &&& is_slid1(val, sum, s, &layer.rewrite, layer.rewrite_bias.data@, 1, 1, 1, w)
            &&& is_gated_by_half(val, ex, w, s[0] as int, t[1] as int / 2, t[2] as int, g)
            &&& dconv::is_dconv(
                a,
                g,
                decoder::tdec_glu_shape(s, layer),
                layer.dconv.layers@,
                mixed,
            )
        }),
{
    reveal(decoder::tdec_ok);
    let t = decoder::tdec_rewrite_shape(s, layer);
    let (sum, w, g) = choose|sum: Seq<A::T>, w: Seq<A::T>, g: Seq<A::T>|
        {
            &&& #[trigger] decoder::is_rows_sum(
                a,
                s[0] * s[1],
                x,
                s[2] as int,
                skip,
                skip_shape[2] as int,
                sum,
            )
            &&& #[trigger] conv::is_conv1d(
                a,
                sum,
                s,
                &layer.rewrite,
                layer.rewrite_bias.data@,
                1,
                1,
                1,
                w,
            )
            &&& #[trigger] elementwise::is_glu(
                a,
                w,
                t[0] as int,
                t[1] as int / 2,
                t[2] as int,
                g,
            )
            &&& dconv::is_dconv(
                a,
                g,
                decoder::tdec_glu_shape(s, layer),
                layer.dconv.layers@,
                mixed,
            )
        };
    reveal(decoder::is_rows_sum);
    assert forall|row: int, i: int|
        0 <= row < s[0] * s[1] && 0 <= i < s[2] implies #[trigger] is_row_sum_at(
        val,
        x,
        s[2] as int,
        skip,
        skip_shape[2] as int,
        sum,
        row,
        i,
    ) by {
        index::lemma_pair(row, i, s[0] * s[1], s[2] as int);
        let r = sum[row * s[2] + i];
    }
    lemma_slid1(
        a,
        val,
        index::size3(s),
        sum,
        s,
        &layer.rewrite,
        layer.rewrite_bias.data@,
        1,
        1,
        1,
        w,
    );
    lemma_glu(a, val, ex, lg, w, t[0] as int, t[1] as int / 2, t[2] as int, g);
    (sum, w, g)
}

/// Number `i` of row `row` is that of `x` plus that of `skip`, where `skip` has so many.
pub open spec fn is_row_sum_at<T>(
    val: spec_fn(T) -> real,
    x: Seq<T>,
    t: int,
    skip: Seq<T>,
    skip_t: int,
    sum: Seq<T>,
    row: int,
    i: int,
) -> bool {
    val(sum[row * t + i]) == val(x[row * t + i]) + if i < skip_t {
        val(skip[row * skip_t + i])
    } else {
        0 as real
    }
}

/// Inside a residual layer: a kernel of three with its taps apart, normalized over all, GELU, a
/// map to twice the channels, normalized over all, and GLU; the result counts by the scale.
pub proof fn residual_layers_compute<A: Arith>(
    a: &A,
    val: spec_fn(A::T) -> real,
    ex: spec_fn(real) -> real,
    lg: spec_fn(real) -> real,
    erf: spec_fn(real) -> real,
    n: int,
    x: Seq<A::T>,
    s: [usize; 3],
    layer: &DConvLayer<A::T>,
    dilation: usize,
    out: Seq<A::T>,
) -> (r: (Seq<A::T>, Seq<A::T>, Seq<A::T>, Seq<A::T>, Seq<A::T>, Seq<A::T>))
    requires
        is_unrounded(a, val, ex, lg, erf),
        dconv::dconv_layer_ok(n, s, layer, dilation),
        dconv::is_dconv_layer(a, x, s, layer, dilation, out),
    ensures
        ({
            let (c1, n1, g1, c2, n2, g2) = r;
            let h = dconv::compressed_shape(s, layer, dilation);
            let e = dconv::expanded_shape(s, layer, dilation);
            &&& is_slid1(
                val,
                x,
                s,
                &layer.conv1,
                layer.conv1_bias.data@,
                dilation,
                1,
                dilation,
                c1,
            )
            &&& norm::is_run_normalized(
                a,
                c1,
                h[1] as int,
                h[2] as int,
                layer.norm1.gamma@,
                layer.norm1.beta@,
                n1,
            )
            &&& is_half_gated(val, erf, n1, g1)
            &&& is_slid1(val, g1, h, &layer.conv2, layer.conv2_bias.data@, 0, 1, 1, c2)
            &&& norm::is_run_normalized(
                a,
                c2,
                e[1] as int,
                e[2] as int,
                layer.norm2.gamma@,
                layer.norm2.beta@,
                n2,
            )
            &&& is_gated_by_half(val, ex, n2, e[0] as int, s[1] as int, e[2] as int, g2)
            &&& out.len() == g2.len()
            &&& forall|i: int|
                0 <= i < out.len() ==> val(#[trigger] out[i]) == val(g2[i]) * val(
                    layer.scale.scale@[i / e[2] as int % s[1] as int],
                ) + val(layout::trimmed(x, s[0] * s[1], s[2] as int, 1, e[2] as int)[i])
        }),
{
    reveal(dconv::is_dconv_layer);
    reveal(dconv::dconv_layer_ok);
    let h = dconv::compressed_shape(s, layer, dilation);
    let e = dconv::expanded_shape(s, layer, dilation);
    let (c1, n1, g1, c2, n2, g2, sc) = choose|
        c1: Seq<A::T>,
        n1: Seq<A::T>,
        g1: Seq<A::T>,
        c2: Seq<A::T>,
        n2: Seq<A::T>,
        g2: Seq<A::T>,
        sc: Seq<A::T>,
    |
        {
            &&& #[trigger] conv::is_conv1d(
                a,
                x,
                s,
                &layer.conv1,
                layer.conv1_bias.data@,
                dilation,
                1,
                dilation,
                c1,
            )
            &&& #[trigger] norm::is_run_normalized(
                a,
                c1,
                h[1] as int,
                h[2] as int,
                layer.norm1.gamma@,
                layer.norm1.beta@,
                n1,
            )
            &&& #[trigger] elementwise::is_gelu(a, n1, g1)
            &&& #[trigger] conv::is_conv1d(
                a,
                g1,
                h,
                &layer.conv2,
                layer.conv2_bias.data@,
                0,
                1,
                1,
                c2,
            )
            &&& #[trigger] norm::is_run_normalized(
                a,
                c2,
                e[1] as int,
                e[2] as int,
                layer.norm2.gamma@,
                layer.norm2.beta@,
                n2,
            )
            &&& #[trigger] elementwise::is_glu(a, n2, e[0] as int, e[1] as int / 2, e[2] as int, g2)
            &&& #[trigger] elementwise::is_scaled(
                a,
                g2,
                e[1] as int / 2,
                e[2] as int,
                layer.scale.scale@,
                sc,
            )
            &&& elementwise::is_added(
                a,
                sc,
                layout::trimmed(x, s[0] * s[1], s[2] as int, 1, e[2] as int),
                out,
            )
        };
    lemma_slid1(
        a,
        val,
        n,
        x,
        s,
        &layer.conv1,
        layer.conv1_bias.data@,
        dilation,
        1,
        dilation,
        c1,
    );
    lemma_gelu(a, val, erf, n1, g1);
    lemma_slid1(
        a,
        val,
        index::size3(h),
        g1,
        h,
        &layer.conv2,
        layer.conv2_bias.data@,
        0,
        1,
        1,
        c2,
    );
    lemma_glu(a, val, ex, lg, n2, e[0] as int, e[1] as int / 2, e[2] as int, g2);
    let y = layout::trimmed(x, s[0] * s[1], s[2] as int, 1, e[2] as int);
    assert(out.len() == g2.len() && forall|i: int|
        0 <= i < out.len() ==> val(#[trigger] out[i]) == val(g2[i]) * val(
            layer.scale.scale@[i / e[2] as int % s[1] as int],
        ) + val(y[i])) by {
        reveal(elementwise::is_scaled);
        reveal(elementwise::is_added);
        assert forall|i: int| 0 <= i < out.len() implies val(#[trigger] out[i]) == val(g2[i]) * val(
            layer.scale.scale@[i / e[2] as int % s[1] as int],
        ) + val(y[i]) by {
            let (p, q) = (sc[i], out[i]);
        }
    }
    (c1, n1, g1, c2, n2, g2)
}

/// A layer of the time decoder that is not the last ends in GELU.
pub proof fn inner_layers_of_the_time_decoder_end_in_gelu<A: Arith>(
    a: &A,
    val: spec_fn(A::T) -> real,
    erf: spec_fn(real) -> real,
    x: Seq<A::T>,
    s: [usize; 3],
    skip: Seq<A::T>,
    skip_shape: [usize; 3],
    target: usize,
    layer: &TDecLayer<A::T>,
    last: &TDecLayer<A::T>,
    out: Seq<A::T>,
) -> (flat: Seq<A::T>)
    requires
        exact::is_exact(a, val),
        exact::is_exact_root(a, val),
        exact::is_exact_erf(a, val, erf),
        !layer.last,
        last.last,
        last.rewrite == layer.rewrite,
        last.rewrite_bias == layer.rewrite_bias,
        last.dconv == layer.dconv,
        last.conv_tr == layer.conv_tr,
        last.conv_tr_bias == layer.conv_tr_bias,
        decoder::is_tdec(a, x, s, skip, skip_shape, target, layer, out),
    ensures
        decoder::is_tdec(a, x, s, skip, skip_shape, target, last, flat),
        is_half_gated(val, erf, flat, out),
{
    reveal(decoder::is_tdec);
    let w = decoder::tdec_rewrite_shape(s, layer);
    let g = decoder::tdec_glu_shape(s, layer);
    let d = decoder::tdec_dconv_shape(s, layer);
    let u = decoder::tdec_tr_shape(s, layer);
    let (sum, rewritten, gated, mixed, up) = choose|
        sum: Seq<A::T>,
        rewritten: Seq<A::T>,
        gated: Seq<A::T>,
        mixed: Seq<A::T>,
        up: Seq<A::T>,
    |
        {
            &&& #[trigger] decoder::is_rows_sum(
                a,
                s[0] * s[1],
                x,
                s[2] as int,
                skip,
                skip_shape[2] as int,
                sum,
            )
            &&& #[trigger] conv::is_conv1d(
                a,
                sum,
                s,
                &layer.rewrite,
                layer.rewrite_bias.data@,
                1,
                1,
                1,
                rewritten,
            )
            &&& #[trigger] elementwise::is_glu(
                a,
                rewritten,
                w[0] as int,
                w[1] as int / 2,
                w[2] as int,
                gated,
            )
            &&& #[trigger] dconv::is_dconv(a, gated, g, layer.dconv.layers@, mixed)
            &&& #[trigger] conv::is_conv_transpose1d(
                a,
                mixed,
                d,
                &layer.conv_tr,
                layer.conv_tr_bias.data@,
                2,
                4,
                up,
            )
            &&& decoder::is_activated(a, layer.last, decoder::trimmed_time(up, u, target), out)
        };
    let flat = decoder::trimmed_time(up, u, target);
    assert(decoder::tdec_rewrite_shape(s, last) == w);
    assert(decoder::tdec_glu_shape(s, last) == g);
    assert(decoder::tdec_dconv_shape(s, last) == d);
    assert(decoder::tdec_tr_shape(s, last) == u);
    assert(decoder::is_activated(a, last.last, flat, flat));
    lemma_gelu(a, val, erf, flat, out);
    flat
}

/// A layer of the frequency decoder that is not the last ends in GELU.
pub proof fn inner_layers_of_the_frequency_decoder_end_in_gelu<A: Arith>(
    a: &A,
    val: spec_fn(A::T) -> real,
    erf: spec_fn(real) -> real,
    x: Seq<A::T>,
    s: [usize; 4],
    skip: Seq<A::T>,
    target: usize,
    layer: &HDecLayer<A::T>,
    last: &HDecLayer<A::T>,
    out: Seq<A::T>,
) -> (flat: Seq<A::T>)
    requires
        exact::is_exact(a, val),
        exact::is_exact_root(a, val),
        exact::is_exact_erf(a, val, erf),
        !layer.last,
        last.last,
        last.rewrite == layer.rewrite,
        last.rewrite_bias == layer.rewrite_bias,
        last.dconv == layer.dconv,
        last.conv_tr == layer.conv_tr,
        last.conv_tr_bias == layer.conv_tr_bias,
        decoder::is_hdec(a, x, s, skip, target, layer, out),
    ensures
        decoder::is_hdec(a, x, s, skip, target, last, flat),
        is_half_gated(val, erf, flat, out),
{
    reveal(decoder::is_hdec);
    let w = decoder::hdec_rewrite_shape(s, layer);
    let g = decoder::hdec_glu_shape(s, layer);
    let d = decoder::hdec_dconv_shape(s, layer);
    let u = decoder::hdec_tr_shape(s, layer);
    let (sum, rewritten, gated, mixed, up) = choose|
        sum: Seq<A::T>,
        rewritten: Seq<A::T>,
        gated: Seq<A::T>,
        mixed: Seq<A::T>,
        up: Seq<A::T>,
    |
        {
            &&& #[trigger] decoder::is_zip_sum(a, x, skip, sum)
            &&& #[trigger] conv::is_conv2d(
                a,
                sum,
                s,
                &layer.rewrite,
                layer.rewrite_bias.data@,
                1,
                1,
                1,
                1,
                rewritten,
            )
            &&& #[trigger] elementwise::is_glu(
                a,
                rewritten,
                w[0] as int,
                w[1] as int / 2,
                w[2] * w[3],
                gated,
            )
            &&& #[trigger] encoder::is_per_frequency(a, gated, g, layer.dconv.layers@, mixed)
            &&& #[trigger] conv::is_conv_transpose2d(
                a,
                mixed,
                d,
                &layer.conv_tr,
                layer.conv_tr_bias.data@,
                2,
                0,
                4,
                1,
                up,
            )
            &&& decoder::is_activated(a, layer.last, decoder::trimmed_freq(up, u, target), out)
        };
    let flat = decoder::trimmed_freq(up, u, target);
    assert(decoder::hdec_rewrite_shape(s, last) == w);
    assert(decoder::hdec_glu_shape(s, last) == g);
    assert(decoder::hdec_dconv_shape(s, last) == d);
    assert(decoder::hdec_tr_shape(s, last) == u);
    assert(decoder::is_activated(a, last.last, flat, flat));
    lemma_gelu(a, val, erf, flat, out);
    flat
}

/// The embedding of a frequency, a fifth of what is stored for it and the channel, is added to all
/// frames.
pub proof fn frequencies_are_embedded<A: Arith>(
    a: &A,
    val: spec_fn(A::T) -> real,
    x: Seq<A::T>,
    s: [usize; 4],
    emb: &FreqEmb<A::T>,
    out: Seq<A::T>,
    b: int,
    c: int,
    f: int,
    t: int,
)
    requires
        exact::is_exact(a, val),
        encoder::is_embedded(a, x, s, emb, out),
        x.len() == index::size4(s),
        0 <= b < s[0],
        0 <= c < s[1],
        0 <= f < s[2],
        0 <= t < s[3],
    ensures
        ({
            let p = ((b * s[1] + c) * s[2] + f) * s[3] + t;
            5 as real * (val(out[p]) - val(x[p])) == val(emb.data@[f * emb.dim + c])
        }),
{
    reveal(encoder::is_embedded);
    let p = index::pos4(b, c, f, t, s[1] as int, s[2] as int, s[3] as int);
    index::lemma_quad(b, c, f, t, s[0] as int, s[1] as int, s[2] as int, s[3] as int);
    let r = out[p];
    let e = emb.data@[f * emb.dim + c];
    assert(encoder::is_embedded_value(a, x[p], e, r));
    let (fifth, q) = choose|fifth: A::T, q: A::T|
        {
            &&& #[trigger] arith::is_ratio(a, 1, 5, fifth)
            &&& #[trigger] arith::is_product(a, e, fifth, q)
            &&& arith::is_sum(a, x[p], q, r)
        };
    let (y, z) = (val(e), val(fifth));
    assert(5 as real * (y * z) == y) by (nonlinear_arith)
        requires
            z == (1 as real) / (5 as real),
    ;
}

/// The first layer of the frequency encoder is followed by the embedding of the frequencies; each
/// other layer takes what the one before gave.
pub proof fn frequency_encoders_follow_each_other<A: Arith>(
    a: &A,
    x: Seq<A::T>,
    s: [usize; 4],
    layers: Seq<HEncLayer<A::T>>,
    emb: &FreqEmb<A::T>,
    outs: Seq<Seq<A::T>>,
    i: int,
) -> (h: Seq<A::T>)
    requires
        encoder::are_freq_outputs(a, x, s, layers, emb, outs),
        0 <= i < outs.len(),
    ensures
        encoder::is_henc(
            a,
            if i == 0 {
                x
            } else {
                outs[i - 1]
            },
            encoder::freq_chain_shape(s, layers, i),
            &layers[i],
            h,
        ),
        i == 0 ==> encoder::is_embedded(a, h, encoder::freq_chain_shape(s, layers, 1), emb, outs[0]),
        i > 0 ==> outs[i] == h,
{
    if i == 0 {
        choose|h: Seq<A::T>| #[trigger]
            encoder::is_henc(a, x, s, &layers[0], h) && encoder::is_embedded(
                a,
                h,
                encoder::freq_chain_shape(s, layers, 1),
                emb,
                outs[0],
            )
    } else {
        let l = layers[i];
        outs[i]
    }
}

/// The decoders go back the way that the encoders came: layer `i` of `n` is given what layer
/// `n - 1 - i` of the encoder of its branch gave, and brings back the extent that this layer had
/// been given.
pub proof fn decoders_go_back_the_way<A: Arith>(
    a: &A,
    x: Seq<A::T>,
    s: [usize; 4],
    fs: [usize; 4],
    enc: Seq<HEncLayer<A::T>>,
    skips: Seq<Seq<A::T>>,
    dec: Seq<HDecLayer<A::T>>,
    out: Seq<A::T>,
) -> (outs: Seq<Seq<A::T>>)
    requires
        forward::is_freq_decoded(a, x, s, fs, enc, skips, dec, out),
        skips.len() > 0,
    ensures
        outs.len() == skips.len(),
        out == outs[skips.len() - 1],
        forall|i: int|
            #![trigger outs[i]]
            0 <= i < outs.len() ==> decoder::is_hdec(
                a,
                if i == 0 {
                    x
                } else {
                    outs[i - 1]
                },
                forward::freq_decoded_shape(s, fs, enc, dec, skips.len() as int, i),
                skips[skips.len() - 1 - i],
                if i + 1 < skips.len() {
                    encoder::freq_chain_shape(fs, enc, skips.len() - 1 - i)[2]
                } else {
                    2048
                },
                &dec[i],
                outs[i],
            ),
{
    reveal(forward::is_freq_decoded);
    let outs = choose|outs: Seq<Seq<A::T>>| #[trigger]
        forward::are_freq_decoded(a, x, s, fs, enc, skips, dec, outs) && outs.len() == skips.len()
            && out == outs.last();
    assert forall|i: int|
        #![trigger outs[i]]
        0 <= i < outs.len() implies decoder::is_hdec(
        a,
        if i == 0 {
            x
        } else {
            outs[i - 1]
        },
        forward::freq_decoded_shape(s, fs, enc, dec, skips.len() as int, i),
        skips[skips.len() - 1 - i],
        if i + 1 < skips.len() {
            encoder::freq_chain_shape(fs, enc, skips.len() - 1 - i)[2]
        } else {
            2048
        },
        &dec[i],
        outs[i],
    ) by {
        let l = dec[i];
    }
    outs
}

/// As [`decoders_go_back_the_way`], for the time.
pub proof fn time_decoders_go_back_the_way<A: Arith>(
    a: &A,
    x: Seq<A::T>,
    s: [usize; 3],
    ts: [usize; 3],
    enc: Seq<TEncLayer<A::T>>,
    skips: Seq<Seq<A::T>>,
    dec: Seq<TDecLayer<A::T>>,
    out: Seq<A::T>,
) -> (outs: Seq<Seq<A::T>>)
    requires
        forward::is_time_decoded(a, x, s, ts, enc, skips, dec, out),
        skips.len() > 0,
    ensures
        outs.len() == skips.len(),
        out == outs[skips.len() - 1],
        forall|i: int|
            #![trigger outs[i]]
            0 <= i < outs.len() ==> decoder::is_tdec(
                a,
                if i == 0 {
                    x
                } else {
                    outs[i - 1]
                },
                forward::time_decoded_shape(s, ts, enc, dec, skips.len() as int, i),
                skips[skips.len() - 1 - i],
                forward::time_chain_shape(ts, enc, skips.len() - i),
                forward::time_chain_shape(ts, enc, skips.len() - 1 - i)[2],
                &dec[i],
                outs[i],
            ),
{
    reveal(forward::is_time_decoded);
    let outs = choose|outs: Seq<Seq<A::T>>| #[trigger]
        forward::are_time_decoded(a, x, s, ts, enc, skips, dec, outs) && outs.len() == skips.len()
            && out == outs.last();
    assert forall|i: int|
        #![trigger outs[i]]
        0 <= i < outs.len() implies decoder::is_tdec(
        a,
        if i == 0 {
            x
        } else {
            outs[i - 1]
        },
        forward::time_decoded_shape(s, ts, enc, dec, skips.len() as int, i),
        skips[skips.len() - 1 - i],
        forward::time_chain_shape(ts, enc, skips.len() - i),
        forward::time_chain_shape(ts, enc, skips.len() - 1 - i)[2],
        &dec[i],
        outs[i],
    ) by {
        let l = dec[i];
    }
    outs
}

} // verus!
