//! What the last layer of a decoder gives, and what the layers before it do.
use vstd::prelude::*;
use crate::arith::Arith;
use crate::exact;
use crate::index;
use crate::model::HDecLayer;
use crate::model::TDecLayer;
use crate::ops_cpu::conv;
use crate::ops_cpu::conv_laws;
use crate::ops_cpu::dconv;
use crate::ops_cpu::decoder;
use crate::ops_cpu::elementwise;
use crate::ops_cpu::encoder;

verus! {

/// `mixed` is what comes out of the residual layers of a layer of the time decoder, before the
/// transposed convolution.
pub open spec fn is_tdec_inside<A: Arith>(
    a: &A,
    x: Seq<A::T>,
    s: [usize; 3],
    skip: Seq<A::T>,
    skip_shape: [usize; 3],
    layer: &TDecLayer<A::T>,
    mixed: Seq<A::T>,
) -> bool {
    let w = decoder::tdec_rewrite_shape(s, layer);
    exists|sum: Seq<A::T>, rewritten: Seq<A::T>, gated: Seq<A::T>|
        {
            &&& #[trigger] decoder::is_rows_sum(
                a,
                s[0] * s[1],
                x,
                s[2] as int,
                skip,
                skip_shape[2] as int,
                sum,
            )
            &&& #[trigger] conv::is_conv1d(
                a,
                sum,
                s,
                &layer.rewrite,
                layer.rewrite_bias.data@,
                1,
                1,
                1,
                rewritten,
            )
            &&& #[trigger] elementwise::is_glu(
                a,
                rewritten,
                w[0] as int,
                w[1] as int / 2,
                w[2] as int,
                gated,
            )
            &&& dconv::is_dconv(
                a,
                gated,
                decoder::tdec_glu_shape(s, layer),
                layer.dconv.layers@,
                mixed,
            )
        }
}

/// What the transposed convolution of a layer of the time decoder makes of `mixed`, without its
/// bias.
pub open spec fn tdec_spread<T>(
    val: spec_fn(T) -> real,
    s: [usize; 3],
    layer: &TDecLayer<T>,
    mixed: Seq<T>,
    b: int,
    co: int,
    t: int,
) -> real {
    conv_laws::spread1(
        val,
        mixed,
        decoder::tdec_dconv_shape(s, layer),
        &layer.conv_tr,
        2,
        4,
        b,
        co,
        t,
    )
}

/// The last layer of the time decoder ends in its transposed convolution: a sample is the bias of
/// its channel plus what the convolution makes of the layers before, and nothing is done to the
/// sum, which is below zero as well as above.
pub proof fn last_of_the_time_decoder_is_affine<A: Arith>(
    a: &A,
    val: spec_fn(A::T) -> real,
    x: Seq<A::T>,
    s: [usize; 3],
    skip: Seq<A::T>,
    skip_shape: [usize; 3],
    target: usize,
    layer: &TDecLayer<A::T>,
    out: Seq<A::T>,
) -> (mixed: Seq<A::T>)
    requires
        exact::is_exact(a, val),
        exact::is_exact_gemm(a, val),
        decoder::tdec_ok(x.len() as int, s, skip.len() as int, skip_shape, layer),
        layer.last,
        decoder::is_tdec(a, x, s, skip, skip_shape, target, layer, out),
    ensures
        is_tdec_inside(a, x, s, skip, skip_shape, layer, mixed),
        forall|b: int, co: int, t: int|
            0 <= b < s[0] && 0 <= co < layer.conv_tr.out_ch && 0 <= t < decoder::tdec_shape(
                s,
                target,
                layer,
            )[2] ==> val(
                #[trigger] out[index::pos3(
                    b,
                    co,
                    t,
                    layer.conv_tr.out_ch as int,
                    decoder::tdec_shape(s, target, layer)[2] as int,
                )],
            ) == tdec_spread(val, s, layer, mixed, b, co, t) + val(layer.conv_tr_bias.data@[co]),
{
    reveal(decoder::is_tdec);
    reveal(decoder::tdec_ok);
    reveal(decoder::tdec_shape);
    let w = decoder::tdec_rewrite_shape(s, layer);
    let g = decoder::tdec_glu_shape(s, layer);
    let d = decoder::tdec_dconv_shape(s, layer);
    let u = decoder::tdec_tr_shape(s, layer);
    let bias = layer.conv_tr_bias.data@;
    let (sum, rewritten, gated, mixed, up) = choose|
        sum: Seq<A::T>,
        rewritten: Seq<A::T>,
        gated: Seq<A::T>,
        mixed: Seq<A::T>,
        up: Seq<A::T>,
    |
        {
            &&& #[trigger] decoder::is_rows_sum(
                a,
                s[0] * s[1],
                x,
                s[2] as int,
                skip,
                skip_shape[2] as int,
                sum,
            )
            &&& #[trigger] conv::is_conv1d(
                a,
                sum,
                s,
                &layer.rewrite,
                layer.rewrite_bias.data@,
                1,
                1,
                1,
                rewritten,
            )
            &&& #[trigger] elementwise::is_glu(
                a,
                rewritten,
                w[0] as int,
                w[1] as int / 2,
                w[2] as int,
                gated,
            )
            &&& #[trigger] dconv::is_dconv(a, gated, g, layer.dconv.layers@, mixed)
            &&& #[trigger] conv::is_conv_transpose1d(
                a,
                mixed,
                d,
                &layer.conv_tr,
                bias,
                2,
                4,
                up,
            )
            &&& decoder::is_activated(a, layer.last, decoder::trimmed_time(up, u, target), out)
        };
    let (rows, n, l) = (layer.conv_tr.out_ch as int, u[2] as int, decoder::tdec_shape(
        s,
        target,
        layer,
    )[2] as int);
    lemma_dconv_batch(g, layer.dconv.layers@, layer.dconv.layers@.len() as int);
    assert(n == (d[2] - 1) * 4 + layer.conv_tr.k - 4) by {
        reveal(conv::conv_transpose1d_ok);
    }
    assert forall|b: int, co: int, t: int|
        0 <= b < s[0] && 0 <= co < rows && 0 <= t < l implies val(
        #[trigger] out[index::pos3(b, co, t, rows, l)],
    ) == tdec_spread(val, s, layer, mixed, b, co, t) + val(bias[co]) by {
        conv_laws::conv_transpose1d_spreads_its_kernel(
            a,
            val,
            mixed,
            d,
            &layer.conv_tr,
            bias,
            2,
            4,
            up,
            b,
            co,
            t,
        );
        assert(out[index::pos3(b, co, t, rows, l)] == up[index::pos3(b, co, t, rows, n)]) by {
            if n > target {
                index::lemma_triple(b, co, t, s[0] as int, rows, l);
                assert(index::pos3(b, co, t, rows, l) / 1 == index::pos3(b, co, t, rows, l));
                index::lemma_pair(b, co, s[0] as int, rows);
                index::lemma_pair(index::pos2(b, co, rows), t, s[0] * rows, l);
                assert(s[0] * rows * l * 1 == s[0] * rows * l);
            }
        }
    }
    mixed
}

/// The residual layers keep the batch.
proof fn lemma_dconv_batch<T>(s: [usize; 3], v: Seq<crate::model::DConvLayer<T>>, j: int)
    ensures
        dconv::dconv_shape(s, v, j)[0] == s[0],
    decreases j,
{
    reveal(dconv::dconv_layer_shape);
    if j > 0 {
        lemma_dconv_batch(s, v, j - 1);
    }
}

/// A layer of the time decoder that differs from another in the bias of its transposed convolution
/// alone.
pub open spec fn differ_in_bias_t<T>(l: &TDecLayer<T>, k: &TDecLayer<T>) -> bool {
    &&& l.rewrite == k.rewrite
    &&& l.rewrite_bias == k.rewrite_bias
    &&& l.dconv == k.dconv
    &&& l.conv_tr == k.conv_tr
    &&& l.last == k.last
}

/// Where the layers before give one result, adding to the bias of the last layer of the time
/// decoder adds the same to every sample of its channel.
pub proof fn bias_of_the_time_decoder_is_added<A: Arith>(
    a: &A,
    val: spec_fn(A::T) -> real,
    x: Seq<A::T>,
    s: [usize; 3],
    skip: Seq<A::T>,
    skip_shape: [usize; 3],
    target: usize,
    l: &TDecLayer<A::T>,
    k: &TDecLayer<A::T>,
    p: Seq<A::T>,
    q: Seq<A::T>,
    b: int,
    co: int,
    t: int,
)
    requires
        exact::is_exact(a, val),
        exact::is_exact_gemm(a, val),
        decoder::tdec_ok(x.len() as int, s, skip.len() as int, skip_shape, l),
        decoder::tdec_ok(x.len() as int, s, skip.len() as int, skip_shape, k),
        l.last,
        differ_in_bias_t(l, k),
        forall|m: Seq<A::T>, n: Seq<A::T>| #[trigger]
            is_tdec_inside(a, x, s, skip, skip_shape, l, m) && #[trigger] is_tdec_inside(
                a,
                x,
                s,
                skip,
                skip_shape,
                l,
                n,
            ) ==> m == n,
        decoder::is_tdec(a, x, s, skip, skip_shape, target, l, p),
        decoder::is_tdec(a, x, s, skip, skip_shape, target, k, q),
        0 <= b < s[0],
        0 <= co < l.conv_tr.out_ch,
        0 <= t < decoder::tdec_shape(s, target, l)[2],
    ensures
        ({
            let at = index::pos3(
                b,
                co,
                t,
                l.conv_tr.out_ch as int,
                decoder::tdec_shape(s, target, l)[2] as int,
            );
            val(q[at]) - val(p[at]) == val(k.conv_tr_bias.data@[co]) - val(
                l.conv_tr_bias.data@[co],
            )
        }),
{
    let m = last_of_the_time_decoder_is_affine(a, val, x, s, skip, skip_shape, target, l, p);
    let n = last_of_the_time_decoder_is_affine(a, val, x, s, skip, skip_shape, target, k, q);
    reveal(decoder::tdec_shape);
    assert(is_tdec_inside(a, x, s, skip, skip_shape, l, n));
    let at = index::pos3(
        b,
        co,
        t,
        l.conv_tr.out_ch as int,
        decoder::tdec_shape(s, target, l)[2] as int,
    );
    assert(decoder::tdec_shape(s, target, k) == decoder::tdec_shape(s, target, l));
    assert(m == n);
    assert(tdec_spread(val, s, l, m, b, co, t) == tdec_spread(val, s, k, n, b, co, t));
    assert(val(p[at]) == tdec_spread(val, s, l, m, b, co, t) + val(l.conv_tr_bias.data@[co]));
    assert(val(q[at]) == tdec_spread(val, s, k, n, b, co, t) + val(k.conv_tr_bias.data@[co]));
}

/// `mixed` is what comes out of the residual layers of a layer of the frequency decoder, before
/// the transposed convolution.
pub open spec fn is_hdec_inside<A: Arith>(
    a: &A,
    x: Seq<A::T>,
    s: [usize; 4],
    skip: Seq<A::T>,
    layer: &HDecLayer<A::T>,
    mixed: Seq<A::T>,
) -> bool {
    let w = decoder::hdec_rewrite_shape(s, layer);
    exists|sum: Seq<A::T>, rewritten: Seq<A::T>, gated: Seq<A::T>|
        {
            &&& #[trigger] decoder::is_zip_sum(a, x, skip, sum)
            &&& #[trigger] conv::is_conv2d(
                a,
                sum,
                s,
                &layer.rewrite,
                layer.rewrite_bias.data@,
                1,
                1,
                1,
                1,
                rewritten,
            )
            &&& #[trigger] elementwise::is_glu(
                a,
                rewritten,
                w[0] as int,
                w[1] as int / 2,
                w[2] * w[3],
                gated,
            )
            &&& encoder::is_per_frequency(
                a,
                gated,
                decoder::hdec_glu_shape(s, layer),
                layer.dconv.layers@,
                mixed,
            )
        }
}

/// What the transposed convolution of a layer of the frequency decoder makes of `mixed`, without
/// its bias.
pub open spec fn hdec_spread<T>(
    val: spec_fn(T) -> real,
    s: [usize; 4],
    layer: &HDecLayer<T>,
    mixed: Seq<T>,
    b: int,
    co: int,
    f: int,
    t: int,
) -> real {
    conv_laws::spread2(
        val,
        mixed,
        decoder::hdec_dconv_shape(s, layer),
        &layer.conv_tr,
        2,
        0,
        4,
        1,
        b,
        co,
        f,
        t,
    )
}

/// The last layer of the frequency decoder ends in its transposed convolution: an entry is the
/// bias of its channel plus what the convolution makes of the layers before, and nothing is done
/// to the sum, which is below zero as well as above.
pub proof fn last_of_the_frequency_decoder_is_affine<A: Arith>(
    a: &A,
    val: spec_fn(A::T) -> real,
    x: Seq<A::T>,
    s: [usize; 4],
    skip: Seq<A::T>,
    target: usize,
    layer: &HDecLayer<A::T>,
    out: Seq<A::T>,
) -> (mixed: Seq<A::T>)
    requires
        exact::is_exact(a, val),
        exact::is_exact_gemm(a, val),
        decoder::hdec_ok(x.len() as int, s, skip.len() as int, s, layer),
        layer.last,
        decoder::is_hdec(a, x, s, skip, target, layer, out),
    ensures
        is_hdec_inside(a, x, s, skip, layer, mixed),
        forall|b: int, co: int, f: int, t: int|
            0 <= b < decoder::hdec_shape(s, target, layer)[0] && 0 <= co < layer.conv_tr.out_ch
                && 0 <= f < decoder::hdec_shape(s, target, layer)[2] && 0 <= t
                < decoder::hdec_shape(s, target, layer)[3] ==> val(
                #[trigger] out[index::pos4(
                    b,
                    co,
                    f,
                    t,
                    layer.conv_tr.out_ch as int,
                    decoder::hdec_shape(s, target, layer)[2] as int,
                    decoder::hdec_shape(s, target, layer)[3] as int,
                )],
            ) == hdec_spread(val, s, layer, mixed, b, co, f, t) + val(
                layer.conv_tr_bias.data@[co],
            ),
{
    reveal(decoder::is_hdec);
    reveal(decoder::hdec_ok);
    reveal(decoder::hdec_shape);
    let w = decoder::hdec_rewrite_shape(s, layer);
    let g = decoder::hdec_glu_shape(s, layer);
    let d = decoder::hdec_dconv_shape(s, layer);
    let u = decoder::hdec_tr_shape(s, layer);
    let bias = layer.conv_tr_bias.data@;
    let (sum, rewritten, gated, mixed, up) = choose|
        sum: Seq<A::T>,
        rewritten: Seq<A::T>,
        gated: Seq<A::T>,
        mixed: Seq<A::T>,
        up: Seq<A::T>,
    |
        {
            &&& #[trigger] decoder::is_zip_sum(a, x, skip, sum)
            &&& #[trigger] conv::is_conv2d(
                a,
                sum,
                s,
                &layer.rewrite,
                layer.rewrite_bias.data@,
                1,
                1,
                1,
                1,
                rewritten,
            )
            &&& #[trigger] elementwise::is_glu(
                a,
                rewritten,
                w[0] as int,
                w[1] as int / 2,
                w[2] * w[3],
                gated,
            )
            &&& #[trigger] encoder::is_per_frequency(a, gated, g, layer.dconv.layers@, mixed)
            &&& #[trigger] conv::is_conv_transpose2d(
                a,
                mixed,
                d,
                &layer.conv_tr,
                bias,
                2,
                0,
                4,
                1,
                up,
            )
            &&& decoder::is_activated(a, layer.last, decoder::trimmed_freq(up, u, target), out)
        };
    let sh = decoder::hdec_shape(s, target, layer);
    let (rows, n, l, m) = (layer.conv_tr.out_ch as int, u[2] as int, sh[2] as int, u[3] as int);
    assert(n == (d[2] - 1) * 4 + layer.conv_tr.kh - 4 && m == (d[3] - 1) * 1 + layer.conv_tr.kw)
        by {
        reveal(conv::conv_transpose2d_ok);
    }
    assert forall|b: int, co: int, f: int, t: int|
        0 <= b < sh[0] && 0 <= co < rows && 0 <= f < l && 0 <= t < m implies val(
        #[trigger] out[index::pos4(b, co, f, t, rows, l, m)],
    ) == hdec_spread(val, s, layer, mixed, b, co, f, t) + val(bias[co]) by {
        conv_laws::conv_transpose2d_spreads_its_kernel(
            a,
            val,
            mixed,
            d,
            &layer.conv_tr,
            bias,
            2,
            0,
            4,
            1,
            up,
            b,
            co,
            f,
            t,
        );
        assert(out[index::pos4(b, co, f, t, rows, l, m)] == up[index::pos4(
            b,
            co,
            f,
            t,
            rows,
            n,
            m,
        )]) by {
            if n > target {
                index::lemma_pair(b, co, sh[0] as int, rows);
                index::lemma_triple(index::pos2(b, co, rows), f, t, sh[0] * rows, l, m);
            }
        }
    }
    mixed
}

/// A layer of the frequency decoder that differs from another in the bias of its transposed
/// convolution alone.
pub open spec fn differ_in_bias<T>(l: &HDecLayer<T>, k: &HDecLayer<T>) -> bool {
    &&& l.rewrite == k.rewrite
    &&& l.rewrite_bias == k.rewrite_bias
    &&& l.dconv == k.dconv
    &&& l.conv_tr == k.conv_tr
    &&& l.last == k.last
}

/// Where the layers before give one result, adding to the bias of the last layer of the frequency
/// decoder adds the same to every entry of its channel.
pub proof fn bias_of_the_frequency_decoder_is_added<A: Arith>(
    a: &A,
    val: spec_fn(A::T) -> real,
    x: Seq<A::T>,
    s: [usize; 4],
    skip: Seq<A::T>,
    target: usize,
    l: &HDecLayer<A::T>,
    k: &HDecLayer<A::T>,
    p: Seq<A::T>,
    q: Seq<A::T>,
    b: int,
    co: int,
    f: int,
    t: int,
)
    requires
        exact::is_exact(a, val),
        exact::is_exact_gemm(a, val),
        decoder::hdec_ok(x.len() as int, s, skip.len() as int, s, l),
        decoder::hdec_ok(x.len() as int, s, skip.len() as int, s, k),
        l.last,
        differ_in_bias(l, k),
        forall|m: Seq<A::T>, n: Seq<A::T>| #[trigger]
            is_hdec_inside(a, x, s, skip, l, m) && #[trigger] is_hdec_inside(a, x, s, skip, l, n)
                ==> m == n,
        decoder::is_hdec(a, x, s, skip, target, l, p),
        decoder::is_hdec(a, x, s, skip, target, k, q),
        0 <= b < decoder::hdec_shape(s, target, l)[0],
        0 <= co < l.conv_tr.out_ch,
        0 <= f < decoder::hdec_shape(s, target, l)[2],
        0 <= t < decoder::hdec_shape(s, target, l)[3],
    ensures
        ({
            let at = index::pos4(
                b,
                co,
                f,
                t,
                l.conv_tr.out_ch as int,
                decoder::hdec_shape(s, target, l)[2] as int,
                decoder::hdec_shape(s, target, l)[3] as int,
            );
            val(q[at]) - val(p[at]) == val(k.conv_tr_bias.data@[co]) - val(
                l.conv_tr_bias.data@[co],
            )
        }),
{
    let m = last_of_the_frequency_decoder_is_affine(a, val, x, s, skip, target, l, p);
    let n = last_of_the_frequency_decoder_is_affine(a, val, x, s, skip, target, k, q);
    reveal(decoder::hdec_shape);
    assert(is_hdec_inside(a, x, s, skip, l, n));
    let at = index::pos4(
        b,
        co,
        f,
        t,
        l.conv_tr.out_ch as int,
        decoder::hdec_shape(s, target, l)[2] as int,
        decoder::hdec_shape(s, target, l)[3] as int,
    );
    assert(decoder::hdec_shape(s, target, k) == decoder::hdec_shape(s, target, l));
    assert(m == n);
    assert(hdec_spread(val, s, l, m, b, co, f, t) == hdec_spread(val, s, k, n, b, co, f, t));
    assert(val(p[at]) == hdec_spread(val, s, l, m, b, co, f, t) + val(l.conv_tr_bias.data@[co]));
    assert(val(q[at]) == hdec_spread(val, s, k, n, b, co, f, t) + val(k.conv_tr_bias.data@[co]));
}

} // verus!
