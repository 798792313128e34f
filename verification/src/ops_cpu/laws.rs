//! What holds of the operators together.
use vstd::prelude::*;
use crate::arith;
use crate::arith::Arith;
use crate::dsp::Dsp;
use crate::error::DemucsError;
use crate::exact;
use crate::index;
use crate::loading;
use crate::model::CrossDomainTransformer;
use crate::model::HDecLayer;
use crate::model::TDecLayer;
use crate::model::TransformerLayerWeights;
use crate::ops_cpu::attention;
use crate::ops_cpu::conv;
use crate::ops_cpu::decoder;
use crate::ops_cpu::elementwise;
use crate::ops_cpu::encoder;
use crate::ops_cpu::extents;
use crate::ops_cpu::layout;
use crate::ops_cpu::standardize;
use crate::ops_cpu::stems;
use crate::ops_cpu::transformer;
use crate::raw_tensor;
use crate::raw_tensor::RawTensorView;
use crate::Stem;
use crate::T_LAYERS;

verus! {

/// The order of two numbers does not matter to their sum.
pub open spec fn sums_commute<A: Arith>(a: &A) -> bool {
    forall|x: A::T, y: A::T, r: A::T| #[trigger]
        arith::is_sum(a, x, y, r) ==> arith::is_sum(a, y, x, r)
}

/// Adding nothing changes no number.
pub open spec fn zero_is_neutral<A: Arith>(a: &A) -> bool {
    forall|x: A::T, z: A::T|
        #![trigger arith::is_zero(a, z), arith::is_sum(a, x, z, x)]
        arith::is_zero(a, z) ==> arith::is_sum(a, x, z, x)
}

/// A layer of the frequency decoder gives the same for its input and the skip exchanged.
pub proof fn hdec_is_symmetric<A: Arith>(
    a: &A,
    x: Seq<A::T>,
    s: [usize; 4],
    skip: Seq<A::T>,
    target: usize,
    layer: &HDecLayer<A::T>,
    out: Seq<A::T>,
)
    requires
        sums_commute(a),
        decoder::is_hdec(a, x, s, skip, target, layer, out),
    ensures
        decoder::is_hdec(a, skip, s, x, target, layer, out),
{
    reveal(decoder::is_hdec);
    reveal(decoder::is_zip_sum);
    assert forall|sum: Seq<A::T>| #[trigger] decoder::is_zip_sum(a, x, skip, sum) implies
        decoder::is_zip_sum(a, skip, x, sum) by {
        assert forall|i: int| 0 <= i < sum.len() implies arith::is_sum(
            a,
            skip[i],
            x[i],
            #[trigger] sum[i],
        ) by {
            assert(arith::is_sum(a, x[i], skip[i], sum[i]));
        }
    }
}

/// Where an entry of a tensor cut down to `keep` of its middle axis was before.
proof fn lemma_trimmed_from(p: int, r: int, n: int, t: int, keep: int)
    requires
        0 <= r,
        0 <= keep <= n,
        0 <= t,
        0 <= p < r * keep * t,
    ensures
        0 <= index::pos3(p / t / keep, p / t % keep, p % t, n, t) < r * n * t,
{
    index::lemma_untriple(p, r, keep, t);
    index::lemma_triple(p / t / keep, p / t % keep, p % t, r, n, t);
}

/// An activation keeps the length.
proof fn lemma_activated_len<A: Arith>(a: &A, last: bool, x: Seq<A::T>, out: Seq<A::T>)
    requires
        decoder::is_activated(a, last, x, out),
    ensures
        out.len() == x.len(),
{
    reveal(elementwise::is_gelu);
}

/// What is cut off after an activation can be cut off before it.
proof fn lemma_activation_is_cut<A: Arith>(
    a: &A,
    last: bool,
    x: Seq<A::T>,
    r: int,
    n: int,
    t: int,
    keep: int,
    out: Seq<A::T>,
)
    requires
        decoder::is_activated(a, last, x, out),
        x.len() == r * n * t,
        0 <= r,
        0 <= keep <= n,
        0 <= t,
    ensures
        decoder::is_activated(
            a,
            last,
            layout::trimmed(x, r, n, t, keep),
            layout::trimmed(out, r, n, t, keep),
        ),
{
    reveal(elementwise::is_gelu);
    if !last {
        let inv = choose|inv: A::T| #[trigger]
            elementwise::is_inv_sqrt2(a, inv) && out.len() == x.len() && forall|i: int|
                0 <= i < x.len() ==> elementwise::is_gelu_value(a, inv, x[i], #[trigger] out[i]);
        let cx = layout::trimmed(x, r, n, t, keep);
        let co = layout::trimmed(out, r, n, t, keep);
        assert forall|p: int| 0 <= p < cx.len() implies elementwise::is_gelu_value(
            a,
            inv,
            cx[p],
            #[trigger] co[p],
        ) by {
            lemma_trimmed_from(p, r, n, t, keep);
            let q = index::pos3(p / t / keep, p / t % keep, p % t, n, t);
            assert(elementwise::is_gelu_value(a, inv, x[q], out[q]));
        }
    }
}

/// With a lower target a layer of the frequency decoder gives what it gives with one that cuts
/// nothing off, without the frequencies from the target on.
pub proof fn hdec_is_cut_at_target<A: Arith>(
    a: &A,
    x: Seq<A::T>,
    s: [usize; 4],
    skip: Seq<A::T>,
    full: usize,
    target: usize,
    layer: &HDecLayer<A::T>,
    out: Seq<A::T>,
)
    requires
        decoder::hdec_tr_shape(s, layer)[2] <= full,
        decoder::is_hdec(a, x, s, skip, full, layer, out),
    ensures
        decoder::is_hdec(
            a,
            x,
            s,
            skip,
            target,
            layer,
            decoder::trimmed_freq(out, decoder::hdec_tr_shape(s, layer), target),
        ),
{
    reveal(decoder::is_hdec);
    let u = decoder::hdec_tr_shape(s, layer);
    let d = decoder::hdec_dconv_shape(s, layer);
    assert forall|mixed: Seq<A::T>, up: Seq<A::T>|
        #[trigger] conv::is_conv_transpose2d(
            a,
            mixed,
            d,
            &layer.conv_tr,
            layer.conv_tr_bias.data@,
            2,
            0,
            4,
            1,
            up,
        ) && decoder::is_activated(
            a,
            layer.last,
            decoder::trimmed_freq(up, u, full),
            out,
        ) implies decoder::is_activated(
        a,
        layer.last,
        decoder::trimmed_freq(up, u, target),
        decoder::trimmed_freq(out, u, target),
    ) by {
        reveal(conv::is_conv_transpose2d);
        assert(up.len() == u[0] * u[1] * (u[2] * u[3]));
        assert(u[0] * u[1] * (u[2] * u[3]) == u[0] * u[1] * u[2] * u[3]) by (nonlinear_arith);
        assert(0 <= u[0] * u[1]) by (nonlinear_arith);
        if u[2] > target {
            lemma_activation_is_cut(
                a,
                layer.last,
                up,
                u[0] * u[1],
                u[2] as int,
                u[3] as int,
                target as int,
                out,
            );
        }
    }
}

/// With a lower target a layer of the time decoder gives what it gives with one that cuts
/// nothing off, without the samples from the target on.
pub proof fn tdec_is_cut_at_target<A: Arith>(
    a: &A,
    x: Seq<A::T>,
    s: [usize; 3],
    skip: Seq<A::T>,
    skip_shape: [usize; 3],
    full: usize,
    target: usize,
    layer: &TDecLayer<A::T>,
    out: Seq<A::T>,
)
    requires
        decoder::tdec_tr_shape(s, layer)[2] <= full,
        decoder::is_tdec(a, x, s, skip, skip_shape, full, layer, out),
    ensures
        decoder::is_tdec(
            a,
            x,
            s,
            skip,
            skip_shape,
            target,
            layer,
            decoder::trimmed_time(out, decoder::tdec_tr_shape(s, layer), target),
        ),
{
    reveal(decoder::is_tdec);
    let u = decoder::tdec_tr_shape(s, layer);
    let d = decoder::tdec_dconv_shape(s, layer);
    assert forall|mixed: Seq<A::T>, up: Seq<A::T>|
        #[trigger] conv::is_conv_transpose1d(
            a,
            mixed,
            d,
            &layer.conv_tr,
            layer.conv_tr_bias.data@,
            2,
            4,
            up,
        ) && decoder::is_activated(
            a,
            layer.last,
            decoder::trimmed_time(up, u, full),
            out,
        ) implies decoder::is_activated(
        a,
        layer.last,
        decoder::trimmed_time(up, u, target),
        decoder::trimmed_time(out, u, target),
    ) by {
        reveal(conv::is_conv_transpose1d);
        assert(up.len() == u[0] * u[1] * (u[2] * 1));
        assert(u[0] * u[1] * (u[2] * 1) == u[0] * u[1] * u[2] * 1) by (nonlinear_arith);
        assert(0 <= u[0] * u[1]) by (nonlinear_arith);
        if u[2] > target {
            lemma_activation_is_cut(
                a,
                layer.last,
                up,
                u[0] * u[1],
                u[2] as int,
                1,
                target as int,
                out,
            );
        }
    }
}

/// A layer of the frequency decoder gives `[batch, channels, frequencies, frames]` with the
/// channels of its last convolution and four times the frequencies, up to the target.
pub proof fn hdec_grows_fourfold<A: Arith>(
    a: &A,
    x: Seq<A::T>,
    s: [usize; 4],
    skip: Seq<A::T>,
    target: usize,
    layer: &HDecLayer<A::T>,
    out: Seq<A::T>,
)
    requires
        extents::plain_hdec(layer),
        decoder::hdec_ok(x.len() as int, s, skip.len() as int, s, layer),
        decoder::is_hdec(a, x, s, skip, target, layer, out),
    ensures
        decoder::hdec_shape(s, target, layer)[0] == s[0],
        decoder::hdec_shape(s, target, layer)[1] == layer.conv_tr.out_ch,
        decoder::hdec_shape(s, target, layer)[2] == decoder::shorter(4 * s[2], target as int),
        decoder::hdec_shape(s, target, layer)[3] == s[3],
        out.len() == index::size4(decoder::hdec_shape(s, target, layer)),
{
    extents::hdec_extents(x.len() as int, s, skip.len() as int, s, target, layer);
    reveal(decoder::is_hdec);
    reveal(decoder::hdec_shape);
    let u = decoder::hdec_tr_shape(s, layer);
    let d = decoder::hdec_dconv_shape(s, layer);
    let (mixed, up) = choose|mixed: Seq<A::T>, up: Seq<A::T>|
        {
            &&& #[trigger] conv::is_conv_transpose2d(
                a,
                mixed,
                d,
                &layer.conv_tr,
                layer.conv_tr_bias.data@,
                2,
                0,
                4,
                1,
                up,
            )
            &&& decoder::is_activated(a, layer.last, decoder::trimmed_freq(up, u, target), out)
        };
    reveal(conv::is_conv_transpose2d);
    assert(up.len() == u[0] * u[1] * (u[2] * u[3]));
    assert(u[0] * u[1] * (u[2] * u[3]) == u[0] * u[1] * u[2] * u[3]) by (nonlinear_arith);
    assert(0 <= u[0] * u[1] * target * u[3]) by (nonlinear_arith);
    lemma_activated_len(a, layer.last, decoder::trimmed_freq(up, u, target), out);
}

/// A layer of the time decoder gives `[batch, channels, samples]` with the channels of its last
/// convolution and four times the samples, up to the target.
pub proof fn tdec_grows_fourfold<A: Arith>(
    a: &A,
    x: Seq<A::T>,
    s: [usize; 3],
    skip: Seq<A::T>,
    skip_shape: [usize; 3],
    target: usize,
    layer: &TDecLayer<A::T>,
    out: Seq<A::T>,
)
    requires
        extents::plain_tdec(layer),
        decoder::tdec_ok(x.len() as int, s, skip.len() as int, skip_shape, layer),
        decoder::is_tdec(a, x, s, skip, skip_shape, target, layer, out),
    ensures
        decoder::tdec_shape(s, target, layer)[0] == s[0],
        decoder::tdec_shape(s, target, layer)[1] == layer.conv_tr.out_ch,
        decoder::tdec_shape(s, target, layer)[2] == decoder::shorter(4 * s[2], target as int),
        out.len() == index::size3(decoder::tdec_shape(s, target, layer)),
{
    extents::tdec_extents(x.len() as int, s, skip.len() as int, skip_shape, target, layer);
    reveal(decoder::is_tdec);
    reveal(decoder::tdec_shape);
    let u = decoder::tdec_tr_shape(s, layer);
    let d = decoder::tdec_dconv_shape(s, layer);
    let (mixed, up) = choose|mixed: Seq<A::T>, up: Seq<A::T>|
        {
            &&& #[trigger] conv::is_conv_transpose1d(
                a,
                mixed,
                d,
                &layer.conv_tr,
                layer.conv_tr_bias.data@,
                2,
                4,
                up,
            )
            &&& decoder::is_activated(a, layer.last, decoder::trimmed_time(up, u, target), out)
        };
    reveal(conv::is_conv_transpose1d);
    assert(up.len() == u[0] * u[1] * (u[2] * 1));
    assert(u[0] * u[1] * (u[2] * 1) == u[0] * u[1] * u[2]) by (nonlinear_arith);
    assert(0 <= u[0] * u[1] * target * 1) by (nonlinear_arith);
    lemma_activated_len(a, layer.last, decoder::trimmed_time(up, u, target), out);
}

/// The rows of `skip` brought to the length `t`: cut off, or filled up with `z`.
pub open spec fn fitted_rows<T>(skip: Seq<T>, rows: int, skip_t: int, t: int, z: T) -> Seq<T> {
    if skip_t > t {
        layout::trimmed(skip, rows, skip_t, 1, t)
    } else {
        layout::padded(skip, rows, skip_t, t, z)
    }
}

/// A skip whose rows have another length than those of the input counts in a layer of the time
/// decoder as if it were cut off, or filled up with zeros.
pub proof fn tdec_fits_the_skip<A: Arith>(
    a: &A,
    x: Seq<A::T>,
    s: [usize; 3],
    skip: Seq<A::T>,
    skip_shape: [usize; 3],
    target: usize,
    layer: &TDecLayer<A::T>,
    out: Seq<A::T>,
    z: A::T,
)
    requires
        zero_is_neutral(a),
        arith::is_zero(a, z),
        decoder::is_tdec(a, x, s, skip, skip_shape, target, layer, out),
    ensures
        decoder::is_tdec(
            a,
            x,
            s,
            fitted_rows(skip, s[0] * s[1], skip_shape[2] as int, s[2] as int, z),
            s,
            target,
            layer,
            out,
        ),
{
    reveal(decoder::is_tdec);
    reveal(decoder::is_rows_sum);
    let rows = s[0] * s[1];
    let t = s[2] as int;
    let skip_t = skip_shape[2] as int;
    let fitted = fitted_rows(skip, rows, skip_t, t, z);
    assert(0 <= rows) by (nonlinear_arith)
        requires
            rows == s[0] * s[1],
    ;
    assert forall|sum: Seq<A::T>| #[trigger]
        decoder::is_rows_sum(a, rows, x, t, skip, skip_t, sum) implies decoder::is_rows_sum(
        a,
        rows,
        x,
        t,
        fitted,
        t,
        sum,
    ) by {
        assert forall|i: int| 0 <= i < sum.len() implies decoder::is_row_sum(
            a,
            x,
            t,
            fitted,
            t,
            i,
            #[trigger] sum[i],
        ) by {
            index::lemma_unpair(i, rows, t);
            assert(decoder::is_row_sum(a, x, t, skip, skip_t, i, sum[i]));
            assert(index::pos2(i / t, i % t, t) == i);
            if skip_t > t {
                assert(rows * t * 1 == rows * t);
                assert(i / 1 == i && i % 1 == 0);
                assert(fitted[i] == skip[index::pos3(i / 1 / t, i / 1 % t, i % 1, skip_t, 1)]);
                assert(index::pos3(i / 1 / t, i / 1 % t, i % 1, skip_t, 1) == index::pos2(
                    i / t,
                    i % t,
                    skip_t,
                ));
            } else {
                if i % t >= skip_t {
                    assert(fitted[i] == z);
                    assert(arith::is_sum(a, x[i], z, x[i]));
                }
            }
        }
    }
}

/// Without rounding, the scale at which the embedding of the frequencies is loaded and the one
/// at which it is added make two: what is added is twice the stored number.
pub proof fn embedding_counts_twice<A: Arith>(
    a: &A,
    val: spec_fn(A::T) -> real,
    t: RawTensorView,
    i: int,
    stored: A::T,
    e: A::T,
    v: A::T,
    r: A::T,
)
    requires
        exact::is_exact(a, val),
        forall|x: A::T| #[trigger] raw_tensor::is_element(a, t, i, x) ==> x == stored,
        loading::is_tenfold_element(a, t, i, e),
        encoder::is_embedded_value(a, v, e, r),
    ensures
        val(r) == val(v) + 2 as real * val(stored),
{
    let (x, ten) = choose|x: A::T, ten: A::T|
        {
            &&& #[trigger] raw_tensor::is_element(a, t, i, x)
            &&& #[trigger] arith::is_ratio(a, 10, 1, ten)
            &&& arith::is_product(a, x, ten, e)
        };
    let (fifth, p) = choose|fifth: A::T, p: A::T|
        {
            &&& #[trigger] arith::is_ratio(a, 1, 5, fifth)
            &&& #[trigger] arith::is_product(a, e, fifth, p)
            &&& arith::is_sum(a, v, p, r)
        };
    let s = val(stored);
    assert(val(ten) == 10 as real && val(fifth) == 1 as real / 5 as real);
    assert(s * (10 as real) * (1 as real / 5 as real) == 2 as real * s) by (nonlinear_arith);
}

/// `r` may be what standardizing `v` with the mean `m` and the deviation `d`, and restoring it
/// with the same, gives.
pub open spec fn is_round_trip<A: Arith>(a: &A, v: A::T, m: A::T, d: A::T, r: A::T) -> bool {
    exists|q: A::T| #[trigger]
        standardize::is_standardized_value(a, v, m, d, q) && standardize::is_restored_value(
            a,
            q,
            m,
            d,
            r,
        )
}

/// Standardizing and restoring treats each number of a batch by itself and keeps the rest.
pub proof fn restored_after_standardized<A: Arith>(
    a: &A,
    x: Seq<A::T>,
    b: int,
    n: int,
    mean: Seq<A::T>,
    std: Seq<A::T>,
    between: Seq<A::T>,
    out: Seq<A::T>,
)
    requires
        standardize::is_standardized(a, x, b, n, mean, std, between),
        standardize::is_restored(a, between, b, n, mean, std, out),
    ensures
        out.len() == x.len(),
        forall|i: int|
            0 <= i < x.len() && i < b * n ==> is_round_trip(
                a,
                x[i],
                mean[i / n],
                std[i / n],
                #[trigger] out[i],
            ),
        forall|i: int| 0 <= i < x.len() && i >= b * n ==> #[trigger] out[i] == x[i],
{
    reveal(standardize::is_standardized);
    reveal(standardize::is_restored);
    assert forall|i: int| 0 <= i < x.len() && i < b * n implies is_round_trip(
        a,
        x[i],
        mean[i / n],
        std[i / n],
        #[trigger] out[i],
    ) by {
        let q = between[i];
        assert(standardize::is_standardized_value(a, x[i], mean[i / n], std[i / n], q));
    }
    assert forall|i: int| 0 <= i < x.len() && i >= b * n implies #[trigger] out[i] == x[i] by {
        let q = between[i];
    }
}

/// How far two numbers are apart.
pub open spec fn distance(x: real, y: real) -> real {
    if x >= y {
        x - y
    } else {
        y - x
    }
}

/// Without rounding, standardizing and restoring moves a number towards the mean by a factor of
/// `d / (d + 1/100000)`, where `d` is the deviation, and so by `1/100000 / (d + 1/100000)` of its
/// distance from the mean.
pub proof fn round_trip_is_close<A: Arith>(
    a: &A,
    val: spec_fn(A::T) -> real,
    v: A::T,
    m: A::T,
    d: A::T,
    r: A::T,
)
    requires
        exact::is_exact(a, val),
        0 as real <= val(d),
        is_round_trip(a, v, m, d, r),
    ensures
        val(r) == val(m) + (val(v) - val(m)) * val(d) / (val(d) + 1 as real / 100000 as real),
        distance(val(r), val(v)) == distance(val(v), val(m)) * (1 as real / 100000 as real) / (val(
            d,
        ) + 1 as real / 100000 as real),
{
    let q = choose|q: A::T| #[trigger]
        standardize::is_standardized_value(a, v, m, d, q) && standardize::is_restored_value(
            a,
            q,
            m,
            d,
            r,
        );
    let (eps, s, e) = choose|eps: A::T, s: A::T, e: A::T|
        {
            &&& #[trigger] arith::is_ratio(a, 1, 100000, eps)
            &&& #[trigger] arith::is_sum(a, d, eps, s)
            &&& #[trigger] arith::is_difference(a, v, m, e)
            &&& arith::is_quotient(a, e, s, q)
        };
    let p = choose|p: A::T| #[trigger]
        arith::is_product(a, q, d, p) && arith::is_sum(a, p, m, r);
    let h = 1 as real / 100000 as real;
    let w = val(d) + h;
    assert(val(q) == (val(v) - val(m)) / w);
    let (qv, dv, vv, mv) = (val(q), val(d), val(v), val(m));
    assert(qv * w == vv - mv) by (nonlinear_arith)
        requires
            qv == (vv - mv) / w,
            w > 0 as real,
    ;
    assert(qv * dv == (vv - mv) * dv / w) by (nonlinear_arith)
        requires
            qv * w == vv - mv,
            w > 0 as real,
    ;
    assert(vv - (qv * dv + mv) == (vv - mv) * h / w) by (nonlinear_arith)
        requires
            qv * w == vv - mv,
            w == dv + h,
            w > 0 as real,
    ;
    assert((vv - mv) * h / w >= 0 as real <==> vv - mv >= 0 as real) by (nonlinear_arith)
        requires
            w > 0 as real,
            h > 0 as real,
    ;
    assert((mv - vv) * h / w == 0 as real - (vv - mv) * h / w) by (nonlinear_arith)
        requires
            w > 0 as real,
    ;
}

/// The two channels at `c` of a spectrogram are the same after all frames from `frames` on have
/// been cut off.
proof fn lemma_channel_pair<T>(x: Seq<T>, c_all: int, bins: int, t_full: int, frames: int, c: int)
    requires
        0 <= c,
        c + 2 <= c_all,
        0 <= bins,
        0 <= frames <= t_full,
        c_all * (bins * t_full) <= x.len(),
    ensures
        stems::channel_pair(x, bins, t_full, frames, c) == stems::channel_pair(
            layout::trimmed(x, c_all * bins, t_full, 1, frames),
            bins,
            frames,
            frames,
            c,
        ),
{
    let y = layout::trimmed(x, c_all * bins, t_full, 1, frames);
    let l = stems::channel_pair(x, bins, t_full, frames, c);
    let r = stems::channel_pair(y, bins, frames, frames, c);
    let px = x.subrange(c * (bins * t_full), (c + 2) * (bins * t_full));
    let py = y.subrange(c * (bins * frames), (c + 2) * (bins * frames));
    assert(y.len() == c_all * bins * frames) by {
        assert(0 <= c_all * bins * frames) by (nonlinear_arith)
            requires
                0 <= c_all,
                0 <= bins,
                0 <= frames,
        ;
        assert(c_all * bins * frames * 1 == c_all * bins * frames);
    }
    assert(0 <= c * (bins * t_full) && (c + 2) * (bins * t_full) <= c_all * (bins * t_full) && c * (
    bins * t_full) <= (c + 2) * (bins * t_full)) by (nonlinear_arith)
        requires
            0 <= c,
            c + 2 <= c_all,
            0 <= bins,
            0 <= t_full,
    ;
    assert(0 <= c * (bins * frames) && (c + 2) * (bins * frames) <= c_all * bins * frames && c * (
    bins * frames) <= (c + 2) * (bins * frames)) by (nonlinear_arith)
        requires
            0 <= c,
            c + 2 <= c_all,
            0 <= bins,
            0 <= frames,
    ;
    assert forall|p: int| 0 <= p < l.len() implies l[p] == r[p] by {
        assert(2 * bins * frames * 1 == 2 * bins * frames);
        index::lemma_unpair(p, 2 * bins, frames);
        let i = p / frames;
        let j = p % frames;
        assert(p / 1 == p && p % 1 == 0);
        index::lemma_pair(i, j, 2 * bins, t_full);
        assert(index::pos3(p / 1 / frames, p / 1 % frames, p % 1, t_full, 1) == i * t_full + j);
        assert(index::pos3(p / 1 / frames, p / 1 % frames, p % 1, frames, 1) == p);
        assert(2 * bins * t_full == (c + 2) * (bins * t_full) - c * (bins * t_full))
            by (nonlinear_arith);
        assert(2 * bins * frames == (c + 2) * (bins * frames) - c * (bins * frames))
            by (nonlinear_arith);
        assert(l[p] == px[i * t_full + j]);
        assert(l[p] == x[c * (bins * t_full) + (i * t_full + j)]);
        assert(r[p] == py[p]);
        let q = c * (bins * frames) + p;
        assert(r[p] == y[q]);
        let row = c * bins + i;
        assert(q == row * frames + j) by (nonlinear_arith)
            requires
                q == c * (bins * frames) + p,
                p == i * frames + j,
                row == c * bins + i,
        ;
        assert(0 <= row < c_all * bins) by (nonlinear_arith)
            requires
                row == c * bins + i,
                0 <= i < 2 * bins,
                0 <= c,
                c + 2 <= c_all,
                0 <= bins,
        ;
        index::lemma_pair(row, j, c_all * bins, frames);
        assert(q / 1 == q && q % 1 == 0);
        assert(y[q] == x[index::pos3(q / 1 / frames, q / 1 % frames, q % 1, t_full, 1)]);
        assert(index::pos3(row, j, 0, t_full, 1) == row * t_full + j);
        assert(row * t_full + j == c * (bins * t_full) + (i * t_full + j)) by (nonlinear_arith)
            requires
                row == c * bins + i,
        ;
    }
    assert(l =~= r);
}

/// A stem is the same after all frames that it does not take have been cut off the
/// spectrogram.
pub proof fn stems_take_the_first_frames<D: Dsp>(
    d: &D,
    x: Seq<D::T>,
    s: [usize; 4],
    cut: [usize; 4],
    padded_len: usize,
    time: Seq<D::T>,
    time_len: int,
    n: int,
    k: int,
    stem: Stem<D::T>,
)
    requires
        0 <= k,
        4 * (k + 1) <= s[1],
        s[1] * (s[2] * s[3]) <= x.len(),
        cut[1] == s[1],
        cut[2] == s[2],
        cut[3] <= s[3],
    ensures
        stems::is_stem(
            d,
            x,
            s,
            cut[3] as int,
            padded_len,
            time,
            time_len,
            n,
            k,
            stem,
        ) <==> stems::is_stem(
            d,
            layout::trimmed(x, s[1] * s[2], s[3] as int, 1, cut[3] as int),
            cut,
            cut[3] as int,
            padded_len,
            time,
            time_len,
            n,
            k,
            stem,
        ),
{
    let y = layout::trimmed(x, s[1] * s[2], s[3] as int, 1, cut[3] as int);
    let f = cut[3] as int;
    lemma_channel_pair(x, s[1] as int, s[2] as int, s[3] as int, f, 4 * k);
    lemma_channel_pair(x, s[1] as int, s[2] as int, s[3] as int, f, 4 * k + 2);
    assert forall|r: core::result::Result<Vec<D::T>, DemucsError>, c: int|
        c == 4 * k || c == 4 * k + 2 implies #[trigger] stems::is_channel_wave(
        d,
        x,
        s,
        f,
        c,
        padded_len,
        r,
    ) == stems::is_channel_wave(d, y, cut, f, c, padded_len, r) by {}
    assert forall|at: int, c: int, out: Seq<D::T>|
        c == 4 * k || c == 4 * k + 2 implies #[trigger] stems::is_stem_channel(
        d,
        x,
        s,
        f,
        c,
        padded_len,
        time,
        at,
        n,
        out,
    ) == stems::is_stem_channel(d, y, cut, f, c, padded_len, time, at, n, out) by {
        if stems::is_stem_channel(d, y, cut, f, c, padded_len, time, at, n, out) {
            let w = choose|w: Vec<D::T>|
                {
                    &&& #[trigger] stems::is_channel_wave(d, y, cut, f, c, padded_len, Ok(w))
                    &&& n <= w@.len()
                    &&& stems::is_mixed(d, w@, time, at, n, out)
                };
            assert(stems::is_channel_wave(d, x, s, f, c, padded_len, Ok(w)));
        }
    }
}

/// Extracting stems fails alike after all frames that they do not take have been cut off the
/// spectrogram.
pub proof fn failures_take_the_first_frames<D: Dsp>(
    d: &D,
    x: Seq<D::T>,
    s: [usize; 4],
    cut: [usize; 4],
    padded_len: usize,
    n: int,
    e: DemucsError,
)
    requires
        s[1] % 2 == 0,
        s[1] * (s[2] * s[3]) <= x.len(),
        cut[1] == s[1],
        cut[2] == s[2],
        cut[3] <= s[3],
    ensures
        stems::is_extract_failure(d, x, s, cut[3] as int, padded_len, n, e)
            <==> stems::is_extract_failure(
            d,
            layout::trimmed(x, s[1] * s[2], s[3] as int, 1, cut[3] as int),
            cut,
            cut[3] as int,
            padded_len,
            n,
            e,
        ),
{
    let y = layout::trimmed(x, s[1] * s[2], s[3] as int, 1, cut[3] as int);
    let f = cut[3] as int;
    assert forall|r: core::result::Result<Vec<D::T>, DemucsError>, c: int|
        0 <= c < s[1] && c % 2 == 0 implies #[trigger] stems::is_channel_wave(
        d,
        x,
        s,
        f,
        c,
        padded_len,
        r,
    ) == stems::is_channel_wave(d, y, cut, f, c, padded_len, r) by {
        lemma_channel_pair(x, s[1] as int, s[2] as int, s[3] as int, f, c);
    }
    assert forall|c: int| 0 <= c < s[1] && c % 2 == 0 implies #[trigger] stems::is_channel_failure(
        d,
        x,
        s,
        f,
        c,
        padded_len,
        n,
        e,
    ) == stems::is_channel_failure(d, y, cut, f, c, padded_len, n, e) by {
        assert(stems::is_channel_wave(d, x, s, f, c, padded_len, Err(e)) == stems::is_channel_wave(
            d,
            y,
            cut,
            f,
            c,
            padded_len,
            Err(e),
        ));
        if stems::is_channel_failure(d, y, cut, f, c, padded_len, n, e)
            && !stems::is_channel_wave(d, y, cut, f, c, padded_len, Err(e)) {
            let w = choose|w: Vec<D::T>|
                {
                    &&& #[trigger] stems::is_channel_wave(d, y, cut, f, c, padded_len, Ok(w))
                    &&& w@.len() < n
                };
            assert(stems::is_channel_wave(d, x, s, f, c, padded_len, Ok(w)));
        }
    }
    if stems::is_extract_failure(d, y, cut, f, padded_len, n, e) {
        let c = choose|c: int|
            0 <= c < cut[1] && c % 2 == 0 && #[trigger] stems::is_channel_failure(
                d,
                y,
                cut,
                f,
                c,
                padded_len,
                n,
                e,
            );
        assert(stems::is_channel_failure(d, x, s, f, c, padded_len, n, e));
    }
}

/// What a transformer layer gives for a sequence has as many numbers as the sequence.
proof fn lemma_layer_pair_len<A: Arith>(
    a: &A,
    f: Seq<A::T>,
    fs: [usize; 3],
    t: Seq<A::T>,
    ts: [usize; 3],
    lf: &TransformerLayerWeights<A::T>,
    lt: &TransformerLayerWeights<A::T>,
    f2: Seq<A::T>,
    t2: Seq<A::T>,
)
    requires
        transformer::is_layer_pair(a, f, fs, t, ts, lf, lt, f2, t2),
    ensures
        f2.len() == index::size3(fs),
        t2.len() == index::size3(ts),
{
    reveal(transformer::is_layer_pair);
    reveal(attention::is_self_attn);
    reveal(attention::is_cross_attn);
    reveal(attention::is_ffn);
    reveal(attention::is_norm_out);
    assert(0 <= fs[0] * fs[1] * fs[2]) by (nonlinear_arith);
    assert(0 <= ts[0] * ts[1] * ts[2]) by (nonlinear_arith);
}

/// The transformer with its trace gives what it gives without one; the trace holds the two
/// sequences after each layer, and without resampling the results are those after the last,
/// channels first.
pub proof fn traced_is_untraced<A: Arith>(
    a: &A,
    freq: Seq<A::T>,
    fs: [usize; 4],
    time: Seq<A::T>,
    ts: [usize; 3],
    ct: &CrossDomainTransformer<A::T>,
    trace: Seq<(Seq<A::T>, Seq<A::T>)>,
    freq_out: Seq<A::T>,
    time_out: Seq<A::T>,
)
    requires
        fs[3] * fs[2] <= usize::MAX,
        transformer::is_cross_domain_traced(a, freq, fs, time, ts, ct, trace, freq_out, time_out),
    ensures
        transformer::is_cross_domain(a, freq, fs, time, ts, ct, freq_out, time_out),
        trace.len() == T_LAYERS,
        forall|i: int|
            0 <= i < trace.len() ==> (#[trigger] trace[i]).0.len() == fs[3] * fs[2]
                * ct.norm_in.dim,
        forall|i: int|
            0 <= i < trace.len() ==> (#[trigger] trace[i]).1.len() == ts[2] * ct.norm_in.dim,
        ct.channel_downsampler is None ==> forall|c: int, r: int, j: int|
            0 <= c < ct.norm_in.dim && 0 <= r < fs[2] && 0 <= j < fs[3]
                ==> #[trigger] freq_out[index::pos3(c, r, j, fs[2] as int, fs[3] as int)]
                == trace[T_LAYERS - 1].0[index::pos3(
                j,
                r,
                c,
                fs[2] as int,
                ct.norm_in.dim as int,
            )],
        ct.channel_downsampler_t is None ==> forall|c: int, j: int|
            0 <= c < ct.norm_in.dim && 0 <= j < ts[2] ==> #[trigger] time_out[index::pos2(
                c,
                j,
                ts[2] as int,
            )] == trace[T_LAYERS - 1].1[index::pos2(j, c, ct.norm_in.dim as int)],
{
    reveal(transformer::is_cross_domain_traced);
    reveal(transformer::is_cross_domain);
    reveal(transformer::is_resampled4);
    reveal(transformer::is_resampled3);
    let d = ct.norm_in.dim;
    let f3 = transformer::freq_seq_shape(fs, d);
    let t3 = transformer::time_seq_shape(ts, d);
    let (f, t) = choose|f: Seq<A::T>, t: Seq<A::T>|
        {
            &&& #[trigger] transformer::is_freq_input(a, freq, fs, ct, f)
            &&& #[trigger] transformer::is_time_input(a, time, ts, ct, t)
            &&& transformer::is_layer_trace(a, f, f3, t, t3, ct, trace)
        };
    assert(0 <= fs[3] * fs[2]) by (nonlinear_arith);
    assert(1 * (fs[3] * fs[2]) * d == fs[3] * fs[2] * d);
    assert(1 * ts[2] * d == ts[2] * d);
    assert forall|i: int| 0 <= i < trace.len() implies (#[trigger] trace[i]).0.len() == fs[3]
        * fs[2] * d && trace[i].1.len() == ts[2] * d by {
        lemma_layer_pair_len(
            a,
            transformer::state_before(f, t, trace, i).0,
            f3,
            transformer::state_before(f, t, trace, i).1,
            t3,
            &ct.layers@[i],
            &ct.layers_t@[i],
            trace[i].0,
            trace[i].1,
        );
    }
    let last = trace[T_LAYERS - 1];
    if ct.channel_downsampler is None {
        assert forall|c: int, r: int, j: int|
            0 <= c < d && 0 <= r < fs[2] && 0 <= j < fs[3] implies #[trigger] freq_out[index::pos3(
            c,
            r,
            j,
            fs[2] as int,
            fs[3] as int,
        )] == last.0[index::pos3(j, r, c, fs[2] as int, d as int)] by {
            layout::reversed_element(last.0, fs[3] as int, fs[2] as int, d as int, j, r, c);
        }
    }
    if ct.channel_downsampler_t is None {
        assert forall|c: int, j: int| 0 <= c < d && 0 <= j < ts[2] implies
            #[trigger] time_out[index::pos2(c, j, ts[2] as int)] == last.1[index::pos2(
            j,
            c,
            d as int,
        )] by {
            layout::swapped_element(last.1, 1, ts[2] as int, d as int, 1, 0, j, c, 0);
            assert(index::pos4(0, c, j, 0, d as int, ts[2] as int, 1) == index::pos2(
                c,
                j,
                ts[2] as int,
            ));
            assert(index::pos4(0, j, c, 0, ts[2] as int, d as int, 1) == index::pos2(
                j,
                c,
                d as int,
            ));
        }
    }
}

} // verus!
