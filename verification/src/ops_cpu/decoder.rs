//! Layers of the frequency and time decoders.
use vstd::prelude::*;
use crate::arith;
use crate::arith::Arith;
use crate::index;
use crate::model::HDecLayer;
use crate::model::TDecLayer;
use crate::ops_cpu::conv;
use crate::ops_cpu::dconv;
use crate::ops_cpu::elementwise;
use crate::ops_cpu::encoder;
use crate::ops_cpu::layout;

verus! {

/// The smaller of two lengths.
pub open spec fn shorter(m: int, n: int) -> int {
    if m <= n {
        m
    } else {
        n
    }
}

/// `out` is the sum of `x` and `y`, element by element, as far as both go.
#[verifier::opaque]
pub open spec fn is_zip_sum<A: Arith>(a: &A, x: Seq<A::T>, y: Seq<A::T>, out: Seq<A::T>) -> bool {
    &&& out.len() == shorter(x.len() as int, y.len() as int)
    &&& forall|i: int| 0 <= i < out.len() ==> arith::is_sum(a, x[i], y[i], #[trigger] out[i])
}

/// Adds two buffers, element by element, as far as both go.
fn zip_sum<A: Arith>(a: &A, x: &[A::T], y: &[A::T]) -> (r: Vec<A::T>)
    ensures
        r@.len() == shorter(x@.len() as int, y@.len() as int),
        is_zip_sum(a, x@, y@, r@),
{
    let n: usize = if x.len() <= y.len() {
        x.len()
    } else {
        y.len()
    };
    let mut out: Vec<A::T> = Vec::new();
    let mut i: usize = 0;
    while i < n
        invariant
            i <= n,
            n <= x@.len(),
            n <= y@.len(),
            out@.len() == i,
            forall|j: int| 0 <= j < i ==> arith::is_sum(a, x@[j], y@[j], #[trigger] out@[j]),
        decreases n - i,
    {
        let v: A::T = arith::plus(a, x[i], y[i]);
        out.push(v);
        i = i + 1;
    }
    proof {
        reveal(is_zip_sum);
    }
    out
}

/// Shape after the rewriting convolution of a frequency decoder layer.
pub open spec fn hdec_rewrite_shape<T>(s: [usize; 4], layer: &HDecLayer<T>) -> [usize; 4] {
    conv::conv2d_shape(s, &layer.rewrite, 1, 1, 1, 1)
}

/// Shape after the GLU of a frequency decoder layer.
pub open spec fn hdec_glu_shape<T>(s: [usize; 4], layer: &HDecLayer<T>) -> [usize; 4] {
    let r = hdec_rewrite_shape(s, layer);
    [r[0], s[1], r[2], r[3]]
}

/// Shape after the residual layers of a frequency decoder layer.
pub open spec fn hdec_dconv_shape<T>(s: [usize; 4], layer: &HDecLayer<T>) -> [usize; 4] {
    encoder::per_frequency_shape(hdec_glu_shape(s, layer), layer.dconv.layers@)
}

/// Shape after the transposed convolution of a frequency decoder layer.
pub open spec fn hdec_tr_shape<T>(s: [usize; 4], layer: &HDecLayer<T>) -> [usize; 4] {
    conv::conv_transpose2d_shape(hdec_dconv_shape(s, layer), &layer.conv_tr, 2, 0, 4, 1)
}

/// The shape that [`hdec_layer_forward`] gives: no more than `target` frequencies.
#[verifier::opaque]
pub open spec fn hdec_shape<T>(s: [usize; 4], target: usize, layer: &HDecLayer<T>) -> [usize; 4] {
    let u = hdec_tr_shape(s, layer);
    [u[0], u[1], shorter(u[2] as int, target as int) as usize, u[3]]
}

/// The inputs on which [`hdec_layer_forward`] is defined.
#[verifier::opaque]
pub open spec fn hdec_ok<T>(
    x_len: int,
    s: [usize; 4],
    skip_len: int,
    skip_shape: [usize; 4],
    layer: &HDecLayer<T>,
) -> bool {
    let g = hdec_glu_shape(s, layer);
    let d = hdec_dconv_shape(s, layer);
    let u = hdec_tr_shape(s, layer);
    &&& s[1] == layer.rewrite.in_ch
    &&& 2 * s[1] == layer.rewrite.out_ch
    &&& s == skip_shape
    &&& conv::conv2d_ok(
        shorter(x_len, skip_len),
        s,
        &layer.rewrite,
        layer.rewrite_bias.data@,
        1,
        1,
        1,
        1,
    )
    &&& encoder::per_frequency_ok(g, layer.dconv.layers@)
    &&& conv::conv_transpose2d_ok(
        index::size4(d),
        d,
        &layer.conv_tr,
        layer.conv_tr_bias.data@,
        2,
        0,
        4,
        1,
    )
    &&& u[0] * u[1] <= usize::MAX
}

/// `out` is `u`, of shape `[b, c, f, t]`, cut down to `target` frequencies where it has more.
pub open spec fn trimmed_freq<T>(u: Seq<T>, s: [usize; 4], target: usize) -> Seq<T> {
    if s[2] > target {
        layout::trimmed(u, s[0] * s[1], s[2] as int, s[3] as int, target as int)
    } else {
        u
    }
}

/// `out` is `x` with GELU applied, unless this is the last layer.
pub open spec fn is_activated<A: Arith>(a: &A, last: bool, x: Seq<A::T>, out: Seq<A::T>) -> bool {
    if last {
        out == x
    } else {
        elementwise::is_gelu(a, x, out)
    }
}

/// `out` is the result of [`hdec_layer_forward`].
#[verifier::opaque]
pub open spec fn is_hdec<A: Arith>(
    a: &A,
    x: Seq<A::T>,
    s: [usize; 4],
    skip: Seq<A::T>,
    target: usize,
    layer: &HDecLayer<A::T>,
    out: Seq<A::T>,
) -> bool {
    let w = hdec_rewrite_shape(s, layer);
    let g = hdec_glu_shape(s, layer);
    let d = hdec_dconv_shape(s, layer);
    let u = hdec_tr_shape(s, layer);
    exists|
        sum: Seq<A::T>,
        rewritten: Seq<A::T>,
        gated: Seq<A::T>,
        mixed: Seq<A::T>,
        up: Seq<A::T>,
    |
        {
            &&& #[trigger] is_zip_sum(a, x, skip, sum)
            &&& #[trigger] conv::is_conv2d(
                a,
                sum,
                s,
                &layer.rewrite,
                layer.rewrite_bias.data@,
                1,
                1,
                1,
                1,
                rewritten,
            )
            &&& #[trigger] elementwise::is_glu(
                a,
                rewritten,
                w[0] as int,
                w[1] as int / 2,
                w[2] * w[3],
                gated,
            )
            &&& #[trigger] encoder::is_per_frequency(a, gated, g, layer.dconv.layers@, mixed)
            &&& #[trigger] conv::is_conv_transpose2d(
                a,
                mixed,
                d,
                &layer.conv_tr,
                layer.conv_tr_bias.data@,
                2,
                0,
                4,
                1,
                up,
            )
            &&& is_activated(a, layer.last, trimmed_freq(up, u, target), out)
        }
}

/// One layer of the frequency decoder on a `[B, C_in, Fr, T]` tensor and the encoder's
/// tensor of the same shape: their sum, a convolution to twice the channels, GLU, the
/// residual layers for each frequency, a transposed convolution that quadruples the
/// frequencies, at most `freq_target` of which are kept, and GELU unless the layer is the
/// last.
pub fn hdec_layer_forward<A: Arith>(
    a: &A,
    x: &[A::T],
    x_shape: [usize; 4],
    skip: &[A::T],
    skip_shape: [usize; 4],
    freq_target: usize,
    layer: &HDecLayer<A::T>,
) -> (r: (Vec<A::T>, [usize; 4]))
    requires
        hdec_ok(x@.len() as int, x_shape, skip@.len() as int, skip_shape, layer),
    ensures
        r.1 == hdec_shape(x_shape, freq_target, layer),
        r.0@.len() == index::size4(r.1),
        is_hdec(a, x@, x_shape, skip@, freq_target, layer, r.0@),
{
    proof {
        reveal(hdec_shape);
    }
    proof {
        reveal(hdec_ok);
        reveal(is_hdec);
    }
    let h: Vec<A::T> = zip_sum(a, x, skip);
    let (h2, h2_shape) = conv::conv2d(
        a,
        &h,
        x_shape,
        &layer.rewrite,
        &layer.rewrite_bias,
        1,
        1,
        1,
        1,
    );
    let (h3, h3_shape) = encoder::glu_4d(a, &h2, h2_shape);
    assert(h3_shape =~= hdec_glu_shape(x_shape, layer));
    let (h4, h4_shape) = encoder::dconv_per_frequency(a, &h3, h3_shape, &layer.dconv);
    let (h5, h5_shape) = conv::conv_transpose2d(
        a,
        &h4,
        h4_shape,
        &layer.conv_tr,
        &layer.conv_tr_bias,
        2,
        0,
        4,
        1,
    );
    let ghost up = h5@;
    proof {
        index::lemma_extent(h5_shape[0] as int, h5_shape[1] as int);
        index::lemma_extent(h5_shape[0] * h5_shape[1], freq_target as int);
        index::lemma_extent(h5_shape[0] * h5_shape[1] * freq_target, h5_shape[3] as int);
    }
    let fr: usize = h5_shape[2];
    let mut out: Vec<A::T> = if fr > freq_target {
        layout::trim_middle(&h5, h5_shape[0] * h5_shape[1], fr, h5_shape[3], freq_target)
    } else {
        h5
    };
    let kept: usize = if fr > freq_target {
        freq_target
    } else {
        fr
    };
    let out_shape: [usize; 4] = [h5_shape[0], h5_shape[1], kept, h5_shape[3]];
    assert(out@ == trimmed_freq(up, h5_shape, freq_target));
    if !layer.last {
        elementwise::gelu(a, &mut out);
    }
    (out, out_shape)
}

/// `r` may be element `i` of the sum of `x`, in rows of length `t`, and `skip`, in rows of
/// length `skip_t`: an element of `x` beyond the end of the row of `skip` stays as it is.
pub open spec fn is_row_sum<A: Arith>(
    a: &A,
    x: Seq<A::T>,
    t: int,
    skip: Seq<A::T>,
    skip_t: int,
    i: int,
    r: A::T,
) -> bool {
    if i % t < skip_t {
        arith::is_sum(a, x[i], skip[index::pos2(i / t, i % t, skip_t)], r)
    } else {
        r == x[i]
    }
}

/// `out` is the sum of `rows` rows of `x` and `skip`.
#[verifier::opaque]
pub open spec fn is_rows_sum<A: Arith>(
    a: &A,
    rows: int,
    x: Seq<A::T>,
    t: int,
    skip: Seq<A::T>,
    skip_t: int,
    out: Seq<A::T>,
) -> bool {
    &&& out.len() == rows * t
    &&& forall|i: int|
        0 <= i < out.len() ==> is_row_sum(a, x, t, skip, skip_t, i, #[trigger] out[i])
}

/// Adds each row of `skip` to the row of `x`, as far as both go.
fn rows_sum<A: Arith>(a: &A, rows: usize, x: &[A::T], t: usize, skip: &[A::T], skip_t: usize) -> (r: Vec<
    A::T,
>)
    requires
        rows * t <= x@.len(),
        rows * skip_t <= skip@.len(),
    ensures
        r@.len() == rows * t,
        is_rows_sum(a, rows as int, x@, t as int, skip@, skip_t as int, r@),
{
    let len_x: usize = x.len();
    let len_skip: usize = skip.len();
    let mut out: Vec<A::T> = Vec::new();
    let total: usize = rows * t;
    let mut i: usize = 0;
    while i < total
        invariant
            i <= total,
            total == rows * t,
            total <= x@.len(),
            rows * skip_t <= skip@.len(),
            len_skip == skip@.len(),
            out@.len() == i,
            forall|j: int|
                0 <= j < i ==> is_row_sum(
                    a,
                    x@,
                    t as int,
                    skip@,
                    skip_t as int,
                    j,
                    #[trigger] out@[j],
                ),
        decreases total - i,
    {
        proof {
            index::lemma_unpair(i as int, rows as int, t as int);
        }
        let ti: usize = i % t;
        let row: usize = i / t;
        if ti < skip_t {
            proof {
                index::lemma_pair(row as int, ti as int, rows as int, skip_t as int);
                index::lemma_within2(row as int, ti as int, skip_t as int);
            }
            let v: A::T = arith::plus(a, x[i], skip[row * skip_t + ti]);
            out.push(v);
        } else {
            out.push(x[i]);
        }
        i = i + 1;
    }
    proof {
        reveal(is_rows_sum);
    }
    out
}

/// Shape after the rewriting convolution of a time decoder layer.
pub open spec fn tdec_rewrite_shape<T>(s: [usize; 3], layer: &TDecLayer<T>) -> [usize; 3] {
    conv::conv1d_shape(s, &layer.rewrite, 1, 1, 1)
}

/// Shape after the GLU of a time decoder layer.
pub open spec fn tdec_glu_shape<T>(s: [usize; 3], layer: &TDecLayer<T>) -> [usize; 3] {
    let r = tdec_rewrite_shape(s, layer);
    [r[0], (r[1] / 2) as usize, r[2]]
}

/// Shape after the residual layers of a time decoder layer.
pub open spec fn tdec_dconv_shape<T>(s: [usize; 3], layer: &TDecLayer<T>) -> [usize; 3] {
    dconv::dconv_shape(
        tdec_glu_shape(s, layer),
        layer.dconv.layers@,
        layer.dconv.layers@.len() as int,
    )
}

/// Shape after the transposed convolution of a time decoder layer.
pub open spec fn tdec_tr_shape<T>(s: [usize; 3], layer: &TDecLayer<T>) -> [usize; 3] {
    conv::conv_transpose1d_shape(tdec_dconv_shape(s, layer), &layer.conv_tr, 2, 4)
}

/// The shape that [`tdec_layer_forward`] gives: no more than `target` samples.
#[verifier::opaque]
pub open spec fn tdec_shape<T>(s: [usize; 3], target: usize, layer: &TDecLayer<T>) -> [usize; 3] {
    let u = tdec_tr_shape(s, layer);
    [u[0], u[1], shorter(u[2] as int, target as int) as usize]
}

/// The inputs on which [`tdec_layer_forward`] is defined.
#[verifier::opaque]
pub open spec fn tdec_ok<T>(
    x_len: int,
    s: [usize; 3],
    skip_len: int,
    skip_shape: [usize; 3],
    layer: &TDecLayer<T>,
) -> bool {
    let g = tdec_glu_shape(s, layer);
    let d = tdec_dconv_shape(s, layer);
    let u = tdec_tr_shape(s, layer);
    &&& s[1] == layer.rewrite.in_ch
    &&& s[0] * s[1] <= usize::MAX
    &&& index::size3(s) <= x_len
    &&& s[0] * s[1] * skip_shape[2] <= skip_len
    &&& conv::conv1d_ok(index::size3(s), s, &layer.rewrite, layer.rewrite_bias.data@, 1, 1, 1)
    &&& layer.rewrite.out_ch % 2 == 0
    &&& dconv::dconv_ok(index::size3(g), g, layer.dconv.layers@)
    &&& conv::conv_transpose1d_ok(
        index::size3(d),
        d,
        &layer.conv_tr,
        layer.conv_tr_bias.data@,
        2,
        4,
    )
    &&& u[0] * u[1] <= usize::MAX
}

/// `out` is `u`, of shape `[b, c, t]`, cut down to `target` samples where it has more.
pub open spec fn trimmed_time<T>(u: Seq<T>, s: [usize; 3], target: usize) -> Seq<T> {
    if s[2] > target {
        layout::trimmed(u, s[0] * s[1], s[2] as int, 1, target as int)
    } else {
        u
    }
}

/// `out` is the result of [`tdec_layer_forward`].
#[verifier::opaque]
pub open spec fn is_tdec<A: Arith>(
    a: &A,
    x: Seq<A::T>,
    s: [usize; 3],
    skip: Seq<A::T>,
    skip_shape: [usize; 3],
    target: usize,
    layer: &TDecLayer<A::T>,
    out: Seq<A::T>,
) -> bool {
    let w = tdec_rewrite_shape(s, layer);
    let g = tdec_glu_shape(s, layer);
    let d = tdec_dconv_shape(s, layer);
    let u = tdec_tr_shape(s, layer);
    exists|
        sum: Seq<A::T>,
        rewritten: Seq<A::T>,
        gated: Seq<A::T>,
        mixed: Seq<A::T>,
        up: Seq<A::T>,
    |
        {
            &&& #[trigger] is_rows_sum(
                a,
                s[0] * s[1],
                x,
                s[2] as int,
                skip,
                skip_shape[2] as int,
                sum,
            )
            &&& #[trigger] conv::is_conv1d(
                a,
                sum,
                s,
                &layer.rewrite,
                layer.rewrite_bias.data@,
                1,
                1,
                1,
                rewritten,
            )
            &&& #[trigger] elementwise::is_glu(
                a,
                rewritten,
                w[0] as int,
                w[1] as int / 2,
                w[2] as int,
                gated,
            )
            &&& #[trigger] dconv::is_dconv(a, gated, g, layer.dconv.layers@, mixed)
            &&& #[trigger] conv::is_conv_transpose1d(
                a,
                mixed,
                d,
                &layer.conv_tr,
                layer.conv_tr_bias.data@,
                2,
                4,
                up,
            )
            &&& is_activated(a, layer.last, trimmed_time(up, u, target), out)
        }
}

/// One layer of the time decoder on a `[B, C_in, T]` tensor and the encoder's tensor: their
/// sum, as far as the rows of the latter go, a convolution to twice the channels, GLU, the
/// residual layers, a transposed convolution that quadruples the samples, at most
/// `time_target` of which are kept, and GELU unless the layer is the last.
pub fn tdec_layer_forward<A: Arith>(
    a: &A,
    x: &[A::T],
    x_shape: [usize; 3],
    skip: &[A::T],
    skip_shape: [usize; 3],
    time_target: usize,
    layer: &TDecLayer<A::T>,
) -> (r: (Vec<A::T>, [usize; 3]))
    requires
        tdec_ok(x@.len() as int, x_shape, skip@.len() as int, skip_shape, layer),
    ensures
        r.1 == tdec_shape(x_shape, time_target, layer),
        r.0@.len() == index::size3(r.1),
        is_tdec(a, x@, x_shape, skip@, skip_shape, time_target, layer, r.0@),
{
    proof {
        reveal(tdec_shape);
    }
    proof {
        reveal(tdec_ok);
        reveal(is_tdec);
    }
    let rows: usize = x_shape[0] * x_shape[1];
    let h: Vec<A::T> = rows_sum(a, rows, x, x_shape[2], skip, skip_shape[2]);
    let (h2, h2_shape) = conv::conv1d(a, &h, x_shape, &layer.rewrite, &layer.rewrite_bias, 1, 1);
    let (h3, h3_shape) = elementwise::glu_channel(a, &h2, h2_shape);
    assert(h3_shape =~= tdec_glu_shape(x_shape, layer));
    let (h4, h4_shape) = dconv::dconv_forward(a, &h3, h3_shape, &layer.dconv);
    let (h5, h5_shape) = conv::conv_transpose1d(
        a,
        &h4,
        h4_shape,
        &layer.conv_tr,
        &layer.conv_tr_bias,
        2,
        4,
    );
    let ghost up = h5@;
    proof {
        index::lemma_extent(h5_shape[0] as int, h5_shape[1] as int);
        index::lemma_extent(h5_shape[0] * h5_shape[1], time_target as int);
    }
    let t: usize = h5_shape[2];
    let mut out: Vec<A::T> = if t > time_target {
        layout::trim_middle(&h5, h5_shape[0] * h5_shape[1], t, 1, time_target)
    } else {
        h5
    };
    let kept: usize = if t > time_target {
        time_target
    } else {
        t
    };
    let out_shape: [usize; 3] = [h5_shape[0], h5_shape[1], kept];
    assert(out@ == trimmed_time(up, h5_shape, time_target));
    if !layer.last {
        elementwise::gelu(a, &mut out);
    }
    (out, out_shape)
}

} // verus!
