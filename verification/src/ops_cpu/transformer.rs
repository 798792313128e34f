//! The transformer between the encoders and the decoders.
use vstd::prelude::*;
use crate::arith::Arith;
use crate::index;
use crate::model::Bias;
use crate::model::Conv1dWeight;
use crate::model::CrossDomainTransformer;
use crate::model::TransformerLayerWeights;
use crate::ops_cpu::attention;
use crate::ops_cpu::conv;
use crate::ops_cpu::elementwise;
use crate::ops_cpu::embedding;
use crate::ops_cpu::encoder;
use crate::ops_cpu::layout;
use crate::ops_cpu::norm;
use crate::T_LAYERS;

verus! {

/// A map of the channels of a `[B, C, Fr, T]` tensor is defined.
#[verifier::opaque]
pub open spec fn channel_map_ok<T>(
    x_len: int,
    s: [usize; 4],
    w: &Conv1dWeight<T>,
    bias: Seq<T>,
) -> bool {
    &&& w.k == 1
    &&& index::size4(s) <= x_len
    &&& s[0] * s[2] <= usize::MAX
    &&& conv::conv1d_ok(index::size4(s), encoder::folded_shape(s), w, bias, 0, 1, 1)
}

/// `out` is `x`, of shape `s`, with its channels mapped by `w` at each frequency and time.
#[verifier::opaque]
pub open spec fn is_channel_map<A: Arith>(
    a: &A,
    x: Seq<A::T>,
    s: [usize; 4],
    w: &Conv1dWeight<A::T>,
    bias: Seq<A::T>,
    out: Seq<A::T>,
) -> bool {
    exists|y: Seq<A::T>| #[trigger]
        conv::is_conv1d(
            a,
            layout::swapped(x, s[0] as int, s[1] as int, s[2] as int, s[3] as int),
            encoder::folded_shape(s),
            w,
            bias,
            0,
            1,
            1,
            y,
        ) && out == layout::swapped(
            y,
            s[0] as int,
            s[2] as int,
            w.out_ch as int,
            s[3] as int,
        )
}

/// Maps the channels of a `[B, C, Fr, T]` tensor at each frequency and time.
fn channel_upsample_4d<A: Arith>(
    a: &A,
    x: &[A::T],
    x_shape: [usize; 4],
    w: &Conv1dWeight<A::T>,
    bias: &Bias<A::T>,
) -> (r: (Vec<A::T>, [usize; 4]))
    requires
        channel_map_ok(x@.len() as int, x_shape, w, bias.data@),
    ensures
        r.1 == [x_shape[0], w.out_ch, x_shape[2], x_shape[3]],
        r.0@.len() == index::size4(r.1),
        is_channel_map(a, x@, x_shape, w, bias.data@, r.0@),
{
    proof {
        reveal(channel_map_ok);
        reveal(is_channel_map);
    }
    let b: usize = x_shape[0];
    let c_in: usize = x_shape[1];
    let fr: usize = x_shape[2];
    let t: usize = x_shape[3];
    let flat: Vec<A::T> = layout::swap_middle(x, b, c_in, fr, t);
    let bs: usize = b * fr;
    let flat_shape: [usize; 3] = [bs, c_in, t];
    proof {
        index::lemma_swap_extent(b as int, c_in as int, fr as int, t as int);
        index::lemma_extent(b as int, c_in as int);
        index::lemma_extent(b * c_in, fr as int);
        index::lemma_extent(b * c_in * fr, t as int);
        assert(flat_shape =~= encoder::folded_shape(x_shape));
    }
    let (y, y_shape) = conv::conv1d_k1(a, &flat, flat_shape, w, bias);
    proof {
        assert(y_shape[2] == t);
        assert(b * fr * w.out_ch * t == index::size3(y_shape));
    }
    let out: Vec<A::T> = layout::swap_middle(&y, b, fr, w.out_ch, t);
    let out_shape: [usize; 4] = [b, w.out_ch, fr, t];
    proof {
        index::lemma_extent(b as int, w.out_ch as int);
        index::lemma_extent(b * w.out_ch, fr as int);
        index::lemma_extent(b * w.out_ch * fr, t as int);
    }
    (out, out_shape)
}

/// Maps the channels of a `[B, C, Fr, T]` tensor back at each frequency and time.
fn channel_downsample_4d<A: Arith>(
    a: &A,
    x: &[A::T],
    x_shape: [usize; 4],
    w: &Conv1dWeight<A::T>,
    bias: &Bias<A::T>,
) -> (r: (Vec<A::T>, [usize; 4]))
    requires
        channel_map_ok(x@.len() as int, x_shape, w, bias.data@),
    ensures
        r.1 == [x_shape[0], w.out_ch, x_shape[2], x_shape[3]],
        r.0@.len() == index::size4(r.1),
        is_channel_map(a, x@, x_shape, w, bias.data@, r.0@),
{
    channel_upsample_4d(a, x, x_shape, w, bias)
}

/// Maps the channels of a `[B, C, T]` tensor at each position.
fn channel_upsample_3d<A: Arith>(
    a: &A,
    x: &[A::T],
    x_shape: [usize; 3],
    w: &Conv1dWeight<A::T>,
    bias: &Bias<A::T>,
) -> (r: (Vec<A::T>, [usize; 3]))
    requires
        conv::conv1d_ok(x@.len() as int, x_shape, w, bias.data@, 0, 1, 1),
    ensures
        r.1 == conv::conv1d_shape(x_shape, w, 0, 1, 1),
        r.0@.len() == index::size3(r.1),
        conv::is_conv1d(a, x@, x_shape, w, bias.data@, 0, 1, 1, r.0@),
{
    conv::conv1d_k1(a, x, x_shape, w, bias)
}

/// Maps the channels of a `[B, C, T]` tensor back at each position.
fn channel_downsample_3d<A: Arith>(
    a: &A,
    x: &[A::T],
    x_shape: [usize; 3],
    w: &Conv1dWeight<A::T>,
    bias: &Bias<A::T>,
) -> (r: (Vec<A::T>, [usize; 3]))
    requires
        conv::conv1d_ok(x@.len() as int, x_shape, w, bias.data@, 0, 1, 1),
    ensures
        r.1 == conv::conv1d_shape(x_shape, w, 0, 1, 1),
        r.0@.len() == index::size3(r.1),
        conv::is_conv1d(a, x@, x_shape, w, bias.data@, 0, 1, 1, r.0@),
{
    conv::conv1d_k1(a, x, x_shape, w, bias)
}

/// The shape after an optional map of the channels of a `[B, C, Fr, T]` tensor.
pub open spec fn resampled_shape4<T>(
    s: [usize; 4],
    w: &Option<Conv1dWeight<T>>,
    b: &Option<Vec<T>>,
) -> [usize; 4] {
    if w is Some && b is Some {
        [s[0], w->0.out_ch, s[2], s[3]]
    } else {
        s
    }
}

/// An optional map of the channels of a `[B, C, Fr, T]` tensor is defined.
#[verifier::opaque]
pub open spec fn resample4_ok<T>(
    x_len: int,
    s: [usize; 4],
    w: &Option<Conv1dWeight<T>>,
    b: &Option<Vec<T>>,
) -> bool {
    if w is Some && b is Some {
        channel_map_ok(x_len, s, &w->0, b->0@)
    } else {
        x_len == index::size4(s)
    }
}

/// `out` is `x`, its channels mapped where both the kernel and the bias are there.
#[verifier::opaque]
pub open spec fn is_resampled4<A: Arith>(
    a: &A,
    x: Seq<A::T>,
    s: [usize; 4],
    w: &Option<Conv1dWeight<A::T>>,
    b: &Option<Vec<A::T>>,
    out: Seq<A::T>,
) -> bool {
    if w is Some && b is Some {
        is_channel_map(a, x, s, &w->0, b->0@, out)
    } else {
        out == x
    }
}

/// The shape after an optional map of the channels of a `[B, C, T]` tensor.
pub open spec fn resampled_shape3<T>(
    s: [usize; 3],
    w: &Option<Conv1dWeight<T>>,
    b: &Option<Vec<T>>,
) -> [usize; 3] {
    if w is Some && b is Some {
        conv::conv1d_shape(s, &w->0, 0, 1, 1)
    } else {
        s
    }
}

/// An optional map of the channels of a `[B, C, T]` tensor is defined.
#[verifier::opaque]
pub open spec fn resample3_ok<T>(
    x_len: int,
    s: [usize; 3],
    w: &Option<Conv1dWeight<T>>,
    b: &Option<Vec<T>>,
) -> bool {
    if w is Some && b is Some {
        conv::conv1d_ok(x_len, s, &w->0, b->0@, 0, 1, 1)
    } else {
        x_len == index::size3(s)
    }
}

/// `out` is `x`, its channels mapped where both the kernel and the bias are there.
#[verifier::opaque]
pub open spec fn is_resampled3<A: Arith>(
    a: &A,
    x: Seq<A::T>,
    s: [usize; 3],
    w: &Option<Conv1dWeight<A::T>>,
    b: &Option<Vec<A::T>>,
    out: Seq<A::T>,
) -> bool {
    if w is Some && b is Some {
        conv::is_conv1d(a, x, s, &w->0, b->0@, 0, 1, 1, out)
    } else {
        out == x
    }
}

/// Maps the channels of `[1, ch, Fr, T]` to the width of the transformer, where it has the
/// weights for that.
fn upsample_freq<A: Arith>(a: &A, x: &[A::T], s: [usize; 4], ct: &CrossDomainTransformer<A::T>) -> (r: (
    Vec<A::T>,
    [usize; 4],
))
    requires
        resample4_ok(x@.len() as int, s, &ct.channel_upsampler, &ct.channel_upsampler_bias),
    ensures
        r.1 == resampled_shape4(s, &ct.channel_upsampler, &ct.channel_upsampler_bias),
        r.0@.len() == index::size4(r.1),
        is_resampled4(a, x@, s, &ct.channel_upsampler, &ct.channel_upsampler_bias, r.0@),
{
    proof {
        reveal(resample4_ok);
        reveal(is_resampled4);
    }
    match (&ct.channel_upsampler, &ct.channel_upsampler_bias) {
        (Some(w), Some(b)) => {
            let bias: Bias<A::T> = Bias { data: layout::to_vec(b), len: b.len() };
            channel_upsample_4d(a, x, s, w, &bias)
        },
        _ => (layout::to_vec(x), s),
    }
}

/// Maps the channels of `[1, ch, T2]` to the width of the transformer, where it has the
/// weights for that.
fn upsample_time<A: Arith>(a: &A, x: &[A::T], s: [usize; 3], ct: &CrossDomainTransformer<A::T>) -> (r: (
    Vec<A::T>,
    [usize; 3],
))
    requires
        resample3_ok(x@.len() as int, s, &ct.channel_upsampler_t, &ct.channel_upsampler_t_bias),
    ensures
        r.1 == resampled_shape3(s, &ct.channel_upsampler_t, &ct.channel_upsampler_t_bias),
        r.0@.len() == index::size3(r.1),
        is_resampled3(a, x@, s, &ct.channel_upsampler_t, &ct.channel_upsampler_t_bias, r.0@),
{
    proof {
        reveal(resample3_ok);
        reveal(is_resampled3);
    }
    match (&ct.channel_upsampler_t, &ct.channel_upsampler_t_bias) {
        (Some(w), Some(b)) => {
            let bias: Bias<A::T> = Bias { data: layout::to_vec(b), len: b.len() };
            channel_upsample_3d(a, x, s, w, &bias)
        },
        _ => (layout::to_vec(x), s),
    }
}

/// Maps the channels of `[1, d_model, Fr, T]` back to the width of the encoders, where the
/// transformer has the weights for that.
fn downsample_freq<A: Arith>(a: &A, x: &[A::T], s: [usize; 4], ct: &CrossDomainTransformer<A::T>) -> (r: (
    Vec<A::T>,
    [usize; 4],
))
    requires
        resample4_ok(x@.len() as int, s, &ct.channel_downsampler, &ct.channel_downsampler_bias),
    ensures
        r.1 == resampled_shape4(s, &ct.channel_downsampler, &ct.channel_downsampler_bias),
        r.0@.len() == index::size4(r.1),
        is_resampled4(a, x@, s, &ct.channel_downsampler, &ct.channel_downsampler_bias, r.0@),
{
    proof {
        reveal(resample4_ok);
        reveal(is_resampled4);
    }
    match (&ct.channel_downsampler, &ct.channel_downsampler_bias) {
        (Some(w), Some(b)) => {
            let bias: Bias<A::T> = Bias { data: layout::to_vec(b), len: b.len() };
            channel_downsample_4d(a, x, s, w, &bias)
        },
        _ => (layout::to_vec(x), s),
    }
}

/// Maps the channels of `[1, d_model, T2]` back to the width of the encoders, where the
/// transformer has the weights for that.
fn downsample_time<A: Arith>(a: &A, x: &[A::T], s: [usize; 3], ct: &CrossDomainTransformer<A::T>) -> (r: (
    Vec<A::T>,
    [usize; 3],
))
    requires
        resample3_ok(
            x@.len() as int,
            s,
            &ct.channel_downsampler_t,
            &ct.channel_downsampler_t_bias,
        ),
    ensures
        r.1 == resampled_shape3(s, &ct.channel_downsampler_t, &ct.channel_downsampler_t_bias),
        r.0@.len() == index::size3(r.1),
        is_resampled3(a, x@, s, &ct.channel_downsampler_t, &ct.channel_downsampler_t_bias, r.0@),
{
    proof {
        reveal(resample3_ok);
        reveal(is_resampled3);
    }
    match (&ct.channel_downsampler_t, &ct.channel_downsampler_t_bias) {
        (Some(w), Some(b)) => {
            let bias: Bias<A::T> = Bias { data: layout::to_vec(b), len: b.len() };
            channel_downsample_3d(a, x, s, w, &bias)
        },
        _ => (layout::to_vec(x), s),
    }
}

/// Shape of the frequency sequence: one position for each time and frequency.
pub open spec fn freq_seq_shape(s: [usize; 4], d: usize) -> [usize; 3] {
    [1, (s[3] * s[2]) as usize, d]
}

/// Shape of the time sequence.
pub open spec fn time_seq_shape(s: [usize; 3], d: usize) -> [usize; 3] {
    [1, s[2], d]
}

/// One pair of layers is defined on sequences of shapes `fs` and `ts`: both are of
/// self-attention, or both of cross-attention.
#[verifier::opaque]
pub open spec fn layer_pair_ok<T>(
    fs: [usize; 3],
    ts: [usize; 3],
    lf: &TransformerLayerWeights<T>,
    lt: &TransformerLayerWeights<T>,
) -> bool {
    if lf.self_attn is Some && lt.self_attn is Some {
        &&& attention::self_attn_ok(fs, &lf.self_attn->0)
        &&& attention::self_attn_ok(ts, &lt.self_attn->0)
    } else {
        &&& lf.cross_attn is Some
        &&& lt.cross_attn is Some
        &&& attention::cross_attn_ok(fs, ts, &lf.cross_attn->0)
        &&& attention::cross_attn_ok(ts, fs, &lt.cross_attn->0)
    }
}

/// `(f2, t2)` is the result of one pair of layers on `(f, t)`: each sequence attends to
/// itself, or each to the other as it was before.
#[verifier::opaque]
pub open spec fn is_layer_pair<A: Arith>(
    a: &A,
    f: Seq<A::T>,
    fs: [usize; 3],
    t: Seq<A::T>,
    ts: [usize; 3],
    lf: &TransformerLayerWeights<A::T>,
    lt: &TransformerLayerWeights<A::T>,
    f2: Seq<A::T>,
    t2: Seq<A::T>,
) -> bool {
    if lf.self_attn is Some && lt.self_attn is Some {
        &&& attention::is_self_attn(a, f, fs, &lf.self_attn->0, f2)
        &&& attention::is_self_attn(a, t, ts, &lt.self_attn->0, t2)
    } else {
        &&& lf.cross_attn is Some
        &&& lt.cross_attn is Some
        &&& attention::is_cross_attn(a, f, fs, t, ts, &lf.cross_attn->0, f2)
        &&& attention::is_cross_attn(a, t, ts, f, fs, &lt.cross_attn->0, t2)
    }
}

/// Runs one pair of layers.
fn layer_pair<A: Arith>(
    a: &A,
    f: &[A::T],
    fs: [usize; 3],
    t: &[A::T],
    ts: [usize; 3],
    lf: &TransformerLayerWeights<A::T>,
    lt: &TransformerLayerWeights<A::T>,
) -> (r: (Vec<A::T>, Vec<A::T>))
    requires
        f@.len() == index::size3(fs),
        t@.len() == index::size3(ts),
        layer_pair_ok(fs, ts, lf, lt),
    ensures
        r.0@.len() == index::size3(fs),
        r.1@.len() == index::size3(ts),
        is_layer_pair(a, f@, fs, t@, ts, lf, lt, r.0@, r.1@),
{
    proof {
        reveal(layer_pair_ok);
        reveal(is_layer_pair);
    }
    if let (Some(sf), Some(st)) = (&lf.self_attn, &lt.self_attn) {
        let (f2, f2_shape) = attention::self_attn_layer_forward(a, f, fs, sf);
        let (t2, t2_shape) = attention::self_attn_layer_forward(a, t, ts, st);
        return (f2, t2);
    }
    if let (Some(cf), Some(ctl)) = (&lf.cross_attn, &lt.cross_attn) {
        let (f2, f2_shape) = attention::cross_attn_layer_forward(a, f, fs, t, ts, cf);
        let (t2, t2_shape) = attention::cross_attn_layer_forward(a, t, ts, f, fs, ctl);
        return (f2, t2);
    }
    assert(false);
    (layout::to_vec(f), layout::to_vec(t))
}

/// The layers are defined on sequences of shapes `fs` and `ts`.
#[verifier::opaque]
pub open spec fn layers_ok<T>(
    fs: [usize; 3],
    ts: [usize; 3],
    ct: &CrossDomainTransformer<T>,
) -> bool {
    &&& T_LAYERS <= ct.layers@.len()
    &&& T_LAYERS <= ct.layers_t@.len()
    &&& forall|i: int|
        #![trigger ct.layers@[i]]
        0 <= i < T_LAYERS ==> layer_pair_ok(fs, ts, &ct.layers@[i], &ct.layers_t@[i])
}

/// The state before pair `i`: the input for the first, else the result of the last one.
pub open spec fn state_before<T>(
    f: Seq<T>,
    t: Seq<T>,
    trace: Seq<(Seq<T>, Seq<T>)>,
    i: int,
) -> (Seq<T>, Seq<T>) {
    if i <= 0 {
        (f, t)
    } else {
        trace[i - 1]
    }
}

/// `trace` holds the results of the layers, one after the other, on `(f, t)`.
pub open spec fn is_layer_trace<A: Arith>(
    a: &A,
    f: Seq<A::T>,
    fs: [usize; 3],
    t: Seq<A::T>,
    ts: [usize; 3],
    ct: &CrossDomainTransformer<A::T>,
    trace: Seq<(Seq<A::T>, Seq<A::T>)>,
) -> bool {
    forall|i: int|
        #![trigger trace[i]]
        0 <= i < trace.len() ==> is_layer_pair(
            a,
            state_before(f, t, trace, i).0,
            fs,
            state_before(f, t, trace, i).1,
            ts,
            &ct.layers@[i],
            &ct.layers_t@[i],
            trace[i].0,
            trace[i].1,
        )
}

/// The buffers of a list of pairs.
pub open spec fn pair_buffers<T>(v: Seq<(Vec<T>, Vec<T>)>) -> Seq<(Seq<T>, Seq<T>)> {
    Seq::new(v.len(), |i: int| (v[i].0@, v[i].1@))
}

/// Runs the layers and gives the result of each.
fn run_layers<A: Arith>(
    a: &A,
    f: &[A::T],
    fs: [usize; 3],
    t: &[A::T],
    ts: [usize; 3],
    ct: &CrossDomainTransformer<A::T>,
) -> (r: Vec<(Vec<A::T>, Vec<A::T>)>)
    requires
        f@.len() == index::size3(fs),
        t@.len() == index::size3(ts),
        layers_ok(fs, ts, ct),
    ensures
        r@.len() == T_LAYERS,
        forall|i: int|
            #![trigger r@[i]]
            0 <= i < r@.len() ==> r@[i].0@.len() == index::size3(fs) && r@[i].1@.len()
                == index::size3(ts),
        is_layer_trace(a, f@, fs, t@, ts, ct, pair_buffers(r@)),
{
    let mut trace: Vec<(Vec<A::T>, Vec<A::T>)> = Vec::new();
    let mut i: usize = 0;
    while i < T_LAYERS
        invariant
            i <= T_LAYERS,
            f@.len() == index::size3(fs),
            t@.len() == index::size3(ts),
            layers_ok(fs, ts, ct),
            trace@.len() == i,
            forall|j: int|
                #![trigger trace@[j]]
                0 <= j < i ==> trace@[j].0@.len() == index::size3(fs) && trace@[j].1@.len()
                    == index::size3(ts),
            is_layer_trace(a, f@, fs, t@, ts, ct, pair_buffers(trace@)),
        decreases T_LAYERS - i,
    {
        proof {
            reveal(layers_ok);
            let l = ct.layers@[i as int];
        }
        let ghost before = pair_buffers(trace@);
        let ghost state = state_before(f@, t@, before, i as int);
        let (f2, t2) = if i == 0 {
            layer_pair(a, f, fs, t, ts, &ct.layers[i], &ct.layers_t[i])
        } else {
            layer_pair(
                a,
                &trace[i - 1].0,
                fs,
                &trace[i - 1].1,
                ts,
                &ct.layers[i],
                &ct.layers_t[i],
            )
        };
        proof {
            assert(is_layer_pair(
                a,
                state.0,
                fs,
                state.1,
                ts,
                &ct.layers@[i as int],
                &ct.layers_t@[i as int],
                f2@,
                t2@,
            ));
        }
        trace.push((f2, t2));
        proof {
            let after = pair_buffers(trace@);
            assert forall|j: int|
                #![trigger after[j]]
                0 <= j < after.len() implies is_layer_pair(
                a,
                state_before(f@, t@, after, j).0,
                fs,
                state_before(f@, t@, after, j).1,
                ts,
                &ct.layers@[j],
                &ct.layers_t@[j],
                after[j].0,
                after[j].1,
            ) by {
                assert(state_before(f@, t@, after, j) == state_before(f@, t@, before, j));
                if j < i {
                    assert(after[j] == before[j]);
                }
            }
        }
        i = i + 1;
    }
    trace
}

/// `f` is the frequency sequence that enters the layers: the tensor at the width of the
/// transformer, one position for each time and frequency, normalized, plus the embedding of
/// the position.
#[verifier::opaque]
pub open spec fn is_freq_input<A: Arith>(
    a: &A,
    x: Seq<A::T>,
    s: [usize; 4],
    ct: &CrossDomainTransformer<A::T>,
    f: Seq<A::T>,
) -> bool {
    let d = ct.norm_in.dim as int;
    exists|u: Seq<A::T>, n: Seq<A::T>, pe: Seq<A::T>|
        {
            &&& #[trigger] is_resampled4(
                a,
                x,
                s,
                &ct.channel_upsampler,
                &ct.channel_upsampler_bias,
                u,
            )
            &&& #[trigger] attention::is_layernorm(
                a,
                layout::reversed(u, d, s[2] as int, s[3] as int),
                &ct.norm_in,
                d,
                n,
            )
            &&& #[trigger] embedding::is_embed_2d(a, d, s[2] as int, s[3] as int, pe)
            &&& elementwise::is_added(a, n, pe, f)
        }
}

/// `t` is the time sequence that enters the layers.
#[verifier::opaque]
pub open spec fn is_time_input<A: Arith>(
    a: &A,
    x: Seq<A::T>,
    s: [usize; 3],
    ct: &CrossDomainTransformer<A::T>,
    t: Seq<A::T>,
) -> bool {
    let d = ct.norm_in.dim as int;
    exists|u: Seq<A::T>, n: Seq<A::T>, pe: Seq<A::T>|
        {
            &&& #[trigger] is_resampled3(
                a,
                x,
                s,
                &ct.channel_upsampler_t,
                &ct.channel_upsampler_t_bias,
                u,
            )
            &&& #[trigger] attention::is_layernorm(
                a,
                layout::swapped(u, 1, d, s[2] as int, 1),
                &ct.norm_in_t,
                d,
                n,
            )
            &&& #[trigger] embedding::is_embed_1d(a, s[2] as int, d, pe)
            &&& elementwise::is_added(a, n, pe, t)
        }
}

/// The shape of the frequency tensor that leaves the transformer.
pub open spec fn freq_out_shape<T>(s: [usize; 4], ct: &CrossDomainTransformer<T>) -> [usize; 4] {
    resampled_shape4(
        [1, ct.norm_in.dim, s[2], s[3]],
        &ct.channel_downsampler,
        &ct.channel_downsampler_bias,
    )
}

/// The shape of the time tensor that leaves the transformer.
pub open spec fn time_out_shape<T>(s: [usize; 3], ct: &CrossDomainTransformer<T>) -> [usize; 3] {
    resampled_shape3(
        [1, ct.norm_in.dim, s[2]],
        &ct.channel_downsampler_t,
        &ct.channel_downsampler_t_bias,
    )
}

/// The inputs on which [`cross_domain_transformer_forward`] is defined.
#[verifier::opaque]
pub open spec fn cross_domain_ok<T>(
    freq_len: int,
    fs: [usize; 4],
    time_len: int,
    ts: [usize; 3],
    ct: &CrossDomainTransformer<T>,
) -> bool {
    let d = ct.norm_in.dim;
    &&& d > 0
    &&& resample4_ok(freq_len, fs, &ct.channel_upsampler, &ct.channel_upsampler_bias)
    &&& d * fs[2] * fs[3] <= index::size4(
        resampled_shape4(fs, &ct.channel_upsampler, &ct.channel_upsampler_bias),
    )
    &&& resample3_ok(time_len, ts, &ct.channel_upsampler_t, &ct.channel_upsampler_t_bias)
    &&& d * ts[2] <= index::size3(
        resampled_shape3(ts, &ct.channel_upsampler_t, &ct.channel_upsampler_t_bias),
    )
    &&& fs[3] * fs[2] <= usize::MAX
    &&& fs[3] * fs[2] * d <= usize::MAX
    &&& ts[2] * d <= usize::MAX
    &&& attention::layernorm_fits(&ct.norm_in, d)
    &&& attention::layernorm_fits(&ct.norm_in_t, d)
    &&& layers_ok(freq_seq_shape(fs, d), time_seq_shape(ts, d), ct)
    &&& resample4_ok(
        d * fs[2] * fs[3],
        [1, d, fs[2], fs[3]],
        &ct.channel_downsampler,
        &ct.channel_downsampler_bias,
    )
    &&& resample3_ok(
        d * ts[2],
        [1, d, ts[2]],
        &ct.channel_downsampler_t,
        &ct.channel_downsampler_t_bias,
    )
}

/// `(freq_out, time_out)` is the result of [`cross_domain_transformer_forward`], and `trace`
/// holds the sequences after each layer.
#[verifier::opaque]
pub open spec fn is_cross_domain_traced<A: Arith>(
    a: &A,
    freq: Seq<A::T>,
    fs: [usize; 4],
    time: Seq<A::T>,
    ts: [usize; 3],
    ct: &CrossDomainTransformer<A::T>,
    trace: Seq<(Seq<A::T>, Seq<A::T>)>,
    freq_out: Seq<A::T>,
    time_out: Seq<A::T>,
) -> bool {
    let d = ct.norm_in.dim;
    exists|f: Seq<A::T>, t: Seq<A::T>|
        {
            &&& #[trigger] is_freq_input(a, freq, fs, ct, f)
            &&& #[trigger] is_time_input(a, time, ts, ct, t)
            &&& trace.len() == T_LAYERS
            &&& is_layer_trace(
                a,
                f,
                freq_seq_shape(fs, d),
                t,
                time_seq_shape(ts, d),
                ct,
                trace,
            )
            &&& is_resampled4(
                a,
                layout::reversed(
                    trace[T_LAYERS - 1].0,
                    fs[3] as int,
                    fs[2] as int,
                    d as int,
                ),
                [1, d, fs[2], fs[3]],
                &ct.channel_downsampler,
                &ct.channel_downsampler_bias,
                freq_out,
            )
            &&& is_resampled3(
                a,
                layout::swapped(trace[T_LAYERS - 1].1, 1, ts[2] as int, d as int, 1),
                [1, d, ts[2]],
                &ct.channel_downsampler_t,
                &ct.channel_downsampler_t_bias,
                time_out,
            )
        }
}

/// `(freq_out, time_out)` is the result of [`cross_domain_transformer_forward`].
#[verifier::opaque]
pub open spec fn is_cross_domain<A: Arith>(
    a: &A,
    freq: Seq<A::T>,
    fs: [usize; 4],
    time: Seq<A::T>,
    ts: [usize; 3],
    ct: &CrossDomainTransformer<A::T>,
    freq_out: Seq<A::T>,
    time_out: Seq<A::T>,
) -> bool {
    exists|trace: Seq<(Seq<A::T>, Seq<A::T>)>| #[trigger]
        is_cross_domain_traced(a, freq, fs, time, ts, ct, trace, freq_out, time_out)
}

/// The frequency sequence that enters the layers.
fn freq_input<A: Arith>(a: &A, x: &[A::T], s: [usize; 4], ct: &CrossDomainTransformer<A::T>) -> (r: Vec<
    A::T,
>)
    requires
        ct.norm_in.dim > 0,
        resample4_ok(x@.len() as int, s, &ct.channel_upsampler, &ct.channel_upsampler_bias),
        ct.norm_in.dim * s[2] * s[3] <= index::size4(
            resampled_shape4(s, &ct.channel_upsampler, &ct.channel_upsampler_bias),
        ),
        s[3] * s[2] <= usize::MAX,
        s[3] * s[2] * ct.norm_in.dim <= usize::MAX,
        attention::layernorm_fits(&ct.norm_in, ct.norm_in.dim),
    ensures
        r@.len() == index::size3(freq_seq_shape(s, ct.norm_in.dim)),
        is_freq_input(a, x@, s, ct, r@),
{
    let d: usize = ct.norm_in.dim;
    let (u, _) = upsample_freq(a, x, s, ct);
    let mut n: Vec<A::T> = layout::reverse_axes(&u, d, s[2], s[3]);
    let seq_shape: [usize; 3] = [1, s[3] * s[2], d];
    proof {
        index::lemma_extent(s[3] as int, s[2] as int);
        index::lemma_extent(s[3] * s[2], d as int);
        vstd::arithmetic::div_mod::lemma_mod_multiples_basic(s[3] * s[2], d as int);
    }
    let ghost raw = n@;
    norm::layernorm(a, &mut n, seq_shape, &ct.norm_in);
    let pe: Vec<A::T> = embedding::sin_embed_2d(a, d, s[2], s[3]);
    let ghost normed = n@;
    assert(attention::is_layernorm(a, raw, &ct.norm_in, d as int, normed));
    elementwise::add_to(a, &mut n, &pe);
    proof {
        reveal(is_freq_input);
    }
    n
}

/// The time sequence that enters the layers.
fn time_input<A: Arith>(a: &A, x: &[A::T], s: [usize; 3], ct: &CrossDomainTransformer<A::T>) -> (r: Vec<
    A::T,
>)
    requires
        ct.norm_in.dim > 0,
        resample3_ok(x@.len() as int, s, &ct.channel_upsampler_t, &ct.channel_upsampler_t_bias),
        ct.norm_in.dim * s[2] <= index::size3(
            resampled_shape3(s, &ct.channel_upsampler_t, &ct.channel_upsampler_t_bias),
        ),
        s[2] * ct.norm_in.dim <= usize::MAX,
        attention::layernorm_fits(&ct.norm_in_t, ct.norm_in.dim),
    ensures
        r@.len() == index::size3(time_seq_shape(s, ct.norm_in.dim)),
        is_time_input(a, x@, s, ct, r@),
{
    let d: usize = ct.norm_in.dim;
    let (u, _) = upsample_time(a, x, s, ct);
    proof {
        assert(1 * d * s[2] * 1 == d * s[2] && 1 * s[2] * d * 1 == s[2] * d) by (nonlinear_arith);
        index::lemma_extent(s[2] as int, d as int);
        vstd::arithmetic::div_mod::lemma_mod_multiples_basic(s[2] as int, d as int);
    }
    let mut n: Vec<A::T> = layout::swap_middle(&u, 1, d, s[2], 1);
    let seq_shape: [usize; 3] = [1, s[2], d];
    let ghost raw = n@;
    norm::layernorm(a, &mut n, seq_shape, &ct.norm_in_t);
    let pe: Vec<A::T> = embedding::sin_embed_1d(a, s[2], d);
    let ghost normed = n@;
    assert(attention::is_layernorm(a, raw, &ct.norm_in_t, d as int, normed));
    elementwise::add_to(a, &mut n, &pe);
    proof {
        reveal(is_time_input);
    }
    n
}

/// The transformer on a `[1, ch, Fr, T]` frequency tensor and a `[1, ch, T2]` time tensor.
/// Gives both results with their shapes, and the two sequences after each layer.
pub fn cross_domain_transformer_forward_traced<A: Arith>(
    a: &A,
    freq: &[A::T],
    freq_shape: [usize; 4],
    time: &[A::T],
    time_shape: [usize; 3],
    ct: &CrossDomainTransformer<A::T>,
) -> (r: (Vec<A::T>, [usize; 4], Vec<A::T>, [usize; 3], Vec<(Vec<A::T>, Vec<A::T>)>))
    requires
        cross_domain_ok(freq@.len() as int, freq_shape, time@.len() as int, time_shape, ct),
    ensures
        r.1 == freq_out_shape(freq_shape, ct),
        r.0@.len() == index::size4(r.1),
        r.3 == time_out_shape(time_shape, ct),
        r.2@.len() == index::size3(r.3),
        r.4@.len() == T_LAYERS,
        is_cross_domain_traced(
            a,
            freq@,
            freq_shape,
            time@,
            time_shape,
            ct,
            pair_buffers(r.4@),
            r.0@,
            r.2@,
        ),
{
    proof {
        reveal(cross_domain_ok);
    }
    let d: usize = ct.norm_in.dim;
    let fr: usize = freq_shape[2];
    let t: usize = freq_shape[3];
    let t2: usize = time_shape[2];
    let f0: Vec<A::T> = freq_input(a, freq, freq_shape, ct);
    let t0: Vec<A::T> = time_input(a, time, time_shape, ct);
    let fs: [usize; 3] = [1, t * fr, d];
    let ts: [usize; 3] = [1, t2, d];
    proof {
        assert(fs =~= freq_seq_shape(freq_shape, d));
        assert(ts =~= time_seq_shape(time_shape, d));
    }
    let trace: Vec<(Vec<A::T>, Vec<A::T>)> = run_layers(a, &f0, fs, &t0, ts, ct);
    proof {
        assert(d * fr * t == t * fr * d) by (nonlinear_arith);
        assert(1 * t2 * d * 1 == t2 * d && 1 * d * t2 * 1 == d * t2 && d * t2 == t2 * d)
            by (nonlinear_arith);
        assert(1 * (t * fr) * d == t * fr * d) by (nonlinear_arith);
        assert(trace@[T_LAYERS - 1].0@.len() == index::size3(fs));
    }
    let last: usize = T_LAYERS - 1;
    let freq_unflat: Vec<A::T> = layout::reverse_axes(&trace[last].0, t, fr, d);
    let time_unflat: Vec<A::T> = layout::swap_middle(&trace[last].1, 1, t2, d, 1);
    proof {
        index::lemma_extent(d as int, fr as int);
        index::lemma_extent(d * fr, t as int);
        index::lemma_extent(d as int, t2 as int);
    }
    let (freq_out, freq_out_shape) = downsample_freq(a, &freq_unflat, [1, d, fr, t], ct);
    let (time_out, time_out_shape) = downsample_time(a, &time_unflat, [1, d, t2], ct);
    proof {
        reveal(is_cross_domain_traced);
    }
    (freq_out, freq_out_shape, time_out, time_out_shape, trace)
}

/// The transformer on a `[1, ch, Fr, T]` frequency tensor and a `[1, ch, T2]` time tensor.
pub fn cross_domain_transformer_forward<A: Arith>(
    a: &A,
    freq: &[A::T],
    freq_shape: [usize; 4],
    time: &[A::T],
    time_shape: [usize; 3],
    ct: &CrossDomainTransformer<A::T>,
) -> (r: (Vec<A::T>, [usize; 4], Vec<A::T>, [usize; 3]))
    requires
        cross_domain_ok(freq@.len() as int, freq_shape, time@.len() as int, time_shape, ct),
    ensures
        r.1 == freq_out_shape(freq_shape, ct),
        r.0@.len() == index::size4(r.1),
        r.3 == time_out_shape(time_shape, ct),
        r.2@.len() == index::size3(r.3),
        is_cross_domain(a, freq@, freq_shape, time@, time_shape, ct, r.0@, r.2@),
{
    let (f, fs, t, ts, _) = cross_domain_transformer_forward_traced(
        a,
        freq,
        freq_shape,
        time,
        time_shape,
        ct,
    );
    proof {
        reveal(is_cross_domain);
    }
    (f, fs, t, ts)
}

} // verus!
