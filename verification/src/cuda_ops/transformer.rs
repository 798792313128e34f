//! The transformer between the encoders and the decoders.
use vstd::prelude::*;
use crate::cuda_ops::attention;
use crate::cuda_ops::conv;
use crate::cuda_ops::elementwise;
use crate::cuda_ops::layout;
use crate::error::DemucsError;
use crate::gpu_model;
use crate::gpu_model::GpuBias;
use crate::gpu_model::GpuConv1dWeight;
use crate::gpu_model::GpuCrossDomainTransformer;
use crate::gpu_model::GpuTransformerLayerWeights;
use crate::gpu_tensor;
use crate::gpu_tensor::Built;
use crate::gpu_tensor::GpuTensor;
use crate::program;
use crate::program::Program;
use crate::program::Step;

verus! {

/// A pair of tensors was made as `b` says, on the way from the program `before` to `s`: one of
/// frequencies, of rank `rank`, and one of times.
pub open spec fn good_pair(
    before: Seq<Step>,
    b: Built<(GpuTensor, GpuTensor)>,
    rank: usize,
    r: Result<(GpuTensor, GpuTensor), DemucsError>,
    s: Seq<Step>,
) -> bool {
    &&& gpu_tensor::built(b, r, s)
    &&& program::program_ok(s)
    &&& program::extends(before, s)
    &&& r is Ok ==> {
        &&& gpu_tensor::tensor_ok(s, r->Ok_0.0)
        &&& gpu_tensor::tensor_ok(s, r->Ok_0.1)
        &&& r->Ok_0.0.rank == rank
        &&& r->Ok_0.1.rank == 3
    }
}

/// The steps of [`channel_resample_4d`].
#[verifier::opaque]
pub open spec fn channel_resample_4d_steps(
    s: Seq<Step>,
    x: GpuTensor,
    w: GpuConv1dWeight,
    bias: GpuBias,
) -> Built<GpuTensor> {
    match layout::reshape_bcft_to_bfct_steps(s, x) {
        Err(e) => Err(e),
        Ok((s, rows)) => match conv::conv1d_1x1_steps(s, rows, w, bias) {
            Err(e) => Err(e),
            Ok((s, y)) => layout::reshape_bfct_to_bcft_steps(s, y, x.d0),
        },
    }
}

/// Changes the number of channels of `[b, c, f, t]`.
pub fn channel_resample_4d(p: &mut Program, x: GpuTensor, w: &GpuConv1dWeight, bias: &GpuBias) -> (r: Result<
    GpuTensor,
    DemucsError,
>)
    requires
        program::program_ok(old(p)@),
        gpu_tensor::tensor_ok(old(p)@, x),
        x.rank == 4,
        gpu_tensor::buffer_ok(old(p)@, w.data),
        gpu_tensor::buffer_ok(old(p)@, bias.data),
    ensures
        elementwise::good(old(p)@, channel_resample_4d_steps(old(p)@, x, *w, *bias), r, final(p)@),
        r is Ok ==> r->Ok_0.rank == 4,
{
    proof {
        reveal(channel_resample_4d_steps);
    }
    let rows: GpuTensor = layout::reshape_bcft_to_bfct(p, x)?;
    let y: GpuTensor = conv::conv1d_1x1(p, rows, w, bias)?;
    layout::reshape_bfct_to_bcft(p, y, x.d0)
}

/// Changes the number of channels of `[b, c, t]`.
pub fn channel_resample_3d(p: &mut Program, x: GpuTensor, w: &GpuConv1dWeight, bias: &GpuBias) -> (r: Result<
    GpuTensor,
    DemucsError,
>)
    requires
        program::program_ok(old(p)@),
        gpu_tensor::tensor_ok(old(p)@, x),
        x.rank == 3,
        gpu_tensor::buffer_ok(old(p)@, w.data),
        gpu_tensor::buffer_ok(old(p)@, bias.data),
    ensures
        elementwise::good(old(p)@, conv::conv1d_1x1_steps(old(p)@, x, *w, *bias), r, final(p)@),
        r is Ok ==> r->Ok_0.rank == 3,
{
    conv::conv1d_1x1(p, x, w, bias)
}

/// The steps of [`resample4`].
pub open spec fn resample4_steps(
    s: Seq<Step>,
    x: GpuTensor,
    w: Option<GpuConv1dWeight>,
    bias: Option<GpuBias>,
) -> Built<GpuTensor> {
    match (w, bias) {
        (Some(w), Some(bias)) => channel_resample_4d_steps(s, x, w, bias),
        _ => Ok((s, x)),
    }
}

/// Changes the number of channels of `[b, c, f, t]`, where the model says so.
fn resample4(p: &mut Program, x: GpuTensor, w: &Option<GpuConv1dWeight>, bias: &Option<GpuBias>) -> (r: Result<
    GpuTensor,
    DemucsError,
>)
    requires
        program::program_ok(old(p)@),
        gpu_tensor::tensor_ok(old(p)@, x),
        x.rank == 4,
        gpu_model::resampler_ok(old(p)@, *w, *bias),
    ensures
        elementwise::good(old(p)@, resample4_steps(old(p)@, x, *w, *bias), r, final(p)@),
        r is Ok ==> r->Ok_0.rank == 4,
{
    match (w, bias) {
        (Some(w), Some(bias)) => channel_resample_4d(p, x, w, bias),
        _ => Ok(x),
    }
}

/// The steps of [`resample3`].
pub open spec fn resample3_steps(
    s: Seq<Step>,
    x: GpuTensor,
    w: Option<GpuConv1dWeight>,
    bias: Option<GpuBias>,
) -> Built<GpuTensor> {
    match (w, bias) {
        (Some(w), Some(bias)) => conv::conv1d_1x1_steps(s, x, w, bias),
        _ => Ok((s, x)),
    }
}

/// Changes the number of channels of `[b, c, t]`, where the model says so.
fn resample3(p: &mut Program, x: GpuTensor, w: &Option<GpuConv1dWeight>, bias: &Option<GpuBias>) -> (r: Result<
    GpuTensor,
    DemucsError,
>)
    requires
        program::program_ok(old(p)@),
        gpu_tensor::tensor_ok(old(p)@, x),
        x.rank == 3,
        gpu_model::resampler_ok(old(p)@, *w, *bias),
    ensures
        elementwise::good(old(p)@, resample3_steps(old(p)@, x, *w, *bias), r, final(p)@),
        r is Ok ==> r->Ok_0.rank == 3,
{
    match (w, bias) {
        (Some(w), Some(bias)) => channel_resample_3d(p, x, w, bias),
        _ => Ok(x),
    }
}

/// The steps of [`both_layers`].
#[verifier::opaque]
pub open spec fn both_layers_steps(
    s: Seq<Step>,
    f: GpuTensor,
    t: GpuTensor,
    fl: GpuTransformerLayerWeights,
    tl: GpuTransformerLayerWeights,
) -> Built<(GpuTensor, GpuTensor)> {
    match (fl, tl) {
        (
            GpuTransformerLayerWeights::SelfAttn(fl),
            GpuTransformerLayerWeights::SelfAttn(tl),
        ) => match attention::self_attn_steps(s, f, fl) {
            Err(e) => Err(e),
            Ok((s, fo)) => match attention::self_attn_steps(s, t, tl) {
                Err(e) => Err(e),
                Ok((s, to)) => Ok((s, (fo, to))),
            },
        },
        (
            GpuTransformerLayerWeights::CrossAttn(fl),
            GpuTransformerLayerWeights::CrossAttn(tl),
        ) => match attention::cross_attn_steps(s, f, t, fl) {
            Err(e) => Err(e),
            Ok((s, fo)) => match attention::cross_attn_steps(s, t, f, tl) {
                Err(e) => Err(e),
                Ok((s, to)) => Ok((s, (fo, to))),
            },
        },
        _ => Err("cross_domain_transformer: freq/time layer type mismatch"@),
    }
}

/// One layer for the frequencies and one for the times. Where they attend to each other, both
/// see what there was before the layer.
fn both_layers(
    p: &mut Program,
    f: GpuTensor,
    t: GpuTensor,
    fl: &GpuTransformerLayerWeights,
    tl: &GpuTransformerLayerWeights,
) -> (r: Result<(GpuTensor, GpuTensor), DemucsError>)
    requires
        program::program_ok(old(p)@),
        gpu_tensor::tensor_ok(old(p)@, f),
        gpu_tensor::tensor_ok(old(p)@, t),
        f.rank == 3,
        t.rank == 3,
        gpu_model::transformer_layer_ok(old(p)@, *fl),
        gpu_model::transformer_layer_ok(old(p)@, *tl),
    ensures
        good_pair(old(p)@, both_layers_steps(old(p)@, f, t, *fl, *tl), 3, r, final(p)@),
{
    proof {
        reveal(both_layers_steps);
        reveal(gpu_model::transformer_layer_ok);
    }
    match (fl, tl) {
        (
            GpuTransformerLayerWeights::SelfAttn(fl),
            GpuTransformerLayerWeights::SelfAttn(tl),
        ) => {
            let fo: GpuTensor = attention::self_attn_layer(p, f, fl)?;
            let to: GpuTensor = attention::self_attn_layer(p, t, tl)?;
            Ok((fo, to))
        },
        (
            GpuTransformerLayerWeights::CrossAttn(fl),
            GpuTransformerLayerWeights::CrossAttn(tl),
        ) => {
            let fo: GpuTensor = attention::cross_attn_layer(p, f, t, fl)?;
            let to: GpuTensor = attention::cross_attn_layer(p, t, f, tl)?;
            Ok((fo, to))
        },
        _ => Err(
            DemucsError::Shape(
                "cross_domain_transformer: freq/time layer type mismatch".to_owned(),
            ),
        ),
    }
}

/// The steps of the layers from `i` on.
pub open spec fn layers_steps_from(
    s: Seq<Step>,
    f: GpuTensor,
    t: GpuTensor,
    layers: Seq<GpuTransformerLayerWeights>,
    layers_t: Seq<GpuTransformerLayerWeights>,
    i: int,
) -> Built<(GpuTensor, GpuTensor)>
    decreases layers.len() - i,
{
    if i >= layers.len() || i >= layers_t.len() {
        Ok((s, (f, t)))
    } else {
        match both_layers_steps(s, f, t, layers[i], layers_t[i]) {
            Err(e) => Err(e),
            Ok((s, (f, t))) => layers_steps_from(s, f, t, layers, layers_t, i + 1),
        }
    }
}

/// All layers of the transformer, as many as there are for both.
fn all_layers(p: &mut Program, f: GpuTensor, t: GpuTensor, ct: &GpuCrossDomainTransformer) -> (r: Result<
    (GpuTensor, GpuTensor),
    DemucsError,
>)
    requires
        program::program_ok(old(p)@),
        gpu_tensor::tensor_ok(old(p)@, f),
        gpu_tensor::tensor_ok(old(p)@, t),
        f.rank == 3,
        t.rank == 3,
        gpu_model::transformer_ok(old(p)@, *ct),
    ensures
        good_pair(
            old(p)@,
            layers_steps_from(old(p)@, f, t, ct.layers@, ct.layers_t@, 0),
            3,
            r,
            final(p)@,
        ),
{
    let n: usize = if ct.layers.len() <= ct.layers_t.len() {
        ct.layers.len()
    } else {
        ct.layers_t.len()
    };
    let ghost before = p@;
    let mut fs: GpuTensor = f;
    let mut ts: GpuTensor = t;
    let mut i: usize = 0;
    while i < n
        invariant
            i <= n,
            n <= ct.layers@.len(),
            n <= ct.layers_t@.len(),
            before == old(p)@,
            program::program_ok(p@),
            program::extends(before, p@),
            gpu_model::transformer_layers_ok(p@, ct.layers@),
            gpu_model::transformer_layers_ok(p@, ct.layers_t@),
            gpu_tensor::tensor_ok(p@, fs),
            gpu_tensor::tensor_ok(p@, ts),
            fs.rank == 3,
            ts.rank == 3,
            layers_steps_from(p@, fs, ts, ct.layers@, ct.layers_t@, i as int)
                == layers_steps_from(before, f, t, ct.layers@, ct.layers_t@, 0),
        decreases n - i,
    {
        proof {
            reveal(gpu_model::transformer_layers_ok);
        }
        let ghost s = p@;
        match both_layers(p, fs, ts, &ct.layers[i], &ct.layers_t[i]) {
            Ok((fo, to)) => {
                proof {
                    gpu_model::lemma_transformer_layers(s, p@, ct.layers@);
                    gpu_model::lemma_transformer_layers(s, p@, ct.layers_t@);
                }
                fs = fo;
                ts = to;
            },
            Err(e) => {
                return Err(e);
            },
        }
        i = i + 1;
    }
    Ok((fs, ts))
}

/// The steps of [`embedded`].
#[verifier::opaque]
pub open spec fn embedded_steps(
    s: Seq<Step>,
    f: GpuTensor,
    t: GpuTensor,
    tf: usize,
    t2: usize,
    ct: GpuCrossDomainTransformer,
    freq_pe: GpuTensor,
    time_pe: GpuTensor,
) -> Built<(GpuTensor, GpuTensor)> {
    let d = ct.norm_in.dim;
    match attention::normed_steps(s, f, ct.norm_in, tf, 1, tf, d) {
        Err(e) => Err(e),
        Ok((s, fo)) => match attention::normed_steps(s, t, ct.norm_in_t, t2, 1, t2, d) {
            Err(e) => Err(e),
            Ok((s, to)) => match elementwise::add_inplace_steps(s, fo, freq_pe) {
                Err(e) => Err(e),
                Ok((s, fo)) => match elementwise::add_inplace_steps(s, to, time_pe) {
                    Err(e) => Err(e),
                    Ok((s, to)) => Ok((s, (fo, to))),
                },
            },
        },
    }
}

/// Normalizes both sequences and adds the positional embeddings.
fn embedded(
    p: &mut Program,
    f: GpuTensor,
    t: GpuTensor,
    tf: usize,
    t2: usize,
    ct: &GpuCrossDomainTransformer,
    freq_pe: GpuTensor,
    time_pe: GpuTensor,
) -> (r: Result<(GpuTensor, GpuTensor), DemucsError>)
    requires
        program::program_ok(old(p)@),
        gpu_tensor::tensor_ok(old(p)@, f),
        gpu_tensor::tensor_ok(old(p)@, t),
        gpu_tensor::tensor_ok(old(p)@, freq_pe),
        gpu_tensor::tensor_ok(old(p)@, time_pe),
        gpu_model::layer_norm_ok(old(p)@, ct.norm_in),
        gpu_model::layer_norm_ok(old(p)@, ct.norm_in_t),
    ensures
        good_pair(
            old(p)@,
            embedded_steps(old(p)@, f, t, tf, t2, *ct, freq_pe, time_pe),
            3,
            r,
            final(p)@,
        ),
{
    proof {
        reveal(embedded_steps);
    }
    let d: usize = ct.norm_in.dim;
    let fo: GpuTensor = attention::normed(p, f, &ct.norm_in, tf, 1, tf, d)?;
    let to: GpuTensor = attention::normed(p, t, &ct.norm_in_t, t2, 1, t2, d)?;
    let fo: GpuTensor = elementwise::add_inplace(p, fo, freq_pe)?;
    let to: GpuTensor = elementwise::add_inplace(p, to, time_pe)?;
    Ok((fo, to))
}

/// The steps of [`sequences`].
#[verifier::opaque]
pub open spec fn sequences_steps(
    s: Seq<Step>,
    freq: GpuTensor,
    time: GpuTensor,
    ct: GpuCrossDomainTransformer,
) -> Built<(GpuTensor, GpuTensor)> {
    match resample4_steps(s, freq, ct.channel_upsampler, ct.channel_upsampler_bias) {
        Err(e) => Err(e),
        Ok((s, f)) => match resample3_steps(
            s,
            time,
            ct.channel_upsampler_t,
            ct.channel_upsampler_t_bias,
        ) {
            Err(e) => Err(e),
            Ok((s, t)) => match layout::flatten_bcft_to_btfc_steps(s, f) {
                Err(e) => Err(e),
                Ok((s, f)) => match layout::swap_dims_12_3d_steps(s, t) {
                    Err(e) => Err(e),
                    Ok((s, t)) => Ok((s, (f, t))),
                },
            },
        },
    }
}

/// The bottleneck of both branches as sequences of the transformer's width.
fn sequences(p: &mut Program, freq: GpuTensor, time: GpuTensor, ct: &GpuCrossDomainTransformer) -> (r: Result<
    (GpuTensor, GpuTensor),
    DemucsError,
>)
    requires
        program::program_ok(old(p)@),
        gpu_tensor::tensor_ok(old(p)@, freq),
        gpu_tensor::tensor_ok(old(p)@, time),
        freq.rank == 4,
        time.rank == 3,
        gpu_model::transformer_ok(old(p)@, *ct),
    ensures
        good_pair(old(p)@, sequences_steps(old(p)@, freq, time, *ct), 3, r, final(p)@),
{
    proof {
        reveal(sequences_steps);
    }
    let f: GpuTensor = resample4(p, freq, &ct.channel_upsampler, &ct.channel_upsampler_bias)?;
    let t: GpuTensor = resample3(p, time, &ct.channel_upsampler_t, &ct.channel_upsampler_t_bias)?;
    let f: GpuTensor = layout::flatten_bcft_to_btfc(p, f)?;
    let t: GpuTensor = layout::swap_dims_12_3d(p, t)?;
    Ok((f, t))
}

/// The steps of [`planes`].
#[verifier::opaque]
pub open spec fn planes_steps(
    s: Seq<Step>,
    f: GpuTensor,
    t: GpuTensor,
    fr: usize,
    frames: usize,
    ct: GpuCrossDomainTransformer,
) -> Built<(GpuTensor, GpuTensor)> {
    match layout::unflatten_btfc_to_bcft_steps(s, f, fr, frames) {
        Err(e) => Err(e),
        Ok((s, f)) => match layout::swap_dims_12_3d_steps(s, t) {
            Err(e) => Err(e),
            Ok((s, t)) => match resample4_steps(
                s,
                f,
                ct.channel_downsampler,
                ct.channel_downsampler_bias,
            ) {
                Err(e) => Err(e),
                Ok((s, f)) => match resample3_steps(
                    s,
                    t,
                    ct.channel_downsampler_t,
                    ct.channel_downsampler_t_bias,
                ) {
                    Err(e) => Err(e),
                    Ok((s, t)) => Ok((s, (f, t))),
                },
            },
        },
    }
}

/// The sequences back in the layout and width of the branches.
fn planes(
    p: &mut Program,
    f: GpuTensor,
    t: GpuTensor,
    fr: usize,
    frames: usize,
    ct: &GpuCrossDomainTransformer,
) -> (r: Result<(GpuTensor, GpuTensor), DemucsError>)
    requires
        program::program_ok(old(p)@),
        gpu_tensor::tensor_ok(old(p)@, f),
        gpu_tensor::tensor_ok(old(p)@, t),
        f.rank == 3,
        t.rank == 3,
        gpu_model::transformer_ok(old(p)@, *ct),
    ensures
        good_pair(old(p)@, planes_steps(old(p)@, f, t, fr, frames, *ct), 4, r, final(p)@),
{
    proof {
        reveal(planes_steps);
    }
    let f: GpuTensor = layout::unflatten_btfc_to_bcft(p, f, fr, frames)?;
    let t: GpuTensor = layout::swap_dims_12_3d(p, t)?;
    let f: GpuTensor = resample4(p, f, &ct.channel_downsampler, &ct.channel_downsampler_bias)?;
    let t: GpuTensor = resample3(
        p,
        t,
        &ct.channel_downsampler_t,
        &ct.channel_downsampler_t_bias,
    )?;
    Ok((f, t))
}

/// The steps of [`cross_domain_transformer`].
#[verifier::opaque]
pub open spec fn cross_domain_steps(
    s: Seq<Step>,
    freq: GpuTensor,
    time: GpuTensor,
    ct: GpuCrossDomainTransformer,
    freq_pe: GpuTensor,
    time_pe: GpuTensor,
) -> Built<(GpuTensor, GpuTensor)> {
    match gpu_tensor::size2(freq.d3, freq.d2) {
        None => Err(gpu_tensor::too_large()),
        Some(tf) => match sequences_steps(s, freq, time, ct) {
            Err(e) => Err(e),
            Ok((s, (f, t))) => match embedded_steps(s, f, t, tf, time.d2, ct, freq_pe, time_pe) {
                Err(e) => Err(e),
                Ok((s, (f, t))) => match layers_steps_from(s, f, t, ct.layers@, ct.layers_t@, 0) {
                    Err(e) => Err(e),
                    Ok((s, (f, t))) => planes_steps(s, f, t, freq.d2, freq.d3, ct),
                },
            },
        },
    }
}

/// The transformer on the bottleneck of both branches, `[1, c, f, t]` and `[1, c, t2]`.
pub fn cross_domain_transformer(
    p: &mut Program,
    freq: GpuTensor,
    time: GpuTensor,
    ct: &GpuCrossDomainTransformer,
    freq_pe: GpuTensor,
    time_pe: GpuTensor,
) -> (r: Result<(GpuTensor, GpuTensor), DemucsError>)
    requires
        program::program_ok(old(p)@),
        gpu_tensor::tensor_ok(old(p)@, freq),
        gpu_tensor::tensor_ok(old(p)@, time),
        freq.rank == 4,
        time.rank == 3,
        gpu_model::transformer_ok(old(p)@, *ct),
        gpu_tensor::tensor_ok(old(p)@, freq_pe),
        gpu_tensor::tensor_ok(old(p)@, time_pe),
    ensures
        good_pair(
            old(p)@,
            cross_domain_steps(old(p)@, freq, time, *ct, freq_pe, time_pe),
            4,
            r,
            final(p)@,
        ),
{
    proof {
        reveal(cross_domain_steps);
    }
    let tf: usize = match gpu_tensor::count2(freq.d3, freq.d2) {
        Some(n) => n,
        None => {
            return Err(gpu_tensor::large());
        },
    };
    let ghost s0 = p@;
    let (f, t) = sequences(p, freq, time, ct)?;
    let (f, t) = embedded(p, f, t, tf, time.d2, ct, freq_pe, time_pe)?;
    let ghost s2 = p@;
    proof {
        gpu_model::lemma_transformer_ok(s0, s2, *ct);
    }
    let (f, t) = all_layers(p, f, t, ct)?;
    proof {
        gpu_model::lemma_transformer_ok(s0, p@, *ct);
    }
    planes(p, f, t, freq.d2, freq.d3, ct)
}

} // verus!
