//! Models with the same weights are the same on the device.
use vstd::prelude::*;
use crate::cuda_ops::forward;
use crate::cuda_ops::layers;
use crate::cuda_ops::transformer;
use crate::gpu_loading;
use crate::gpu_model::GpuBias;
use crate::gpu_model::GpuConv1dWeight;
use crate::gpu_model::GpuCrossDomainTransformer;
use crate::gpu_model::GpuDConv;
use crate::gpu_model::GpuHDecLayer;
use crate::gpu_model::GpuHEncLayer;
use crate::gpu_model::GpuHTDemucs;
use crate::gpu_model::GpuTDecLayer;
use crate::gpu_model::GpuTEncLayer;
use crate::gpu_model::GpuTransformerLayerWeights;
use crate::gpu_tensor::GpuTensor;
use crate::model::Conv1dWeight;
use crate::model::CrossAttnLayer;
use crate::model::CrossDomainTransformer;
use crate::model::DConv;
use crate::model::DConvLayer;
use crate::model::HDecLayer;
use crate::model::HEncLayer;
use crate::model::HTDemucs;
use crate::model::MhaWeights;
use crate::model::SelfAttnLayer;
use crate::model::TDecLayer;
use crate::model::TEncLayer;
use crate::model::TransformerLayerWeights;
use crate::program::Step;
use crate::same_weights;

verus! {

/// A layer of a residual stack.
proof fn dconv_layer<T>(x: DConvLayer<T>, y: DConvLayer<T>)
    requires
        same_weights::same_dconv_layer(x, y, true),
    ensures
        gpu_loading::dconv_layer_arrays(x) == gpu_loading::dconv_layer_arrays(y),
        forall|base: int| #[trigger]
            gpu_loading::dconv_layer_at(x, base) == gpu_loading::dconv_layer_at(y, base),
{
    reveal(same_weights::same_dconv_layer);
    reveal(gpu_loading::dconv_layer_arrays);
    reveal(gpu_loading::dconv_layer_at);
}

/// The arrays of the first layers of a residual stack.
proof fn dconv_layers<T>(x: Seq<DConvLayer<T>>, y: Seq<DConvLayer<T>>, n: int)
    requires
        same_weights::same_dconv_layers(x, y, true),
        n <= x.len(),
    ensures
        gpu_loading::dconv_layers_arrays(x, n) == gpu_loading::dconv_layers_arrays(y, n),
    decreases n,
{
    if n > 0 {
        dconv_layers(x, y, n - 1);
        assert(same_weights::same_dconv_layer(x[n - 1], y[n - 1], true));
        dconv_layer(x[n - 1], y[n - 1]);
    }
}

/// A residual stack.
proof fn dconv<T>(x: DConv<T>, y: DConv<T>, g: GpuDConv, h: GpuDConv, base: int)
    requires
        same_weights::same_dconv(x, y, true),
        gpu_loading::is_dconv_at(g, x, base),
        gpu_loading::is_dconv_at(h, y, base),
    ensures
        g.layers@ == h.layers@,
{
    reveal(same_weights::same_dconv);
    reveal(gpu_loading::are_dconv_layers_at);
    let (v, u) = (x.layers@, y.layers@);
    assert forall|j: int| 0 <= j < v.len() implies g.layers@[j] == h.layers@[j] by {
        dconv_layers(v, u, j);
        assert(same_weights::same_dconv_layer(v[j], u[j], true));
        dconv_layer(v[j], u[j]);
    }
    assert(g.layers@ =~= h.layers@);
}

/// The arrays of a residual stack.
proof fn dconv_arrays<T>(x: DConv<T>, y: DConv<T>)
    requires
        same_weights::same_dconv(x, y, true),
    ensures
        gpu_loading::dconv_arrays(x) == gpu_loading::dconv_arrays(y),
{
    reveal(same_weights::same_dconv);
    dconv_layers(x.layers@, y.layers@, x.layers@.len() as int);
}

/// The arrays of a layer of the frequency encoder.
proof fn henc_arrays<T>(x: HEncLayer<T>, y: HEncLayer<T>)
    requires
        same_weights::same_henc(x, y, true),
    ensures
        gpu_loading::henc_arrays(x) == gpu_loading::henc_arrays(y),
{
    reveal(same_weights::same_henc);
    reveal(gpu_loading::henc_arrays);
    dconv_arrays(x.dconv, y.dconv);
}

/// The steps of a layer of the frequency encoder.
proof fn henc_steps<T>(
    x: HEncLayer<T>,
    y: HEncLayer<T>,
    g: GpuHEncLayer,
    h: GpuHEncLayer,
    base: int,
)
    requires
        same_weights::same_henc(x, y, true),
        gpu_loading::is_henc_at(g, x, base),
        gpu_loading::is_henc_at(h, y, base),
    ensures
        forall|s: Seq<Step>, t: GpuTensor| #[trigger]
            layers::henc_layer_steps(s, t, g) == layers::henc_layer_steps(s, t, h),
{
    reveal(same_weights::same_henc);
    reveal(gpu_loading::is_henc_at);
    reveal(layers::henc_layer_steps);
    reveal(layers::dconv_per_frequency_steps);
    dconv_arrays(x.dconv, y.dconv);
    dconv(x.dconv, y.dconv, g.dconv, h.dconv, base + 2);
}

/// The arrays of the first layers of the frequency encoder.
proof fn hencs_arrays<T>(x: Seq<HEncLayer<T>>, y: Seq<HEncLayer<T>>, n: int)
    requires
        same_weights::same_hencs(x, y, true),
        n <= x.len(),
    ensures
        gpu_loading::hencs_arrays(x, n) == gpu_loading::hencs_arrays(y, n),
    decreases n,
{
    if n > 0 {
        hencs_arrays(x, y, n - 1);
        assert(same_weights::same_henc(x[n - 1], y[n - 1], true));
        henc_arrays(x[n - 1], y[n - 1]);
    }
}

/// The steps of the layers of the frequency encoder.
proof fn hencs_steps<T>(
    x: Seq<HEncLayer<T>>,
    y: Seq<HEncLayer<T>>,
    g: Seq<GpuHEncLayer>,
    h: Seq<GpuHEncLayer>,
    base: int,
)
    requires
        same_weights::same_hencs(x, y, true),
        gpu_loading::are_hencs_at(g, x, base),
        gpu_loading::are_hencs_at(h, y, base),
    ensures
        g.len() == h.len(),
        forall|i: int, s: Seq<Step>, t: GpuTensor|
            0 <= i < g.len() ==> #[trigger] layers::henc_layer_steps(s, t, g[i])
                == layers::henc_layer_steps(s, t, h[i]),
{
    reveal(gpu_loading::are_hencs_at);
    assert forall|i: int, s: Seq<Step>, t: GpuTensor|
        0 <= i < g.len() implies #[trigger] layers::henc_layer_steps(s, t, g[i])
        == layers::henc_layer_steps(s, t, h[i]) by {
        hencs_arrays(x, y, i);
        assert(same_weights::same_henc(x[i], y[i], true));
        henc_steps(x[i], y[i], g[i], h[i], base + gpu_loading::hencs_arrays(x, i).len());
    }
}

/// The arrays of a layer of the time encoder.
proof fn tenc_arrays<T>(x: TEncLayer<T>, y: TEncLayer<T>)
    requires
        same_weights::same_tenc(x, y, true),
    ensures
        gpu_loading::tenc_arrays(x) == gpu_loading::tenc_arrays(y),
{
    reveal(same_weights::same_tenc);
    reveal(gpu_loading::tenc_arrays);
    dconv_arrays(x.dconv, y.dconv);
}

/// The steps of a layer of the time encoder.
proof fn tenc_steps<T>(
    x: TEncLayer<T>,
    y: TEncLayer<T>,
    g: GpuTEncLayer,
    h: GpuTEncLayer,
    base: int,
)
    requires
        same_weights::same_tenc(x, y, true),
        gpu_loading::is_tenc_at(g, x, base),
        gpu_loading::is_tenc_at(h, y, base),
    ensures
        forall|s: Seq<Step>, t: GpuTensor| #[trigger]
            layers::tenc_layer_steps(s, t, g) == layers::tenc_layer_steps(s, t, h),
{
    reveal(same_weights::same_tenc);
    reveal(gpu_loading::is_tenc_at);
    reveal(layers::tenc_layer_steps);
    dconv_arrays(x.dconv, y.dconv);
    dconv(x.dconv, y.dconv, g.dconv, h.dconv, base + 2);
}

/// The arrays of the first layers of the time encoder.
proof fn tencs_arrays<T>(x: Seq<TEncLayer<T>>, y: Seq<TEncLayer<T>>, n: int)
    requires
        same_weights::same_tencs(x, y, true),
        n <= x.len(),
    ensures
        gpu_loading::tencs_arrays(x, n) == gpu_loading::tencs_arrays(y, n),
    decreases n,
{
    if n > 0 {
        tencs_arrays(x, y, n - 1);
        assert(same_weights::same_tenc(x[n - 1], y[n - 1], true));
        tenc_arrays(x[n - 1], y[n - 1]);
    }
}

/// The steps of the layers of the time encoder.
proof fn tencs_steps<T>(
    x: Seq<TEncLayer<T>>,
    y: Seq<TEncLayer<T>>,
    g: Seq<GpuTEncLayer>,
    h: Seq<GpuTEncLayer>,
    base: int,
)
    requires
        same_weights::same_tencs(x, y, true),
        gpu_loading::are_tencs_at(g, x, base),
        gpu_loading::are_tencs_at(h, y, base),
    ensures
        g.len() == h.len(),
        forall|i: int, s: Seq<Step>, t: GpuTensor|
            0 <= i < g.len() ==> #[trigger] layers::tenc_layer_steps(s, t, g[i])
                == layers::tenc_layer_steps(s, t, h[i]),
{
    reveal(gpu_loading::are_tencs_at);
    assert forall|i: int, s: Seq<Step>, t: GpuTensor|
        0 <= i < g.len() implies #[trigger] layers::tenc_layer_steps(s, t, g[i])
        == layers::tenc_layer_steps(s, t, h[i]) by {
        tencs_arrays(x, y, i);
        assert(same_weights::same_tenc(x[i], y[i], true));
        tenc_steps(x[i], y[i], g[i], h[i], base + gpu_loading::tencs_arrays(x, i).len());
    }
}

/// The arrays of a layer of the frequency decoder.
proof fn hdec_arrays<T>(x: HDecLayer<T>, y: HDecLayer<T>)
    requires
        same_weights::same_hdec(x, y, true),
    ensures
        gpu_loading::hdec_arrays(x) == gpu_loading::hdec_arrays(y),
{
    reveal(same_weights::same_hdec);
    reveal(gpu_loading::hdec_arrays);
    dconv_arrays(x.dconv, y.dconv);
}

/// The steps of a layer of the frequency decoder.
proof fn hdec_steps<T>(
    x: HDecLayer<T>,
    y: HDecLayer<T>,
    g: GpuHDecLayer,
    h: GpuHDecLayer,
    base: int,
)
    requires
        same_weights::same_hdec(x, y, true),
        gpu_loading::is_hdec_at(g, x, base),
        gpu_loading::is_hdec_at(h, y, base),
    ensures
        forall|s: Seq<Step>, t: GpuTensor, u: GpuTensor, n: usize| #[trigger]
            layers::hdec_layer_steps(s, t, u, n, g) == layers::hdec_layer_steps(s, t, u, n, h),
{
    reveal(same_weights::same_hdec);
    reveal(gpu_loading::is_hdec_at);
    reveal(layers::hdec_layer_steps);
    reveal(layers::dconv_rows_steps);
    dconv_arrays(x.dconv, y.dconv);
    dconv(x.dconv, y.dconv, g.dconv, h.dconv, base + 2);
}

/// The arrays of the first layers of the frequency decoder.
proof fn hdecs_arrays<T>(x: Seq<HDecLayer<T>>, y: Seq<HDecLayer<T>>, n: int)
    requires
        same_weights::same_hdecs(x, y, true),
        n <= x.len(),
    ensures
        gpu_loading::hdecs_arrays(x, n) == gpu_loading::hdecs_arrays(y, n),
    decreases n,
{
    if n > 0 {
        hdecs_arrays(x, y, n - 1);
        assert(same_weights::same_hdec(x[n - 1], y[n - 1], true));
        hdec_arrays(x[n - 1], y[n - 1]);
    }
}

/// The steps of the layers of the frequency decoder.
proof fn hdecs_steps<T>(
    x: Seq<HDecLayer<T>>,
    y: Seq<HDecLayer<T>>,
    g: Seq<GpuHDecLayer>,
    h: Seq<GpuHDecLayer>,
    base: int,
)
    requires
        same_weights::same_hdecs(x, y, true),
        gpu_loading::are_hdecs_at(g, x, base),
        gpu_loading::are_hdecs_at(h, y, base),
    ensures
        g.len() == h.len(),
        forall|i: int, s: Seq<Step>, t: GpuTensor, u: GpuTensor, n: usize|
            0 <= i < g.len() ==> #[trigger] layers::hdec_layer_steps(s, t, u, n, g[i])
                == layers::hdec_layer_steps(s, t, u, n, h[i]),
{
    reveal(gpu_loading::are_hdecs_at);
    assert forall|i: int, s: Seq<Step>, t: GpuTensor, u: GpuTensor, n: usize|
        0 <= i < g.len() implies #[trigger] layers::hdec_layer_steps(s, t, u, n, g[i])
        == layers::hdec_layer_steps(s, t, u, n, h[i]) by {
        hdecs_arrays(x, y, i);
        assert(same_weights::same_hdec(x[i], y[i], true));
        hdec_steps(x[i], y[i], g[i], h[i], base + gpu_loading::hdecs_arrays(x, i).len());
    }
}

/// The arrays of a layer of the time decoder.
proof fn tdec_arrays<T>(x: TDecLayer<T>, y: TDecLayer<T>)
    requires
        same_weights::same_tdec(x, y, true),
    ensures
        gpu_loading::tdec_arrays(x) == gpu_loading::tdec_arrays(y),
{
    reveal(same_weights::same_tdec);
    reveal(gpu_loading::tdec_arrays);
    dconv_arrays(x.dconv, y.dconv);
}

/// The steps of a layer of the time decoder.
proof fn tdec_steps<T>(
    x: TDecLayer<T>,
    y: TDecLayer<T>,
    g: GpuTDecLayer,
    h: GpuTDecLayer,
    base: int,
)
    requires
        same_weights::same_tdec(x, y, true),
        gpu_loading::is_tdec_at(g, x, base),
        gpu_loading::is_tdec_at(h, y, base),
    ensures
        forall|s: Seq<Step>, t: GpuTensor, u: GpuTensor, n: usize| #[trigger]
            layers::tdec_layer_steps(s, t, u, n, g) == layers::tdec_layer_steps(s, t, u, n, h),
{
    reveal(same_weights::same_tdec);
    reveal(gpu_loading::is_tdec_at);
    reveal(layers::tdec_layer_steps);
    dconv_arrays(x.dconv, y.dconv);
    dconv(x.dconv, y.dconv, g.dconv, h.dconv, base + 2);
}

/// The arrays of the first layers of the time decoder.
proof fn tdecs_arrays<T>(x: Seq<TDecLayer<T>>, y: Seq<TDecLayer<T>>, n: int)
    requires
        same_weights::same_tdecs(x, y, true),
        n <= x.len(),
    ensures
        gpu_loading::tdecs_arrays(x, n) == gpu_loading::tdecs_arrays(y, n),
    decreases n,
{
    if n > 0 {
        tdecs_arrays(x, y, n - 1);
        assert(same_weights::same_tdec(x[n - 1], y[n - 1], true));
        tdec_arrays(x[n - 1], y[n - 1]);
    }
}

/// The steps of the layers of the time decoder.
proof fn tdecs_steps<T>(
    x: Seq<TDecLayer<T>>,
    y: Seq<TDecLayer<T>>,
    g: Seq<GpuTDecLayer>,
    h: Seq<GpuTDecLayer>,
    base: int,
)
    requires
        same_weights::same_tdecs(x, y, true),
        gpu_loading::are_tdecs_at(g, x, base),
        gpu_loading::are_tdecs_at(h, y, base),
    ensures
        g.len() == h.len(),
        forall|i: int, s: Seq<Step>, t: GpuTensor, u: GpuTensor, n: usize|
            0 <= i < g.len() ==> #[trigger] layers::tdec_layer_steps(s, t, u, n, g[i])
                == layers::tdec_layer_steps(s, t, u, n, h[i]),
{
    reveal(gpu_loading::are_tdecs_at);
    assert forall|i: int, s: Seq<Step>, t: GpuTensor, u: GpuTensor, n: usize|
        0 <= i < g.len() implies #[trigger] layers::tdec_layer_steps(s, t, u, n, g[i])
        == layers::tdec_layer_steps(s, t, u, n, h[i]) by {
        tdecs_arrays(x, y, i);
        assert(same_weights::same_tdec(x[i], y[i], true));
        tdec_steps(x[i], y[i], g[i], h[i], base + gpu_loading::tdecs_arrays(x, i).len());
    }
}

/// The weights of attention.
proof fn mha<T>(x: MhaWeights<T>, y: MhaWeights<T>)
    requires
        same_weights::same_mha(x, y, true),
    ensures
        gpu_loading::mha_arrays(x) == gpu_loading::mha_arrays(y),
        forall|base: int| #[trigger]
            gpu_loading::mha_at(x, base) == gpu_loading::mha_at(y, base),
{
    reveal(same_weights::same_mha);
    reveal(gpu_loading::mha_arrays);
    reveal(gpu_loading::mha_at);
}

/// A layer of self-attention.
proof fn self_attn<T>(x: SelfAttnLayer<T>, y: SelfAttnLayer<T>)
    requires
        same_weights::same_self_attn(x, y, true),
    ensures
        gpu_loading::self_attn_arrays(x) == gpu_loading::self_attn_arrays(y),
        forall|base: int| #[trigger]
            gpu_loading::self_attn_at(x, base) == gpu_loading::self_attn_at(y, base),
{
    reveal(same_weights::same_self_attn);
    mha(x.attn, y.attn);
    reveal(gpu_loading::self_attn_arrays);
    reveal(gpu_loading::self_attn_at);
    reveal(gpu_loading::tail_arrays);
    reveal(gpu_loading::tail_at);
}

/// A layer of cross-attention.
proof fn cross_attn<T>(x: CrossAttnLayer<T>, y: CrossAttnLayer<T>)
    requires
        same_weights::same_cross_attn(x, y, true),
    ensures
        gpu_loading::cross_attn_arrays(x) == gpu_loading::cross_attn_arrays(y),
        forall|base: int| #[trigger]
            gpu_loading::cross_attn_at(x, base) == gpu_loading::cross_attn_at(y, base),
{
    reveal(same_weights::same_cross_attn);
    mha(x.attn, y.attn);
    reveal(gpu_loading::cross_attn_arrays);
    reveal(gpu_loading::cross_attn_at);
    reveal(gpu_loading::tail_arrays);
    reveal(gpu_loading::tail_at);
}

/// A layer of the transformer.
proof fn transformer_layer<T>(x: TransformerLayerWeights<T>, y: TransformerLayerWeights<T>)
    requires
        same_weights::same_transformer_layer(x, y, true),
    ensures
        gpu_loading::transformer_layer_arrays(x) == gpu_loading::transformer_layer_arrays(y),
        forall|g: GpuTransformerLayerWeights, base: int| #[trigger]
            gpu_loading::is_transformer_layer_at(g, x, base)
                == gpu_loading::is_transformer_layer_at(g, y, base),
{
    reveal(same_weights::same_transformer_layer);
    if x.self_attn is Some {
        self_attn(x.self_attn->0, y.self_attn->0);
    } else if x.cross_attn is Some {
        cross_attn(x.cross_attn->0, y.cross_attn->0);
    }
}

/// The arrays of the first layers of the transformer.
proof fn transformer_layers_arrays<T>(
    x: Seq<TransformerLayerWeights<T>>,
    y: Seq<TransformerLayerWeights<T>>,
    n: int,
)
    requires
        same_weights::same_transformer_layers(x, y, true),
        n <= x.len(),
    ensures
        gpu_loading::transformer_layers_arrays(x, n) == gpu_loading::transformer_layers_arrays(
            y,
            n,
        ),
    decreases n,
{
    if n > 0 {
        transformer_layers_arrays(x, y, n - 1);
        assert(same_weights::same_transformer_layer(x[n - 1], y[n - 1], true));
        transformer_layer(x[n - 1], y[n - 1]);
    }
}

/// The layers of the transformer.
proof fn transformer_layers<T>(
    x: Seq<TransformerLayerWeights<T>>,
    y: Seq<TransformerLayerWeights<T>>,
    g: Seq<GpuTransformerLayerWeights>,
    h: Seq<GpuTransformerLayerWeights>,
    base: int,
)
    requires
        same_weights::same_transformer_layers(x, y, true),
        gpu_loading::are_transformer_layers_at(g, x, base),
        gpu_loading::are_transformer_layers_at(h, y, base),
    ensures
        g == h,
{
    reveal(gpu_loading::are_transformer_layers_at);
    assert forall|i: int| 0 <= i < g.len() implies g[i] == h[i] by {
        transformer_layers_arrays(x, y, i);
        assert(same_weights::same_transformer_layer(x[i], y[i], true));
        transformer_layer(x[i], y[i]);
    }
    assert(g =~= h);
}

/// Two convolutions between the widths of the layers and of the transformer are alike.
spec fn same_resampler<T>(
    w: Option<Conv1dWeight<T>>,
    b: Option<Vec<T>>,
    u: Option<Conv1dWeight<T>>,
    c: Option<Vec<T>>,
) -> bool {
    &&& w is Some <==> u is Some
    &&& w is Some ==> same_weights::same_conv1d(w->0, u->0, true)
    &&& b is Some <==> c is Some
    &&& b is Some ==> b->0@ == c->0@
}

/// A convolution between the widths of the layers and of the transformer.
proof fn resampler<T>(
    w: Option<Conv1dWeight<T>>,
    b: Option<Vec<T>>,
    u: Option<Conv1dWeight<T>>,
    c: Option<Vec<T>>,
)
    requires
        same_resampler(w, b, u, c),
    ensures
        gpu_loading::resampler_arrays(w, b) == gpu_loading::resampler_arrays(u, c),
        forall|
            gw: Option<GpuConv1dWeight>,
            gb: Option<GpuBias>,
            hw: Option<GpuConv1dWeight>,
            hb: Option<GpuBias>,
            base: int,
        | #[trigger]
            gpu_loading::is_resampler_at(gw, gb, w, b, base) && #[trigger]
                gpu_loading::is_resampler_at(hw, hb, u, c, base) ==> gw == hw && gb == hb,
{
    reveal(gpu_loading::resampler_arrays);
    reveal(gpu_loading::is_resampler_at);
}

/// The arrays of the first parts of the transformer.
proof fn transformer_parts<T>(x: CrossDomainTransformer<T>, y: CrossDomainTransformer<T>, n: int)
    requires
        same_weights::same_transformer(x, y, true),
    ensures
        gpu_loading::transformer_parts(x, n) == gpu_loading::transformer_parts(y, n),
    decreases n,
{
    reveal_with_fuel(gpu_loading::transformer_parts, 2);
    if n > 0 {
        transformer_parts(x, y, n - 1);
        reveal(same_weights::same_transformer);
        transformer_layers_arrays(x.layers@, y.layers@, x.layers@.len() as int);
        transformer_layers_arrays(x.layers_t@, y.layers_t@, x.layers_t@.len() as int);
        resampler(
            x.channel_upsampler,
            x.channel_upsampler_bias,
            y.channel_upsampler,
            y.channel_upsampler_bias,
        );
        resampler(
            x.channel_downsampler,
            x.channel_downsampler_bias,
            y.channel_downsampler,
            y.channel_downsampler_bias,
        );
        resampler(
            x.channel_upsampler_t,
            x.channel_upsampler_t_bias,
            y.channel_upsampler_t,
            y.channel_upsampler_t_bias,
        );
        resampler(
            x.channel_downsampler_t,
            x.channel_downsampler_t_bias,
            y.channel_downsampler_t,
            y.channel_downsampler_t_bias,
        );
        assert(gpu_loading::transformer_part(x, n - 1) == gpu_loading::transformer_part(y, n - 1));
    }
}

/// Two transformers on the device have the same handles.
spec fn same_handles(g: GpuCrossDomainTransformer, h: GpuCrossDomainTransformer) -> bool {
    &&& g.norm_in == h.norm_in
    &&& g.norm_in_t == h.norm_in_t
    &&& g.channel_upsampler == h.channel_upsampler
    &&& g.channel_upsampler_bias == h.channel_upsampler_bias
    &&& g.channel_downsampler == h.channel_downsampler
    &&& g.channel_downsampler_bias == h.channel_downsampler_bias
    &&& g.channel_upsampler_t == h.channel_upsampler_t
    &&& g.channel_upsampler_t_bias == h.channel_upsampler_t_bias
    &&& g.channel_downsampler_t == h.channel_downsampler_t
    &&& g.channel_downsampler_t_bias == h.channel_downsampler_t_bias
    &&& g.layers@ == h.layers@
    &&& g.layers_t@ == h.layers_t@
}

/// The transformer.
proof fn transformer_handles<T>(
    x: CrossDomainTransformer<T>,
    y: CrossDomainTransformer<T>,
    g: GpuCrossDomainTransformer,
    h: GpuCrossDomainTransformer,
    base: int,
)
    requires
        same_weights::same_transformer(x, y, true),
        gpu_loading::is_transformer_at(g, x, base),
        gpu_loading::is_transformer_at(h, y, base),
    ensures
        same_handles(g, h),
{
    transformer_parts(x, y, 0);
    transformer_parts(x, y, 1);
    transformer_parts(x, y, 2);
    transformer_parts(x, y, 3);
    transformer_parts(x, y, 4);
    transformer_parts(x, y, 5);
    transformer_parts(x, y, 6);
    transformer_parts(x, y, 7);
    reveal(same_weights::same_transformer);
    reveal(gpu_loading::is_transformer_at);
    transformer_layers(
        x.layers@,
        y.layers@,
        g.layers@,
        h.layers@,
        base + gpu_loading::transformer_parts(x, 0).len(),
    );
    transformer_layers(
        x.layers_t@,
        y.layers_t@,
        g.layers_t@,
        h.layers_t@,
        base + gpu_loading::transformer_parts(x, 1).len(),
    );
    resampler(
        x.channel_upsampler,
        x.channel_upsampler_bias,
        y.channel_upsampler,
        y.channel_upsampler_bias,
    );
    resampler(
        x.channel_downsampler,
        x.channel_downsampler_bias,
        y.channel_downsampler,
        y.channel_downsampler_bias,
    );
    resampler(
        x.channel_upsampler_t,
        x.channel_upsampler_t_bias,
        y.channel_upsampler_t,
        y.channel_upsampler_t_bias,
    );
    resampler(
        x.channel_downsampler_t,
        x.channel_downsampler_t_bias,
        y.channel_downsampler_t,
        y.channel_downsampler_t_bias,
    );
}

/// The steps of the transformer.
proof fn transformer_steps(g: GpuCrossDomainTransformer, h: GpuCrossDomainTransformer)
    requires
        same_handles(g, h),
    ensures
        forall|s: Seq<Step>, f: GpuTensor, t: GpuTensor, fpe: GpuTensor, tpe: GpuTensor| #[trigger]
            transformer::cross_domain_steps(s, f, t, g, fpe, tpe)
                == transformer::cross_domain_steps(s, f, t, h, fpe, tpe),
{
    reveal(transformer::cross_domain_steps);
    reveal(transformer::sequences_steps);
    reveal(transformer::embedded_steps);
    reveal(transformer::planes_steps);
}

/// The steps of the layers of the frequency encoder.
proof fn encode_steps(
    s: Seq<Step>,
    outs: Seq<GpuTensor>,
    g: Seq<GpuHEncLayer>,
    h: Seq<GpuHEncLayer>,
    i: int,
)
    requires
        0 <= i,
        g.len() == h.len(),
        forall|i: int, s: Seq<Step>, t: GpuTensor|
            0 <= i < g.len() ==> #[trigger] layers::henc_layer_steps(s, t, g[i])
                == layers::henc_layer_steps(s, t, h[i]),
    ensures
        forward::encode_steps_from(s, outs, g, i) == forward::encode_steps_from(s, outs, h, i),
    decreases g.len() - i,
{
    if i < g.len() {
        let r = layers::henc_layer_steps(s, outs.last(), g[i]);
        if r is Ok {
            encode_steps(r->Ok_0.0, outs.push(r->Ok_0.1), g, h, i + 1);
        }
    }
}

/// The steps of the layers of the time encoder.
proof fn encode_time_steps(
    s: Seq<Step>,
    time: GpuTensor,
    outs: Seq<GpuTensor>,
    g: Seq<GpuTEncLayer>,
    h: Seq<GpuTEncLayer>,
    n: int,
    i: int,
)
    requires
        0 <= i,
        n <= g.len(),
        forall|i: int, s: Seq<Step>, t: GpuTensor|
            0 <= i < g.len() ==> #[trigger] layers::tenc_layer_steps(s, t, g[i])
                == layers::tenc_layer_steps(s, t, h[i]),
    ensures
        forward::encode_time_steps_from(s, time, outs, g, n, i) == forward::encode_time_steps_from(
            s,
            time,
            outs,
            h,
            n,
            i,
        ),
    decreases n - i,
{
    if i < n {
        let r = layers::tenc_layer_steps(s, forward::enters(time, outs, i), g[i]);
        if r is Ok {
            encode_time_steps(r->Ok_0.0, time, outs.push(r->Ok_0.1), g, h, n, i + 1);
        }
    }
}

/// The steps of the layers of the frequency decoder.
proof fn decode_steps(
    s: Seq<Step>,
    x: GpuTensor,
    outs: Seq<GpuTensor>,
    g: Seq<GpuHDecLayer>,
    h: Seq<GpuHDecLayer>,
    i: int,
)
    requires
        0 <= i,
        outs.len() <= g.len(),
        forall|i: int, s: Seq<Step>, t: GpuTensor, u: GpuTensor, n: usize|
            0 <= i < g.len() ==> #[trigger] layers::hdec_layer_steps(s, t, u, n, g[i])
                == layers::hdec_layer_steps(s, t, u, n, h[i]),
    ensures
        forward::decode_steps_from(s, x, outs, g, i) == forward::decode_steps_from(
            s,
            x,
            outs,
            h,
            i,
        ),
    decreases outs.len() - i,
{
    if i < outs.len() {
        let r = layers::hdec_layer_steps(
            s,
            x,
            outs[outs.len() - 1 - i],
            forward::freq_target(outs, i),
            g[i],
        );
        if r is Ok {
            decode_steps(r->Ok_0.0, r->Ok_0.1, outs, g, h, i + 1);
        }
    }
}

/// The steps of the layers of the time decoder.
proof fn decode_time_steps(
    s: Seq<Step>,
    x: GpuTensor,
    time: GpuTensor,
    outs: Seq<GpuTensor>,
    g: Seq<GpuTDecLayer>,
    h: Seq<GpuTDecLayer>,
    i: int,
)
    requires
        0 <= i,
        outs.len() <= g.len(),
        forall|i: int, s: Seq<Step>, t: GpuTensor, u: GpuTensor, n: usize|
            0 <= i < g.len() ==> #[trigger] layers::tdec_layer_steps(s, t, u, n, g[i])
                == layers::tdec_layer_steps(s, t, u, n, h[i]),
    ensures
        forward::decode_time_steps_from(s, x, time, outs, g, i) == forward::decode_time_steps_from(
            s,
            x,
            time,
            outs,
            h,
            i,
        ),
    decreases outs.len() - i,
{
    if i < outs.len() {
        let r = layers::tdec_layer_steps(
            s,
            x,
            outs[outs.len() - 1 - i],
            forward::enters(time, outs, outs.len() - 1 - i).d2,
            g[i],
        );
        if r is Ok {
            decode_time_steps(r->Ok_0.0, r->Ok_0.1, time, outs, g, h, i + 1);
        }
    }
}

/// The frequency encoder gives as many tensors as it has layers.
proof fn lemma_encoded(s: Seq<Step>, outs: Seq<GpuTensor>, g: Seq<GpuHEncLayer>, i: int)
    requires
        outs.len() == i <= g.len(),
    ensures
        forward::encode_steps_from(s, outs, g, i) matches Ok((_, v)) ==> v.len() == g.len(),
    decreases g.len() - i,
{
    if i < g.len() {
        let r = layers::henc_layer_steps(s, outs.last(), g[i]);
        if r is Ok {
            lemma_encoded(r->Ok_0.0, outs.push(r->Ok_0.1), g, i + 1);
        }
    }
}

/// The time encoder gives as many tensors as it has layers.
proof fn lemma_time_encoded(
    s: Seq<Step>,
    time: GpuTensor,
    outs: Seq<GpuTensor>,
    g: Seq<GpuTEncLayer>,
    n: int,
    i: int,
)
    requires
        outs.len() == i <= n,
    ensures
        forward::encode_time_steps_from(s, time, outs, g, n, i) matches Ok((_, v)) ==> v.len() == n,
    decreases n - i,
{
    if i < n {
        let r = layers::tenc_layer_steps(s, forward::enters(time, outs, i), g[i]);
        if r is Ok {
            lemma_time_encoded(r->Ok_0.0, time, outs.push(r->Ok_0.1), g, n, i + 1);
        }
    }
}

/// The arrays of the first parts of a model.
proof fn model_parts<T>(x: HTDemucs<T>, y: HTDemucs<T>, n: int)
    requires
        same_weights::same_model(x, y, true),
    ensures
        gpu_loading::model_parts(x, n) == gpu_loading::model_parts(y, n),
    decreases n,
{
    reveal_with_fuel(gpu_loading::model_parts, 2);
    if n > 0 {
        model_parts(x, y, n - 1);
        reveal(same_weights::same_model);
        hencs_arrays(x.encoders@, y.encoders@, x.encoders@.len() as int);
        tencs_arrays(x.tencoders@, y.tencoders@, x.tencoders@.len() as int);
        hdecs_arrays(x.decoders@, y.decoders@, x.decoders@.len() as int);
        tdecs_arrays(x.tdecoders@, y.tdecoders@, x.tdecoders@.len() as int);
        transformer_parts(x.crosstransformer, y.crosstransformer, 8);
        assert(gpu_loading::model_part(x, n - 1) == gpu_loading::model_part(y, n - 1));
    }
}

/// Of models with the same weights the same arrays go to the device.
pub proof fn same_arrays<T>(x: HTDemucs<T>, y: HTDemucs<T>)
    requires
        same_weights::same_model(x, y, true),
    ensures
        gpu_loading::model_arrays(x) == gpu_loading::model_arrays(y),
{
    model_parts(x, y, 6);
}

/// Models on the device with the same weights give the same programs.
pub proof fn same_program<T>(
    x: HTDemucs<T>,
    y: HTDemucs<T>,
    g: GpuHTDemucs,
    h: GpuHTDemucs,
    s: Seq<Step>,
    freq: GpuTensor,
    time: GpuTensor,
)
    requires
        same_weights::same_model(x, y, true),
        gpu_loading::is_model_at(g, x, 0),
        gpu_loading::is_model_at(h, y, 0),
    ensures
        forward::encoders_steps(s, freq, time, g) == forward::encoders_steps(s, freq, time, h),
        forward::forward_steps(s, freq, time, g) == forward::forward_steps(s, freq, time, h),
        g.crosstransformer.norm_in == h.crosstransformer.norm_in,
        g.n_sources == h.n_sources,
{
    model_parts(x, y, 0);
    model_parts(x, y, 1);
    model_parts(x, y, 2);
    model_parts(x, y, 3);
    model_parts(x, y, 4);
    model_parts(x, y, 5);
    reveal(same_weights::same_model);
    reveal(gpu_loading::is_model_at);
    hencs_steps(
        x.encoders@,
        y.encoders@,
        g.encoders@,
        h.encoders@,
        gpu_loading::model_parts(x, 0).len() as int,
    );
    tencs_steps(
        x.tencoders@,
        y.tencoders@,
        g.tencoders@,
        h.tencoders@,
        gpu_loading::model_parts(x, 1).len() as int,
    );
    hdecs_steps(
        x.decoders@,
        y.decoders@,
        g.decoders@,
        h.decoders@,
        gpu_loading::model_parts(x, 2).len() as int,
    );
    tdecs_steps(
        x.tdecoders@,
        y.tdecoders@,
        g.tdecoders@,
        h.tdecoders@,
        gpu_loading::model_parts(x, 3).len() as int,
    );
    transformer_handles(
        x.crosstransformer,
        y.crosstransformer,
        g.crosstransformer,
        h.crosstransformer,
        gpu_loading::model_parts(x, 4).len() as int,
    );
    transformer_steps(g.crosstransformer, h.crosstransformer);
    same_forward(g, h, s, freq, time);
}

/// Models whose layers give the same steps give the same programs.
proof fn same_forward(
    g: GpuHTDemucs,
    h: GpuHTDemucs,
    s: Seq<Step>,
    freq: GpuTensor,
    time: GpuTensor,
)
    requires
        g.encoders@.len() == h.encoders@.len(),
        g.tencoders@.len() == h.tencoders@.len(),
        g.decoders@.len() == h.decoders@.len(),
        g.tdecoders@.len() == h.tdecoders@.len(),
        g.freq_emb == h.freq_emb,
        g.crosstransformer.norm_in == h.crosstransformer.norm_in,
        forall|i: int, s: Seq<Step>, t: GpuTensor|
            0 <= i < g.encoders@.len() ==> #[trigger] layers::henc_layer_steps(
                s,
                t,
                g.encoders@[i],
            ) == layers::henc_layer_steps(s, t, h.encoders@[i]),
        forall|i: int, s: Seq<Step>, t: GpuTensor|
            0 <= i < g.tencoders@.len() ==> #[trigger] layers::tenc_layer_steps(
                s,
                t,
                g.tencoders@[i],
            ) == layers::tenc_layer_steps(s, t, h.tencoders@[i]),
        forall|i: int, s: Seq<Step>, t: GpuTensor, u: GpuTensor, n: usize|
            0 <= i < g.decoders@.len() ==> #[trigger] layers::hdec_layer_steps(
                s,
                t,
                u,
                n,
                g.decoders@[i],
            ) == layers::hdec_layer_steps(s, t, u, n, h.decoders@[i]),
        forall|i: int, s: Seq<Step>, t: GpuTensor, u: GpuTensor, n: usize|
            0 <= i < g.tdecoders@.len() ==> #[trigger] layers::tdec_layer_steps(
                s,
                t,
                u,
                n,
                g.tdecoders@[i],
            ) == layers::tdec_layer_steps(s, t, u, n, h.tdecoders@[i]),
        forall|s: Seq<Step>, f: GpuTensor, t: GpuTensor, fpe: GpuTensor, tpe: GpuTensor| #[trigger]
            transformer::cross_domain_steps(s, f, t, g.crosstransformer, fpe, tpe)
                == transformer::cross_domain_steps(s, f, t, h.crosstransformer, fpe, tpe),
    ensures
        forward::encoders_steps(s, freq, time, g) == forward::encoders_steps(s, freq, time, h),
        forward::forward_steps(s, freq, time, g) == forward::forward_steps(s, freq, time, h),
{
    let n = g.encoders@.len() as int;
    assert forall|s: Seq<Step>, outs: Seq<GpuTensor>, i: int| 0 <= i implies #[trigger]
        forward::encode_steps_from(s, outs, g.encoders@, i) == forward::encode_steps_from(
        s,
        outs,
        h.encoders@,
        i,
    ) by {
        encode_steps(s, outs, g.encoders@, h.encoders@, i);
    }
    assert forall|s: Seq<Step>, outs: Seq<GpuTensor>| n <= g.tencoders@.len() implies #[trigger]
        forward::encode_time_steps_from(s, time, outs, g.tencoders@, n, 0)
        == forward::encode_time_steps_from(s, time, outs, h.tencoders@, n, 0) by {
        encode_time_steps(s, time, outs, g.tencoders@, h.tencoders@, n, 0);
    }
    assert(forward::encoders_steps(s, freq, time, g) == forward::encoders_steps(s, freq, time, h)
        && (forward::encoders_steps(s, freq, time, g) matches Ok((_, (f, t))) ==> f.len() == n
        && t.len() == n && forward::mirrored(g))) by {
        reveal(forward::encoders_steps);
        if forward::mirrored(g) {
            assert forall|s: Seq<Step>, a: GpuTensor| (#[trigger] forward::encode_steps_from(
                s,
                seq![a],
                g.encoders@,
                1,
            )) matches Ok((_, v)) ==> v.len() == n by {
                lemma_encoded(s, seq![a], g.encoders@, 1);
            }
            assert forall|s: Seq<Step>| (#[trigger] forward::encode_time_steps_from(
                s,
                time,
                seq![],
                g.tencoders@,
                n,
                0,
            )) matches Ok((_, v)) ==> v.len() == n by {
                lemma_time_encoded(s, time, seq![], g.tencoders@, n, 0);
            }
        }
    }
    reveal(forward::rest_steps);
    assert forall|s: Seq<Step>, x: GpuTensor, outs: Seq<GpuTensor>| outs.len()
        <= g.decoders@.len() implies #[trigger] forward::decode_steps_from(
        s,
        x,
        outs,
        g.decoders@,
        0,
    ) == forward::decode_steps_from(s, x, outs, h.decoders@, 0) by {
        decode_steps(s, x, outs, g.decoders@, h.decoders@, 0);
    }
    assert forall|s: Seq<Step>, x: GpuTensor, outs: Seq<GpuTensor>| outs.len()
        <= g.tdecoders@.len() implies #[trigger] forward::decode_time_steps_from(
        s,
        x,
        time,
        outs,
        g.tdecoders@,
        0,
    ) == forward::decode_time_steps_from(s, x, time, outs, h.tdecoders@, 0) by {
        decode_time_steps(s, x, time, outs, g.tdecoders@, h.tdecoders@, 0);
    }
}

} // verus!
