//! The parameters of the network on the graphics device.
use vstd::prelude::*;
use crate::gpu_tensor;
use crate::gpu_tensor::GpuBuffer;
use crate::program;
use crate::program::Step;

verus! {

/// Matrix of a linear layer, `[rows, cols]` row-major: one column for each output.
#[derive(Clone, Copy, Debug, PartialEq, Eq, Structural)]
pub struct GpuWeight2D {
    pub data: GpuBuffer,
    pub rows: usize,
    pub cols: usize,
}

/// 2D convolution kernel, `[in_ch * kh * kw, out_ch]` row-major.
#[derive(Clone, Copy, Debug, PartialEq, Eq, Structural)]
pub struct GpuConv2dWeight {
    pub data: GpuBuffer,
    pub out_ch: usize,
    pub in_ch: usize,
    pub kh: usize,
    pub kw: usize,
}

/// 1D convolution kernel, `[in_ch * k, out_ch]` row-major.
#[derive(Clone, Copy, Debug, PartialEq, Eq, Structural)]
pub struct GpuConv1dWeight {
    pub data: GpuBuffer,
    pub out_ch: usize,
    pub in_ch: usize,
    pub k: usize,
}

/// Kernel of a transposed 2D convolution, `[in_ch * kh * kw, out_ch]` row-major.
#[derive(Clone, Copy, Debug, PartialEq, Eq, Structural)]
pub struct GpuConvTranspose2dWeight {
    pub data: GpuBuffer,
    pub out_ch: usize,
    pub in_ch: usize,
    pub kh: usize,
    pub kw: usize,
}

/// Kernel of a transposed 1D convolution, `[in_ch * k, out_ch]` row-major.
#[derive(Clone, Copy, Debug, PartialEq, Eq, Structural)]
pub struct GpuConvTranspose1dWeight {
    pub data: GpuBuffer,
    pub out_ch: usize,
    pub in_ch: usize,
    pub k: usize,
}

/// Bias vector.
#[derive(Clone, Copy, Debug, PartialEq, Eq, Structural)]
pub struct GpuBias {
    pub data: GpuBuffer,
    pub len: usize,
}

/// Layer normalization: a gain and a shift for each entry of the last axis.
#[derive(Clone, Copy, Debug, PartialEq, Eq, Structural)]
pub struct GpuLayerNorm1 {
    pub gamma: GpuBuffer,
    pub beta: GpuBuffer,
    pub dim: usize,
}

/// Group normalization with one group: a gain and a shift for each channel.
#[derive(Clone, Copy, Debug, PartialEq, Eq, Structural)]
pub struct GpuGroupNorm1 {
    pub gamma: GpuBuffer,
    pub beta: GpuBuffer,
    pub num_channels: usize,
}

/// Scale of each channel.
#[derive(Clone, Copy, Debug, PartialEq, Eq, Structural)]
pub struct GpuLayerScale {
    pub scale: GpuBuffer,
}

/// Weights of multi-head attention, the projections of queries, keys and values apart.
#[derive(Clone, Copy, Debug, PartialEq, Eq, Structural)]
pub struct GpuMhaWeights {
    pub q_w: GpuWeight2D,
    pub k_w: GpuWeight2D,
    pub v_w: GpuWeight2D,
    pub q_b: GpuBias,
    pub k_b: GpuBias,
    pub v_b: GpuBias,
    pub out_proj_w: GpuWeight2D,
    pub out_proj_b: GpuBias,
    pub d_model: usize,
    pub n_heads: usize,
}

/// Transformer layer in which a sequence attends to itself.
#[derive(Clone, Copy, Debug, PartialEq, Eq, Structural)]
pub struct GpuSelfAttnLayer {
    pub norm1: GpuLayerNorm1,
    pub attn: GpuMhaWeights,
    pub gamma_1: GpuLayerScale,
    pub norm2: GpuLayerNorm1,
    pub linear1: GpuWeight2D,
    pub linear1_bias: GpuBias,
    pub linear2: GpuWeight2D,
    pub linear2_bias: GpuBias,
    pub gamma_2: GpuLayerScale,
    pub norm_out: GpuGroupNorm1,
}

/// Transformer layer in which a sequence attends to another.
#[derive(Clone, Copy, Debug, PartialEq, Eq, Structural)]
pub struct GpuCrossAttnLayer {
    pub norm1: GpuLayerNorm1,
    pub norm2: GpuLayerNorm1,
    pub attn: GpuMhaWeights,
    pub gamma_1: GpuLayerScale,
    pub norm3: GpuLayerNorm1,
    pub linear1: GpuWeight2D,
    pub linear1_bias: GpuBias,
    pub linear2: GpuWeight2D,
    pub linear2_bias: GpuBias,
    pub gamma_2: GpuLayerScale,
    pub norm_out: GpuGroupNorm1,
}

/// One residual layer of a [`GpuDConv`].
#[derive(Clone, Copy, Debug, PartialEq, Eq, Structural)]
pub struct GpuDConvLayer {
    pub conv1: GpuConv1dWeight,
    pub conv1_bias: GpuBias,
    pub norm1: GpuGroupNorm1,
    pub conv2: GpuConv1dWeight,
    pub conv2_bias: GpuBias,
    pub norm2: GpuGroupNorm1,
    pub scale: GpuLayerScale,
}

/// A stack of residual layers, the dilation doubling from each to the next.
pub struct GpuDConv {
    pub layers: Vec<GpuDConvLayer>,
}

/// Layer of the frequency encoder.
pub struct GpuHEncLayer {
    pub conv: GpuConv2dWeight,
    pub conv_bias: GpuBias,
    pub dconv: GpuDConv,
    pub rewrite: GpuConv2dWeight,
    pub rewrite_bias: GpuBias,
}

/// Layer of the time encoder.
pub struct GpuTEncLayer {
    pub conv: GpuConv1dWeight,
    pub conv_bias: GpuBias,
    pub dconv: GpuDConv,
    pub rewrite: GpuConv1dWeight,
    pub rewrite_bias: GpuBias,
}

/// Layer of the frequency decoder.
pub struct GpuHDecLayer {
    pub rewrite: GpuConv2dWeight,
    pub rewrite_bias: GpuBias,
    pub dconv: GpuDConv,
    pub conv_tr: GpuConvTranspose2dWeight,
    pub conv_tr_bias: GpuBias,
    pub last: bool,
}

/// Layer of the time decoder.
pub struct GpuTDecLayer {
    pub rewrite: GpuConv1dWeight,
    pub rewrite_bias: GpuBias,
    pub dconv: GpuDConv,
    pub conv_tr: GpuConvTranspose1dWeight,
    pub conv_tr_bias: GpuBias,
    pub last: bool,
}

/// Embedding of the frequency bins: `[n_bins, dim]` row-major.
#[derive(Clone, Copy, Debug, PartialEq, Eq, Structural)]
pub struct GpuFreqEmb {
    pub data: GpuBuffer,
    pub n_bins: usize,
    pub dim: usize,
}

/// One transformer layer: of self-attention or of cross-attention.
#[derive(Clone, Copy, Debug, PartialEq, Eq, Structural)]
pub enum GpuTransformerLayerWeights {
    SelfAttn(GpuSelfAttnLayer),
    CrossAttn(GpuCrossAttnLayer),
}

/// The transformer between the encoders and the decoders.
pub struct GpuCrossDomainTransformer {
    pub norm_in: GpuLayerNorm1,
    pub norm_in_t: GpuLayerNorm1,
    pub channel_upsampler: Option<GpuConv1dWeight>,
    pub channel_upsampler_bias: Option<GpuBias>,
    pub channel_downsampler: Option<GpuConv1dWeight>,
    pub channel_downsampler_bias: Option<GpuBias>,
    pub channel_upsampler_t: Option<GpuConv1dWeight>,
    pub channel_upsampler_t_bias: Option<GpuBias>,
    pub channel_downsampler_t: Option<GpuConv1dWeight>,
    pub channel_downsampler_t_bias: Option<GpuBias>,
    pub layers: Vec<GpuTransformerLayerWeights>,
    pub layers_t: Vec<GpuTransformerLayerWeights>,
}

/// One complete model.
pub struct GpuHTDemucs {
    pub encoders: Vec<GpuHEncLayer>,
    pub tencoders: Vec<GpuTEncLayer>,
    pub crosstransformer: GpuCrossDomainTransformer,
    pub decoders: Vec<GpuHDecLayer>,
    pub tdecoders: Vec<GpuTDecLayer>,
    pub freq_emb: GpuFreqEmb,
    pub n_sources: usize,
    pub bottom_channels: usize,
}

/// The program makes the gains and shifts.
pub open spec fn group_norm_ok(s: Seq<Step>, g: GpuGroupNorm1) -> bool {
    gpu_tensor::buffer_ok(s, g.gamma) && gpu_tensor::buffer_ok(s, g.beta)
}

/// The program makes the gains and shifts.
pub open spec fn layer_norm_ok(s: Seq<Step>, g: GpuLayerNorm1) -> bool {
    gpu_tensor::buffer_ok(s, g.gamma) && gpu_tensor::buffer_ok(s, g.beta)
}

/// The program makes all weights of the attention.
pub open spec fn mha_ok(s: Seq<Step>, m: GpuMhaWeights) -> bool {
    &&& gpu_tensor::buffer_ok(s, m.q_w.data)
    &&& gpu_tensor::buffer_ok(s, m.k_w.data)
    &&& gpu_tensor::buffer_ok(s, m.v_w.data)
    &&& gpu_tensor::buffer_ok(s, m.q_b.data)
    &&& gpu_tensor::buffer_ok(s, m.k_b.data)
    &&& gpu_tensor::buffer_ok(s, m.v_b.data)
    &&& gpu_tensor::buffer_ok(s, m.out_proj_w.data)
    &&& gpu_tensor::buffer_ok(s, m.out_proj_b.data)
}

/// The program makes all weights of the layer.
pub open spec fn self_attn_ok(s: Seq<Step>, l: GpuSelfAttnLayer) -> bool {
    &&& layer_norm_ok(s, l.norm1)
    &&& mha_ok(s, l.attn)
    &&& gpu_tensor::buffer_ok(s, l.gamma_1.scale)
    &&& layer_norm_ok(s, l.norm2)
    &&& gpu_tensor::buffer_ok(s, l.linear1.data)
    &&& gpu_tensor::buffer_ok(s, l.linear1_bias.data)
    &&& gpu_tensor::buffer_ok(s, l.linear2.data)
    &&& gpu_tensor::buffer_ok(s, l.linear2_bias.data)
    &&& gpu_tensor::buffer_ok(s, l.gamma_2.scale)
    &&& group_norm_ok(s, l.norm_out)
}

/// The program makes all weights of the layer.
pub open spec fn cross_attn_ok(s: Seq<Step>, l: GpuCrossAttnLayer) -> bool {
    &&& layer_norm_ok(s, l.norm1)
    &&& layer_norm_ok(s, l.norm2)
    &&& mha_ok(s, l.attn)
    &&& gpu_tensor::buffer_ok(s, l.gamma_1.scale)
    &&& layer_norm_ok(s, l.norm3)
    &&& gpu_tensor::buffer_ok(s, l.linear1.data)
    &&& gpu_tensor::buffer_ok(s, l.linear1_bias.data)
    &&& gpu_tensor::buffer_ok(s, l.linear2.data)
    &&& gpu_tensor::buffer_ok(s, l.linear2_bias.data)
    &&& gpu_tensor::buffer_ok(s, l.gamma_2.scale)
    &&& group_norm_ok(s, l.norm_out)
}

/// The program makes all weights of the layer.
#[verifier::opaque]
pub open spec fn transformer_layer_ok(s: Seq<Step>, l: GpuTransformerLayerWeights) -> bool {
    match l {
        GpuTransformerLayerWeights::SelfAttn(x) => self_attn_ok(s, x),
        GpuTransformerLayerWeights::CrossAttn(x) => cross_attn_ok(s, x),
    }
}

/// The program makes all weights of the layer.
pub open spec fn dconv_layer_ok(s: Seq<Step>, l: GpuDConvLayer) -> bool {
    &&& gpu_tensor::buffer_ok(s, l.conv1.data)
    &&& gpu_tensor::buffer_ok(s, l.conv1_bias.data)
    &&& group_norm_ok(s, l.norm1)
    &&& gpu_tensor::buffer_ok(s, l.conv2.data)
    &&& gpu_tensor::buffer_ok(s, l.conv2_bias.data)
    &&& group_norm_ok(s, l.norm2)
    &&& gpu_tensor::buffer_ok(s, l.scale.scale)
}

/// The program makes all weights of the layers.
pub open spec fn dconv_ok(s: Seq<Step>, l: GpuDConv) -> bool {
    forall|i: int| 0 <= i < l.layers@.len() ==> dconv_layer_ok(s, #[trigger] l.layers@[i])
}

/// The program makes all weights of the layer.
pub open spec fn henc_ok(s: Seq<Step>, l: GpuHEncLayer) -> bool {
    &&& gpu_tensor::buffer_ok(s, l.conv.data)
    &&& gpu_tensor::buffer_ok(s, l.conv_bias.data)
    &&& dconv_ok(s, l.dconv)
    &&& gpu_tensor::buffer_ok(s, l.rewrite.data)
    &&& gpu_tensor::buffer_ok(s, l.rewrite_bias.data)
}

/// The program makes all weights of the layer.
pub open spec fn tenc_ok(s: Seq<Step>, l: GpuTEncLayer) -> bool {
    &&& gpu_tensor::buffer_ok(s, l.conv.data)
    &&& gpu_tensor::buffer_ok(s, l.conv_bias.data)
    &&& dconv_ok(s, l.dconv)
    &&& gpu_tensor::buffer_ok(s, l.rewrite.data)
    &&& gpu_tensor::buffer_ok(s, l.rewrite_bias.data)
}

/// The program makes all weights of the layer.
pub open spec fn hdec_ok(s: Seq<Step>, l: GpuHDecLayer) -> bool {
    &&& gpu_tensor::buffer_ok(s, l.rewrite.data)
    &&& gpu_tensor::buffer_ok(s, l.rewrite_bias.data)
    &&& dconv_ok(s, l.dconv)
    &&& gpu_tensor::buffer_ok(s, l.conv_tr.data)
    &&& gpu_tensor::buffer_ok(s, l.conv_tr_bias.data)
}

/// The program makes all weights of the layer.
pub open spec fn tdec_ok(s: Seq<Step>, l: GpuTDecLayer) -> bool {
    &&& gpu_tensor::buffer_ok(s, l.rewrite.data)
    &&& gpu_tensor::buffer_ok(s, l.rewrite_bias.data)
    &&& dconv_ok(s, l.dconv)
    &&& gpu_tensor::buffer_ok(s, l.conv_tr.data)
    &&& gpu_tensor::buffer_ok(s, l.conv_tr_bias.data)
}

/// The program makes the weights of a channel resampler, if there is one.
pub open spec fn resampler_ok(
    s: Seq<Step>,
    w: Option<GpuConv1dWeight>,
    b: Option<GpuBias>,
) -> bool {
    &&& w matches Some(w) ==> gpu_tensor::buffer_ok(s, w.data)
    &&& b matches Some(b) ==> gpu_tensor::buffer_ok(s, b.data)
}

/// The program makes all weights of the layers.
#[verifier::opaque]
pub open spec fn transformer_layers_ok(
    s: Seq<Step>,
    layers: Seq<GpuTransformerLayerWeights>,
) -> bool {
    forall|i: int| 0 <= i < layers.len() ==> transformer_layer_ok(s, #[trigger] layers[i])
}

/// The weights of each layer stay where they are as a program goes on.
pub proof fn lemma_transformer_layers(
    s: Seq<Step>,
    t: Seq<Step>,
    layers: Seq<GpuTransformerLayerWeights>,
)
    requires
        transformer_layers_ok(s, layers),
        program::extends(s, t),
    ensures
        transformer_layers_ok(t, layers),
{
    reveal(transformer_layers_ok);
    assert forall|i: int| 0 <= i < layers.len() implies transformer_layer_ok(
        t,
        #[trigger] layers[i],
    ) by {
        reveal(transformer_layer_ok);
        assert(transformer_layer_ok(s, layers[i]));
    }
}

/// The program makes all weights of the transformer.
pub open spec fn transformer_ok(s: Seq<Step>, t: GpuCrossDomainTransformer) -> bool {
    &&& layer_norm_ok(s, t.norm_in)
    &&& layer_norm_ok(s, t.norm_in_t)
    &&& resampler_ok(s, t.channel_upsampler, t.channel_upsampler_bias)
    &&& resampler_ok(s, t.channel_downsampler, t.channel_downsampler_bias)
    &&& resampler_ok(s, t.channel_upsampler_t, t.channel_upsampler_t_bias)
    &&& resampler_ok(s, t.channel_downsampler_t, t.channel_downsampler_t_bias)
    &&& transformer_layers_ok(s, t.layers@)
    &&& transformer_layers_ok(s, t.layers_t@)
}

/// The weights of residual layers stay where they are as a program goes on.
proof fn lemma_dconv(s: Seq<Step>, t: Seq<Step>, d: GpuDConv)
    requires
        dconv_ok(s, d),
        program::extends(s, t),
    ensures
        dconv_ok(t, d),
{
    assert forall|i: int| 0 <= i < d.layers@.len() implies dconv_layer_ok(
        t,
        #[trigger] d.layers@[i],
    ) by {
        assert(dconv_layer_ok(s, d.layers@[i]));
    }
}

/// The program makes all weights of the layers.
#[verifier::opaque]
pub open spec fn hencs_ok(s: Seq<Step>, layers: Seq<GpuHEncLayer>) -> bool {
    forall|i: int| 0 <= i < layers.len() ==> henc_ok(s, #[trigger] layers[i])
}

/// The weights of each layer stay where they are as a program goes on.
pub proof fn lemma_hencs(s: Seq<Step>, t: Seq<Step>, layers: Seq<GpuHEncLayer>)
    requires
        hencs_ok(s, layers),
        program::extends(s, t),
    ensures
        hencs_ok(t, layers),
{
    reveal(hencs_ok);
    assert forall|i: int| 0 <= i < layers.len() implies henc_ok(t, #[trigger] layers[i]) by {
        assert(henc_ok(s, layers[i]));
        lemma_dconv(s, t, layers[i].dconv);
    }
}

/// The program makes all weights of the layers.
#[verifier::opaque]
pub open spec fn tencs_ok(s: Seq<Step>, layers: Seq<GpuTEncLayer>) -> bool {
    forall|i: int| 0 <= i < layers.len() ==> tenc_ok(s, #[trigger] layers[i])
}

/// The weights of each layer stay where they are as a program goes on.
pub proof fn lemma_tencs(s: Seq<Step>, t: Seq<Step>, layers: Seq<GpuTEncLayer>)
    requires
        tencs_ok(s, layers),
        program::extends(s, t),
    ensures
        tencs_ok(t, layers),
{
    reveal(tencs_ok);
    assert forall|i: int| 0 <= i < layers.len() implies tenc_ok(t, #[trigger] layers[i]) by {
        assert(tenc_ok(s, layers[i]));
        lemma_dconv(s, t, layers[i].dconv);
    }
}

/// The program makes all weights of the layers.
#[verifier::opaque]
pub open spec fn hdecs_ok(s: Seq<Step>, layers: Seq<GpuHDecLayer>) -> bool {
    forall|i: int| 0 <= i < layers.len() ==> hdec_ok(s, #[trigger] layers[i])
}

/// The weights of each layer stay where they are as a program goes on.
pub proof fn lemma_hdecs(s: Seq<Step>, t: Seq<Step>, layers: Seq<GpuHDecLayer>)
    requires
        hdecs_ok(s, layers),
        program::extends(s, t),
    ensures
        hdecs_ok(t, layers),
{
    reveal(hdecs_ok);
    assert forall|i: int| 0 <= i < layers.len() implies hdec_ok(t, #[trigger] layers[i]) by {
        assert(hdec_ok(s, layers[i]));
        lemma_dconv(s, t, layers[i].dconv);
    }
}

/// The program makes all weights of the layers.
#[verifier::opaque]
pub open spec fn tdecs_ok(s: Seq<Step>, layers: Seq<GpuTDecLayer>) -> bool {
    forall|i: int| 0 <= i < layers.len() ==> tdec_ok(s, #[trigger] layers[i])
}

/// The weights of each layer stay where they are as a program goes on.
pub proof fn lemma_tdecs(s: Seq<Step>, t: Seq<Step>, layers: Seq<GpuTDecLayer>)
    requires
        tdecs_ok(s, layers),
        program::extends(s, t),
    ensures
        tdecs_ok(t, layers),
{
    reveal(tdecs_ok);
    assert forall|i: int| 0 <= i < layers.len() implies tdec_ok(t, #[trigger] layers[i]) by {
        assert(tdec_ok(s, layers[i]));
        lemma_dconv(s, t, layers[i].dconv);
    }
}

/// The program makes all weights of the model.
pub open spec fn model_ok(s: Seq<Step>, m: GpuHTDemucs) -> bool {
    &&& hencs_ok(s, m.encoders@)
    &&& tencs_ok(s, m.tencoders@)
    &&& hdecs_ok(s, m.decoders@)
    &&& tdecs_ok(s, m.tdecoders@)
    &&& transformer_ok(s, m.crosstransformer)
    &&& gpu_tensor::buffer_ok(s, m.freq_emb.data)
}

/// The weights of the transformer stay where they are as a program goes on.
pub proof fn lemma_transformer_ok(s: Seq<Step>, t: Seq<Step>, ct: GpuCrossDomainTransformer)
    requires
        transformer_ok(s, ct),
        program::extends(s, t),
    ensures
        transformer_ok(t, ct),
{
    lemma_transformer_layers(s, t, ct.layers@);
    lemma_transformer_layers(s, t, ct.layers_t@);
}

/// The weights of the model stay where they are as a program goes on.
pub proof fn lemma_model(s: Seq<Step>, t: Seq<Step>, m: GpuHTDemucs)
    requires
        model_ok(s, m),
        program::extends(s, t),
    ensures
        model_ok(t, m),
{
    lemma_hencs(s, t, m.encoders@);
    lemma_tencs(s, t, m.tencoders@);
    lemma_hdecs(s, t, m.decoders@);
    lemma_tdecs(s, t, m.tdecoders@);
    lemma_transformer_ok(s, t, m.crosstransformer);
}

} // verus!
