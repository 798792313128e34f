//! The parameters of the network.
use vstd::prelude::*;

verus! {

/// 4D convolution kernel, `[out_ch, in_ch, kh, kw]` row-major.
pub struct Conv2dWeight<T> {
    pub data: Vec<T>,
    pub out_ch: usize,
    pub in_ch: usize,
    pub kh: usize,
    pub kw: usize,
}

/// 1D convolution kernel, `[out_ch, in_ch, k]` row-major.
pub struct Conv1dWeight<T> {
    pub data: Vec<T>,
    pub out_ch: usize,
    pub in_ch: usize,
    pub k: usize,
}

/// Bias vector.
pub struct Bias<T> {
    pub data: Vec<T>,
    pub len: usize,
}

/// Scale of each channel.
pub struct LayerScale<T> {
    pub scale: Vec<T>,
}

/// Group normalization with one group: a gain and a shift for each channel.
pub struct GroupNorm1<T> {
    pub gamma: Vec<T>,
    pub beta: Vec<T>,
    pub num_channels: usize,
}

/// Layer normalization: a gain and a shift for each entry of the last axis.
pub struct LayerNorm1<T> {
    pub gamma: Vec<T>,
    pub beta: Vec<T>,
    pub dim: usize,
}

/// One residual layer of a [`DConv`]: a dilated convolution into few channels, then one back
/// to twice the channels, which a GLU halves.
pub struct DConvLayer<T> {
    pub conv1: Conv1dWeight<T>,
    pub conv1_bias: Bias<T>,
    pub norm1: GroupNorm1<T>,
    pub conv2: Conv1dWeight<T>,
    pub conv2_bias: Bias<T>,
    pub norm2: GroupNorm1<T>,
    pub scale: LayerScale<T>,
}

/// A stack of residual layers, the dilation doubling from each to the next.
pub struct DConv<T> {
    pub layers: Vec<DConvLayer<T>>,
}

/// Layer of the frequency encoder.
pub struct HEncLayer<T> {
    pub conv: Conv2dWeight<T>,
    pub conv_bias: Bias<T>,
    pub dconv: DConv<T>,
    pub rewrite: Conv2dWeight<T>,
    pub rewrite_bias: Bias<T>,
}

/// Layer of the time encoder.
pub struct TEncLayer<T> {
    pub conv: Conv1dWeight<T>,
    pub conv_bias: Bias<T>,
    pub dconv: DConv<T>,
    pub rewrite: Conv1dWeight<T>,
    pub rewrite_bias: Bias<T>,
}

/// Layer of the frequency decoder.
pub struct HDecLayer<T> {
    pub rewrite: Conv2dWeight<T>,
    pub rewrite_bias: Bias<T>,
    pub dconv: DConv<T>,
    /// Kernel of the transposed convolution, stored `[in_ch, kh, kw, out_ch]`.
    pub conv_tr: Conv2dWeight<T>,
    pub conv_tr_bias: Bias<T>,
    pub last: bool,
}

/// Layer of the time decoder.
pub struct TDecLayer<T> {
    pub rewrite: Conv1dWeight<T>,
    pub rewrite_bias: Bias<T>,
    pub dconv: DConv<T>,
    /// Kernel of the transposed convolution, stored `[in_ch, k, out_ch]`.
    pub conv_tr: Conv1dWeight<T>,
    pub conv_tr_bias: Bias<T>,
    pub last: bool,
}

/// Embedding of the frequency bins: `[n_bins, dim]` row-major, ten times the stored table. A
/// fifth of it is added in a forward pass.
pub struct FreqEmb<T> {
    pub data: Vec<T>,
    pub n_bins: usize,
    pub dim: usize,
}

/// The frequency encoder with its embedding.
pub struct FreqEncoder<T> {
    pub layers: Vec<HEncLayer<T>>,
    pub freq_emb: FreqEmb<T>,
}

/// Matrix of a linear layer, `[rows, cols]` row-major: one row for each output.
pub struct Weight2D<T> {
    pub data: Vec<T>,
    pub rows: usize,
    pub cols: usize,
}

/// Weights of multi-head attention.
///
/// `in_proj_weight` is `[3 * d_model, d_model]`: the rows for the queries, then those for the
/// keys, then those for the values. `out_proj_weight` is `[d_model, d_model]`.
pub struct MhaWeights<T> {
    pub in_proj_weight: Vec<T>,
    pub in_proj_bias: Vec<T>,
    pub out_proj_weight: Vec<T>,
    pub out_proj_bias: Vec<T>,
    pub d_model: usize,
    pub n_heads: usize,
}

/// Transformer layer in which a sequence attends to itself.
pub struct SelfAttnLayer<T> {
    pub norm1: LayerNorm1<T>,
    pub attn: MhaWeights<T>,
    pub gamma_1: LayerScale<T>,
    pub norm2: LayerNorm1<T>,
    pub linear1: Weight2D<T>,
    pub linear1_bias: Vec<T>,
    pub linear2: Weight2D<T>,
    pub linear2_bias: Vec<T>,
    pub gamma_2: LayerScale<T>,
    /// Applied last, over positions and features together.
    pub norm_out: GroupNorm1<T>,
}

/// Transformer layer in which a sequence attends to another.
pub struct CrossAttnLayer<T> {
    /// For the queries.
    pub norm1: LayerNorm1<T>,
    /// For the keys and values.
    pub norm2: LayerNorm1<T>,
    pub attn: MhaWeights<T>,
    pub gamma_1: LayerScale<T>,
    pub norm3: LayerNorm1<T>,
    pub linear1: Weight2D<T>,
    pub linear1_bias: Vec<T>,
    pub linear2: Weight2D<T>,
    pub linear2_bias: Vec<T>,
    pub gamma_2: LayerScale<T>,
    /// Applied last, over positions and features together.
    pub norm_out: GroupNorm1<T>,
}

/// One transformer layer: of self-attention or of cross-attention.
pub struct TransformerLayerWeights<T> {
    pub self_attn: Option<SelfAttnLayer<T>>,
    pub cross_attn: Option<CrossAttnLayer<T>>,
}

/// The transformer between the encoders and the decoders.
///
/// The channel resamplers are there where the width of the encoders and that of the
/// transformer differ.
pub struct CrossDomainTransformer<T> {
    pub norm_in: LayerNorm1<T>,
    pub norm_in_t: LayerNorm1<T>,
    pub channel_upsampler: Option<Conv1dWeight<T>>,
    pub channel_upsampler_bias: Option<Vec<T>>,
    pub channel_downsampler: Option<Conv1dWeight<T>>,
    pub channel_downsampler_bias: Option<Vec<T>>,
    pub channel_upsampler_t: Option<Conv1dWeight<T>>,
    pub channel_upsampler_t_bias: Option<Vec<T>>,
    pub channel_downsampler_t: Option<Conv1dWeight<T>>,
    pub channel_downsampler_t_bias: Option<Vec<T>>,
    pub layers: Vec<TransformerLayerWeights<T>>,
    pub layers_t: Vec<TransformerLayerWeights<T>>,
}

/// One complete model.
pub struct HTDemucs<T> {
    pub encoders: Vec<HEncLayer<T>>,
    pub tencoders: Vec<TEncLayer<T>>,
    pub crosstransformer: CrossDomainTransformer<T>,
    pub decoders: Vec<HDecLayer<T>>,
    pub tdecoders: Vec<TDecLayer<T>>,
    pub freq_emb: FreqEmb<T>,
    pub n_sources: usize,
    pub bottom_channels: usize,
}

} // verus!
