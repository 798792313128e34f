//! When the device holds the parameters of the network.
use vstd::prelude::*;
use crate::gpu_model::GpuBias;
use crate::gpu_model::GpuConv1dWeight;
use crate::gpu_model::GpuConv2dWeight;
use crate::gpu_model::GpuConvTranspose1dWeight;
use crate::gpu_model::GpuConvTranspose2dWeight;
use crate::gpu_model::GpuCrossAttnLayer;
use crate::gpu_model::GpuCrossDomainTransformer;
use crate::gpu_model::GpuDConv;
use crate::gpu_model::GpuDConvLayer;
use crate::gpu_model::GpuGroupNorm1;
use crate::gpu_model::GpuHDecLayer;
use crate::gpu_model::GpuHEncLayer;
use crate::gpu_model::GpuHTDemucs;
use crate::gpu_model::GpuLayerNorm1;
use crate::gpu_model::GpuMhaWeights;
use crate::gpu_model::GpuSelfAttnLayer;
use crate::gpu_model::GpuTDecLayer;
use crate::gpu_model::GpuTEncLayer;
use crate::gpu_model::GpuTransformerLayerWeights;
use crate::gpu_model::GpuWeight2D;
use crate::meaning::matmul;
use crate::model::Conv1dWeight;
use crate::model::Conv2dWeight;
use crate::model::CrossAttnLayer;
use crate::model::CrossDomainTransformer;
use crate::model::DConv;
use crate::model::DConvLayer;
use crate::model::GroupNorm1;
use crate::model::HDecLayer;
use crate::model::HEncLayer;
use crate::model::HTDemucs;
use crate::model::LayerNorm1;
use crate::model::MhaWeights;
use crate::model::SelfAttnLayer;
use crate::model::TDecLayer;
use crate::model::TEncLayer;
use crate::model::TransformerLayerWeights;
use crate::model::Weight2D;
use crate::ops_cpu::attention;

verus! {

/// The device holds a vector.
pub open spec fn holds_bias<T>(v: Seq<Seq<T>>, g: GpuBias, b: Seq<T>) -> bool {
    v[g.data.id as int] == b
}

/// The device holds a 1D kernel, transposed.
pub open spec fn holds_conv1d<T>(v: Seq<Seq<T>>, g: GpuConv1dWeight, w: Conv1dWeight<T>) -> bool {
    &&& g.out_ch == w.out_ch
    &&& g.in_ch == w.in_ch
    &&& g.k == w.k
    &&& w.in_ch * w.k <= usize::MAX
    &&& matmul::is_turned(w.data@, w.out_ch as int, w.in_ch * w.k, v[g.data.id as int])
}

/// The device holds a 2D kernel, transposed.
pub open spec fn holds_conv2d<T>(v: Seq<Seq<T>>, g: GpuConv2dWeight, w: Conv2dWeight<T>) -> bool {
    &&& g.out_ch == w.out_ch
    &&& g.in_ch == w.in_ch
    &&& g.kh == w.kh
    &&& g.kw == w.kw
    &&& w.in_ch * w.kh * w.kw <= usize::MAX
    &&& matmul::is_turned(w.data@, w.out_ch as int, w.in_ch * w.kh * w.kw, v[g.data.id as int])
}

/// The device holds the kernel of a transposed 1D convolution.
pub open spec fn holds_conv_tr1d<T>(
    v: Seq<Seq<T>>,
    g: GpuConvTranspose1dWeight,
    w: Conv1dWeight<T>,
) -> bool {
    &&& g.out_ch == w.out_ch
    &&& g.in_ch == w.in_ch
    &&& g.k == w.k
    &&& v[g.data.id as int] == w.data@
}

/// The device holds the kernel of a transposed 2D convolution.
pub open spec fn holds_conv_tr2d<T>(
    v: Seq<Seq<T>>,
    g: GpuConvTranspose2dWeight,
    w: Conv2dWeight<T>,
) -> bool {
    &&& g.out_ch == w.out_ch
    &&& g.in_ch == w.in_ch
    &&& g.kh == w.kh
    &&& g.kw == w.kw
    &&& v[g.data.id as int] == w.data@
}

/// The device holds the gains and shifts of a group normalization.
pub open spec fn holds_group_norm<T>(v: Seq<Seq<T>>, g: GpuGroupNorm1, n: GroupNorm1<T>) -> bool {
    &&& v[g.gamma.id as int] == n.gamma@
    &&& v[g.beta.id as int] == n.beta@
}

/// The device holds a residual layer.
#[verifier::opaque]
pub open spec fn holds_dconv_layer<T>(v: Seq<Seq<T>>, g: GpuDConvLayer, l: DConvLayer<T>) -> bool {
    &&& holds_conv1d(v, g.conv1, l.conv1)
    &&& holds_bias(v, g.conv1_bias, l.conv1_bias.data@)
    &&& holds_group_norm(v, g.norm1, l.norm1)
    &&& holds_conv1d(v, g.conv2, l.conv2)
    &&& holds_bias(v, g.conv2_bias, l.conv2_bias.data@)
    &&& holds_group_norm(v, g.norm2, l.norm2)
    &&& v[g.scale.scale.id as int] == l.scale.scale@
}

/// The device holds a stack of residual layers.
#[verifier::opaque]
pub open spec fn holds_dconv<T>(v: Seq<Seq<T>>, g: GpuDConv, d: DConv<T>) -> bool {
    &&& g.layers@.len() == d.layers@.len()
    &&& forall|j: int|
        #![trigger g.layers@[j]]
        #![trigger d.layers@[j]]
        0 <= j < d.layers@.len() ==> holds_dconv_layer(v, g.layers@[j], d.layers@[j])
}

/// The second convolution of each residual layer sees one position at a time.
pub open spec fn dconv_pointwise<T>(d: DConv<T>) -> bool {
    forall|j: int| 0 <= j < d.layers@.len() ==> (#[trigger] d.layers@[j]).conv2.k == 1
}

/// The device holds a layer of the frequency encoder.
#[verifier::opaque]
pub open spec fn holds_henc<T>(v: Seq<Seq<T>>, g: GpuHEncLayer, l: HEncLayer<T>) -> bool {
    &&& holds_conv2d(v, g.conv, l.conv)
    &&& holds_bias(v, g.conv_bias, l.conv_bias.data@)
    &&& holds_dconv(v, g.dconv, l.dconv)
    &&& holds_conv2d(v, g.rewrite, l.rewrite)
    &&& holds_bias(v, g.rewrite_bias, l.rewrite_bias.data@)
}

/// The device holds a layer of the time encoder.
#[verifier::opaque]
pub open spec fn holds_tenc<T>(v: Seq<Seq<T>>, g: GpuTEncLayer, l: TEncLayer<T>) -> bool {
    &&& holds_conv1d(v, g.conv, l.conv)
    &&& holds_bias(v, g.conv_bias, l.conv_bias.data@)
    &&& holds_dconv(v, g.dconv, l.dconv)
    &&& holds_conv1d(v, g.rewrite, l.rewrite)
    &&& holds_bias(v, g.rewrite_bias, l.rewrite_bias.data@)
}

/// The device holds a layer of the frequency decoder.
#[verifier::opaque]
pub open spec fn holds_hdec<T>(v: Seq<Seq<T>>, g: GpuHDecLayer, l: HDecLayer<T>) -> bool {
    &&& holds_conv2d(v, g.rewrite, l.rewrite)
    &&& holds_bias(v, g.rewrite_bias, l.rewrite_bias.data@)
    &&& holds_dconv(v, g.dconv, l.dconv)
    &&& holds_conv_tr2d(v, g.conv_tr, l.conv_tr)
    &&& holds_bias(v, g.conv_tr_bias, l.conv_tr_bias.data@)
    &&& g.last == l.last
}

/// The device holds a layer of the time decoder.
#[verifier::opaque]
pub open spec fn holds_tdec<T>(v: Seq<Seq<T>>, g: GpuTDecLayer, l: TDecLayer<T>) -> bool {
    &&& holds_conv1d(v, g.rewrite, l.rewrite)
    &&& holds_bias(v, g.rewrite_bias, l.rewrite_bias.data@)
    &&& holds_dconv(v, g.dconv, l.dconv)
    &&& holds_conv_tr1d(v, g.conv_tr, l.conv_tr)
    &&& holds_bias(v, g.conv_tr_bias, l.conv_tr_bias.data@)
    &&& g.last == l.last
}

/// The device holds the matrix of a linear layer, transposed.
pub open spec fn holds_linear<T>(v: Seq<Seq<T>>, g: GpuWeight2D, w: Weight2D<T>) -> bool {
    &&& g.rows == w.cols
    &&& g.cols == w.rows
    &&& matmul::is_turned(w.data@, w.rows as int, w.cols as int, v[g.data.id as int])
}

/// The device holds a square matrix, transposed.
pub open spec fn holds_square<T>(v: Seq<Seq<T>>, g: GpuWeight2D, d: usize, data: Seq<T>) -> bool {
    &&& g.rows == d
    &&& g.cols == d
    &&& matmul::is_turned(data, d as int, d as int, v[g.data.id as int])
}

/// The device holds the gains and shifts of a layer normalization.
pub open spec fn holds_layer_norm<T>(v: Seq<Seq<T>>, g: GpuLayerNorm1, n: LayerNorm1<T>) -> bool {
    &&& v[g.gamma.id as int] == n.gamma@
    &&& v[g.beta.id as int] == n.beta@
}

/// The device holds the weights of attention.
#[verifier::opaque]
pub open spec fn holds_mha<T>(v: Seq<Seq<T>>, g: GpuMhaWeights, m: MhaWeights<T>) -> bool {
    let d = m.d_model;
    &&& g.d_model == d
    &&& g.n_heads == m.n_heads
    &&& holds_square(v, g.q_w, d, attention::projection(m.in_proj_weight@, d as int, 0))
    &&& holds_square(v, g.k_w, d, attention::projection(m.in_proj_weight@, d as int, 1))
    &&& holds_square(v, g.v_w, d, attention::projection(m.in_proj_weight@, d as int, 2))
    &&& holds_bias(v, g.q_b, attention::projection_bias(m.in_proj_bias@, d as int, 0))
    &&& holds_bias(v, g.k_b, attention::projection_bias(m.in_proj_bias@, d as int, 1))
    &&& holds_bias(v, g.v_b, attention::projection_bias(m.in_proj_bias@, d as int, 2))
    &&& holds_square(v, g.out_proj_w, d, m.out_proj_weight@)
    &&& holds_bias(v, g.out_proj_b, m.out_proj_bias@)
}

/// The device holds a layer of self-attention.
#[verifier::opaque]
pub open spec fn holds_self_attn<T>(
    v: Seq<Seq<T>>,
    g: GpuSelfAttnLayer,
    l: SelfAttnLayer<T>,
) -> bool {
    &&& holds_layer_norm(v, g.norm1, l.norm1)
    &&& holds_mha(v, g.attn, l.attn)
    &&& v[g.gamma_1.scale.id as int] == l.gamma_1.scale@
    &&& holds_layer_norm(v, g.norm2, l.norm2)
    &&& holds_linear(v, g.linear1, l.linear1)
    &&& holds_bias(v, g.linear1_bias, l.linear1_bias@)
    &&& holds_linear(v, g.linear2, l.linear2)
    &&& holds_bias(v, g.linear2_bias, l.linear2_bias@)
    &&& v[g.gamma_2.scale.id as int] == l.gamma_2.scale@
    &&& holds_group_norm(v, g.norm_out, l.norm_out)
}

/// The device holds a layer of cross-attention.
#[verifier::opaque]
pub open spec fn holds_cross_attn<T>(
    v: Seq<Seq<T>>,
    g: GpuCrossAttnLayer,
    l: CrossAttnLayer<T>,
) -> bool {
    &&& holds_layer_norm(v, g.norm1, l.norm1)
    &&& holds_layer_norm(v, g.norm2, l.norm2)
    &&& holds_mha(v, g.attn, l.attn)
    &&& v[g.gamma_1.scale.id as int] == l.gamma_1.scale@
    &&& holds_layer_norm(v, g.norm3, l.norm3)
    &&& holds_linear(v, g.linear1, l.linear1)
    &&& holds_bias(v, g.linear1_bias, l.linear1_bias@)
    &&& holds_linear(v, g.linear2, l.linear2)
    &&& holds_bias(v, g.linear2_bias, l.linear2_bias@)
    &&& v[g.gamma_2.scale.id as int] == l.gamma_2.scale@
    &&& holds_group_norm(v, g.norm_out, l.norm_out)
}

/// The device holds a transformer layer.
#[verifier::opaque]
pub open spec fn holds_transformer_layer<T>(
    v: Seq<Seq<T>>,
    g: GpuTransformerLayerWeights,
    l: TransformerLayerWeights<T>,
) -> bool {
    match g {
        GpuTransformerLayerWeights::SelfAttn(g) => {
            &&& l.self_attn is Some
            &&& holds_self_attn(v, g, l.self_attn->0)
        },
        GpuTransformerLayerWeights::CrossAttn(g) => {
            &&& l.self_attn is None
            &&& l.cross_attn is Some
            &&& holds_cross_attn(v, g, l.cross_attn->0)
        },
    }
}

/// The device holds a channel resampler, or there is none.
#[verifier::opaque]
pub open spec fn holds_resampler<T>(
    v: Seq<Seq<T>>,
    gw: Option<GpuConv1dWeight>,
    gb: Option<GpuBias>,
    w: Option<Conv1dWeight<T>>,
    b: Option<Vec<T>>,
) -> bool {
    &&& gw is Some == w is Some
    &&& gb is Some == b is Some
    &&& w is Some ==> holds_conv1d(v, gw->0, w->0)
    &&& b is Some ==> holds_bias(v, gb->0, b->0@)
}

/// The device holds transformer layers.
#[verifier::opaque]
pub open spec fn holds_transformer_layers<T>(
    v: Seq<Seq<T>>,
    g: Seq<GpuTransformerLayerWeights>,
    l: Seq<TransformerLayerWeights<T>>,
) -> bool {
    &&& g.len() == l.len()
    &&& forall|i: int|
        #![trigger g[i]]
        #![trigger l[i]]
        0 <= i < l.len() ==> holds_transformer_layer(v, g[i], l[i])
}

/// The device holds the transformer.
#[verifier::opaque]
pub open spec fn holds_transformer<T>(
    v: Seq<Seq<T>>,
    g: GpuCrossDomainTransformer,
    l: CrossDomainTransformer<T>,
) -> bool {
    &&& holds_layer_norm(v, g.norm_in, l.norm_in)
    &&& g.norm_in.dim == l.norm_in.dim
    &&& holds_layer_norm(v, g.norm_in_t, l.norm_in_t)
    &&& holds_resampler(
        v,
        g.channel_upsampler,
        g.channel_upsampler_bias,
        l.channel_upsampler,
        l.channel_upsampler_bias,
    )
    &&& holds_resampler(
        v,
        g.channel_downsampler,
        g.channel_downsampler_bias,
        l.channel_downsampler,
        l.channel_downsampler_bias,
    )
    &&& holds_resampler(
        v,
        g.channel_upsampler_t,
        g.channel_upsampler_t_bias,
        l.channel_upsampler_t,
        l.channel_upsampler_t_bias,
    )
    &&& holds_resampler(
        v,
        g.channel_downsampler_t,
        g.channel_downsampler_t_bias,
        l.channel_downsampler_t,
        l.channel_downsampler_t_bias,
    )
    &&& holds_transformer_layers(v, g.layers@, l.layers@)
    &&& holds_transformer_layers(v, g.layers_t@, l.layers_t@)
}

/// The device holds a model.
#[verifier::opaque]
pub open spec fn holds_model<T>(v: Seq<Seq<T>>, g: GpuHTDemucs, m: HTDemucs<T>) -> bool {
    &&& g.encoders@.len() == m.encoders@.len()
    &&& g.tencoders@.len() == m.tencoders@.len()
    &&& g.decoders@.len() == m.decoders@.len()
    &&& g.tdecoders@.len() == m.tdecoders@.len()
    &&& forall|i: int|
        #![trigger m.encoders@[i]]
        0 <= i < m.encoders@.len() ==> holds_henc(v, g.encoders@[i], m.encoders@[i])
    &&& forall|i: int|
        #![trigger m.tencoders@[i]]
        0 <= i < m.tencoders@.len() ==> holds_tenc(v, g.tencoders@[i], m.tencoders@[i])
    &&& forall|i: int|
        #![trigger m.decoders@[i]]
        0 <= i < m.decoders@.len() ==> holds_hdec(v, g.decoders@[i], m.decoders@[i])
    &&& forall|i: int|
        #![trigger m.tdecoders@[i]]
        0 <= i < m.tdecoders@.len() ==> holds_tdec(v, g.tdecoders@[i], m.tdecoders@[i])
    &&& holds_transformer(v, g.crosstransformer, m.crosstransformer)
    &&& v[g.freq_emb.data.id as int] == m.freq_emb.data@
    &&& g.n_sources == m.n_sources
}

/// The second convolution of each residual layer of a model sees one position at a time.
#[verifier::opaque]
pub open spec fn pointwise<T>(m: HTDemucs<T>) -> bool {
    &&& forall|i: int|
        0 <= i < m.encoders@.len() ==> dconv_pointwise((#[trigger] m.encoders@[i]).dconv)
    &&& forall|i: int|
        0 <= i < m.tencoders@.len() ==> dconv_pointwise((#[trigger] m.tencoders@[i]).dconv)
    &&& forall|i: int|
        0 <= i < m.decoders@.len() ==> dconv_pointwise((#[trigger] m.decoders@[i]).dconv)
    &&& forall|i: int|
        0 <= i < m.tdecoders@.len() ==> dconv_pointwise((#[trigger] m.tdecoders@[i]).dconv)
}

} // verus!
