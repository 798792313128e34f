//! Models with the same weights.
//!
//! Two values are alike if their sizes and the lengths of their arrays are the same, and, where
//! `exact` is asked for, the numbers too.
use vstd::prelude::*;
use crate::arith;
use crate::arith::Arith;
use crate::gpu_loading;
use crate::loading;
use crate::model::Bias;
use crate::model::Conv1dWeight;
use crate::model::Conv2dWeight;
use crate::model::CrossAttnLayer;
use crate::model::CrossDomainTransformer;
use crate::model::DConv;
use crate::model::DConvLayer;
use crate::model::FreqEmb;
use crate::model::GroupNorm1;
use crate::model::HDecLayer;
use crate::model::HEncLayer;
use crate::model::HTDemucs;
use crate::model::LayerNorm1;
use crate::model::LayerScale;
use crate::model::MhaWeights;
use crate::model::SelfAttnLayer;
use crate::model::TDecLayer;
use crate::model::TEncLayer;
use crate::model::TransformerLayerWeights;
use crate::model::Weight2D;
use crate::ops_cpu::layout;
use crate::raw_tensor;
use crate::raw_tensor::RawTensorView;
use crate::DEPTH;

verus! {

/// Two arrays are alike.
pub open spec fn same_numbers<T>(x: Seq<T>, y: Seq<T>, exact: bool) -> bool {
    &&& x.len() == y.len()
    &&& exact ==> x == y
}

/// Two kernels of a 2D convolution are alike.
pub open spec fn same_conv2d<T>(x: Conv2dWeight<T>, y: Conv2dWeight<T>, exact: bool) -> bool {
    &&& same_numbers(x.data@, y.data@, exact)
    &&& x.out_ch == y.out_ch
    &&& x.in_ch == y.in_ch
    &&& x.kh == y.kh
    &&& x.kw == y.kw
}

/// Two kernels of a 1D convolution are alike.
pub open spec fn same_conv1d<T>(x: Conv1dWeight<T>, y: Conv1dWeight<T>, exact: bool) -> bool {
    &&& same_numbers(x.data@, y.data@, exact)
    &&& x.out_ch == y.out_ch
    &&& x.in_ch == y.in_ch
    &&& x.k == y.k
}

/// Two biases are alike.
pub open spec fn same_bias<T>(x: Bias<T>, y: Bias<T>, exact: bool) -> bool {
    &&& same_numbers(x.data@, y.data@, exact)
    &&& x.len == y.len
}

/// Two scales are alike.
pub open spec fn same_scale<T>(x: LayerScale<T>, y: LayerScale<T>, exact: bool) -> bool {
    same_numbers(x.scale@, y.scale@, exact)
}

/// Two group normalizations are alike.
pub open spec fn same_group_norm<T>(x: GroupNorm1<T>, y: GroupNorm1<T>, exact: bool) -> bool {
    &&& same_numbers(x.gamma@, y.gamma@, exact)
    &&& same_numbers(x.beta@, y.beta@, exact)
    &&& x.num_channels == y.num_channels
}

/// Two layer normalizations are alike.
pub open spec fn same_layer_norm<T>(x: LayerNorm1<T>, y: LayerNorm1<T>, exact: bool) -> bool {
    &&& same_numbers(x.gamma@, y.gamma@, exact)
    &&& same_numbers(x.beta@, y.beta@, exact)
    &&& x.dim == y.dim
}

/// Two residual layers are alike.
#[verifier::opaque]
pub open spec fn same_dconv_layer<T>(x: DConvLayer<T>, y: DConvLayer<T>, exact: bool) -> bool {
    &&& same_conv1d(x.conv1, y.conv1, exact)
    &&& same_bias(x.conv1_bias, y.conv1_bias, exact)
    &&& same_group_norm(x.norm1, y.norm1, exact)
    &&& same_conv1d(x.conv2, y.conv2, exact)
    &&& same_bias(x.conv2_bias, y.conv2_bias, exact)
    &&& same_group_norm(x.norm2, y.norm2, exact)
    &&& same_scale(x.scale, y.scale, exact)
}

/// Two lists of residual layers are alike.
pub open spec fn same_dconv_layers<T>(
    x: Seq<DConvLayer<T>>,
    y: Seq<DConvLayer<T>>,
    exact: bool,
) -> bool {
    &&& x.len() == y.len()
    &&& forall|i: int| 0 <= i < x.len() ==> same_dconv_layer(#[trigger] x[i], y[i], exact)
}

/// Two residual branches are alike.
#[verifier::opaque]
pub open spec fn same_dconv<T>(x: DConv<T>, y: DConv<T>, exact: bool) -> bool {
    same_dconv_layers(x.layers@, y.layers@, exact)
}

/// Two layers of the frequency encoder are alike.
#[verifier::opaque]
pub open spec fn same_henc<T>(x: HEncLayer<T>, y: HEncLayer<T>, exact: bool) -> bool {
    &&& same_conv2d(x.conv, y.conv, exact)
    &&& same_bias(x.conv_bias, y.conv_bias, exact)
    &&& same_dconv(x.dconv, y.dconv, exact)
    &&& same_conv2d(x.rewrite, y.rewrite, exact)
    &&& same_bias(x.rewrite_bias, y.rewrite_bias, exact)
}

/// Two lists of layers of the frequency encoder are alike.
pub open spec fn same_hencs<T>(
    x: Seq<HEncLayer<T>>,
    y: Seq<HEncLayer<T>>,
    exact: bool,
) -> bool {
    &&& x.len() == y.len()
    &&& forall|i: int| 0 <= i < x.len() ==> same_henc(#[trigger] x[i], y[i], exact)
}

/// Two layers of the time encoder are alike.
#[verifier::opaque]
pub open spec fn same_tenc<T>(x: TEncLayer<T>, y: TEncLayer<T>, exact: bool) -> bool {
    &&& same_conv1d(x.conv, y.conv, exact)
    &&& same_bias(x.conv_bias, y.conv_bias, exact)
    &&& same_dconv(x.dconv, y.dconv, exact)
    &&& same_conv1d(x.rewrite, y.rewrite, exact)
    &&& same_bias(x.rewrite_bias, y.rewrite_bias, exact)
}

/// Two lists of layers of the time encoder are alike.
pub open spec fn same_tencs<T>(
    x: Seq<TEncLayer<T>>,
    y: Seq<TEncLayer<T>>,
    exact: bool,
) -> bool {
    &&& x.len() == y.len()
    &&& forall|i: int| 0 <= i < x.len() ==> same_tenc(#[trigger] x[i], y[i], exact)
}

/// Two layers of the frequency decoder are alike.
#[verifier::opaque]
pub open spec fn same_hdec<T>(x: HDecLayer<T>, y: HDecLayer<T>, exact: bool) -> bool {
    &&& same_conv2d(x.rewrite, y.rewrite, exact)
    &&& same_bias(x.rewrite_bias, y.rewrite_bias, exact)
    &&& same_dconv(x.dconv, y.dconv, exact)
    &&& same_conv2d(x.conv_tr, y.conv_tr, exact)
    &&& same_bias(x.conv_tr_bias, y.conv_tr_bias, exact)
    &&& x.last == y.last
}

/// Two lists of layers of the frequency decoder are alike.
pub open spec fn same_hdecs<T>(
    x: Seq<HDecLayer<T>>,
    y: Seq<HDecLayer<T>>,
    exact: bool,
) -> bool {
    &&& x.len() == y.len()
    &&& forall|i: int| 0 <= i < x.len() ==> same_hdec(#[trigger] x[i], y[i], exact)
}

/// Two layers of the time decoder are alike.
#[verifier::opaque]
pub open spec fn same_tdec<T>(x: TDecLayer<T>, y: TDecLayer<T>, exact: bool) -> bool {
    &&& same_conv1d(x.rewrite, y.rewrite, exact)
    &&& same_bias(x.rewrite_bias, y.rewrite_bias, exact)
    &&& same_dconv(x.dconv, y.dconv, exact)
    &&& same_conv1d(x.conv_tr, y.conv_tr, exact)
    &&& same_bias(x.conv_tr_bias, y.conv_tr_bias, exact)
    &&& x.last == y.last
}

/// Two lists of layers of the time decoder are alike.
pub open spec fn same_tdecs<T>(
    x: Seq<TDecLayer<T>>,
    y: Seq<TDecLayer<T>>,
    exact: bool,
) -> bool {
    &&& x.len() == y.len()
    &&& forall|i: int| 0 <= i < x.len() ==> same_tdec(#[trigger] x[i], y[i], exact)
}

/// Two embeddings of the frequencies are alike.
pub open spec fn same_emb<T>(x: FreqEmb<T>, y: FreqEmb<T>, exact: bool) -> bool {
    &&& same_numbers(x.data@, y.data@, exact)
    &&& x.n_bins == y.n_bins
    &&& x.dim == y.dim
}

/// Two matrices of a linear layer are alike.
pub open spec fn same_weight2d<T>(x: Weight2D<T>, y: Weight2D<T>, exact: bool) -> bool {
    &&& same_numbers(x.data@, y.data@, exact)
    &&& x.rows == y.rows
    &&& x.cols == y.cols
}

/// Two attentions are alike.
#[verifier::opaque]
pub open spec fn same_mha<T>(x: MhaWeights<T>, y: MhaWeights<T>, exact: bool) -> bool {
    &&& same_numbers(x.in_proj_weight@, y.in_proj_weight@, exact)
    &&& same_numbers(x.in_proj_bias@, y.in_proj_bias@, exact)
    &&& same_numbers(x.out_proj_weight@, y.out_proj_weight@, exact)
    &&& same_numbers(x.out_proj_bias@, y.out_proj_bias@, exact)
    &&& x.d_model == y.d_model
    &&& x.n_heads == y.n_heads
}

/// Two self-attention layers are alike.
#[verifier::opaque]
pub open spec fn same_self_attn<T>(x: SelfAttnLayer<T>, y: SelfAttnLayer<T>, exact: bool) -> bool {
    &&& same_layer_norm(x.norm1, y.norm1, exact)
    &&& same_mha(x.attn, y.attn, exact)
    &&& same_scale(x.gamma_1, y.gamma_1, exact)
    &&& same_layer_norm(x.norm2, y.norm2, exact)
    &&& same_weight2d(x.linear1, y.linear1, exact)
    &&& same_numbers(x.linear1_bias@, y.linear1_bias@, exact)
    &&& same_weight2d(x.linear2, y.linear2, exact)
    &&& same_numbers(x.linear2_bias@, y.linear2_bias@, exact)
    &&& same_scale(x.gamma_2, y.gamma_2, exact)
    &&& same_group_norm(x.norm_out, y.norm_out, exact)
}

/// Two cross-attention layers are alike.
#[verifier::opaque]
pub open spec fn same_cross_attn<T>(
    x: CrossAttnLayer<T>,
    y: CrossAttnLayer<T>,
    exact: bool,
) -> bool {
    &&& same_layer_norm(x.norm1, y.norm1, exact)
    &&& same_layer_norm(x.norm2, y.norm2, exact)
    &&& same_mha(x.attn, y.attn, exact)
    &&& same_scale(x.gamma_1, y.gamma_1, exact)
    &&& same_layer_norm(x.norm3, y.norm3, exact)
    &&& same_weight2d(x.linear1, y.linear1, exact)
    &&& same_numbers(x.linear1_bias@, y.linear1_bias@, exact)
    &&& same_weight2d(x.linear2, y.linear2, exact)
    &&& same_numbers(x.linear2_bias@, y.linear2_bias@, exact)
    &&& same_scale(x.gamma_2, y.gamma_2, exact)
    &&& same_group_norm(x.norm_out, y.norm_out, exact)
}

/// Two layers of the transformer are alike.
#[verifier::opaque]
pub open spec fn same_transformer_layer<T>(
    x: TransformerLayerWeights<T>,
    y: TransformerLayerWeights<T>,
    exact: bool,
) -> bool {
    &&& x.self_attn is Some <==> y.self_attn is Some
    &&& x.self_attn is Some ==> same_self_attn(x.self_attn->0, y.self_attn->0, exact)
    &&& x.cross_attn is Some <==> y.cross_attn is Some
    &&& x.cross_attn is Some ==> same_cross_attn(x.cross_attn->0, y.cross_attn->0, exact)
}

/// Two lists of layers of the transformer are alike.
pub open spec fn same_transformer_layers<T>(
    x: Seq<TransformerLayerWeights<T>>,
    y: Seq<TransformerLayerWeights<T>>,
    exact: bool,
) -> bool {
    &&& x.len() == y.len()
    &&& forall|i: int| 0 <= i < x.len() ==> same_transformer_layer(#[trigger] x[i], y[i], exact)
}

/// Two transformers are alike.
#[verifier::opaque]
pub open spec fn same_transformer<T>(
    x: CrossDomainTransformer<T>,
    y: CrossDomainTransformer<T>,
    exact: bool,
) -> bool {
    &&& same_layer_norm(x.norm_in, y.norm_in, exact)
    &&& same_layer_norm(x.norm_in_t, y.norm_in_t, exact)
    &&& x.channel_upsampler is Some <==> y.channel_upsampler is Some
    &&& x.channel_upsampler is Some ==> same_conv1d(
        x.channel_upsampler->0,
        y.channel_upsampler->0,
        exact,
    )
    &&& x.channel_upsampler_bias is Some <==> y.channel_upsampler_bias is Some
    &&& x.channel_upsampler_bias is Some ==> same_numbers(
        x.channel_upsampler_bias->0@,
        y.channel_upsampler_bias->0@,
        exact,
    )
    &&& x.channel_downsampler is Some <==> y.channel_downsampler is Some
    &&& x.channel_downsampler is Some ==> same_conv1d(
        x.channel_downsampler->0,
        y.channel_downsampler->0,
        exact,
    )
    &&& x.channel_downsampler_bias is Some <==> y.channel_downsampler_bias is Some
    &&& x.channel_downsampler_bias is Some ==> same_numbers(
        x.channel_downsampler_bias->0@,
        y.channel_downsampler_bias->0@,
        exact,
    )
    &&& x.channel_upsampler_t is Some <==> y.channel_upsampler_t is Some
    &&& x.channel_upsampler_t is Some ==> same_conv1d(
        x.channel_upsampler_t->0,
        y.channel_upsampler_t->0,
        exact,
    )
    &&& x.channel_upsampler_t_bias is Some <==> y.channel_upsampler_t_bias is Some
    &&& x.channel_upsampler_t_bias is Some ==> same_numbers(
        x.channel_upsampler_t_bias->0@,
        y.channel_upsampler_t_bias->0@,
        exact,
    )
    &&& x.channel_downsampler_t is Some <==> y.channel_downsampler_t is Some
    &&& x.channel_downsampler_t is Some ==> same_conv1d(
        x.channel_downsampler_t->0,
        y.channel_downsampler_t->0,
        exact,
    )
    &&& x.channel_downsampler_t_bias is Some <==> y.channel_downsampler_t_bias is Some
    &&& x.channel_downsampler_t_bias is Some ==> same_numbers(
        x.channel_downsampler_t_bias->0@,
        y.channel_downsampler_t_bias->0@,
        exact,
    )
    &&& same_transformer_layers(x.layers@, y.layers@, exact)
    &&& same_transformer_layers(x.layers_t@, y.layers_t@, exact)
}

/// Two models are alike.
#[verifier::opaque]
pub open spec fn same_model<T>(x: HTDemucs<T>, y: HTDemucs<T>, exact: bool) -> bool {
    &&& same_hencs(x.encoders@, y.encoders@, exact)
    &&& same_tencs(x.tencoders@, y.tencoders@, exact)
    &&& same_transformer(x.crosstransformer, y.crosstransformer, exact)
    &&& same_hdecs(x.decoders@, y.decoders@, exact)
    &&& same_tdecs(x.tdecoders@, y.tdecoders@, exact)
    &&& same_emb(x.freq_emb, y.freq_emb, exact)
    &&& x.n_sources == y.n_sources
    &&& x.bottom_channels == y.bottom_channels
}

/// Decoding a stored number, and the arithmetic of loading, gives one result.
pub open spec fn decodes_once<A: Arith>(a: &A) -> bool {
    &&& forall|b: u32, x: A::T, y: A::T| #[trigger]
        arith::is_decoded(a, b, x) && #[trigger] arith::is_decoded(a, b, y) ==> x == y
    &&& forall|b: u16, x: A::T, y: A::T| #[trigger]
        arith::is_decoded_half(a, b, x) && #[trigger] arith::is_decoded_half(a, b, y) ==> x == y
    &&& forall|n: u64, d: u64, x: A::T, y: A::T| #[trigger]
        arith::is_ratio(a, n, d, x) && #[trigger] arith::is_ratio(a, n, d, y) ==> x == y
    &&& forall|u: A::T, v: A::T, x: A::T, y: A::T| #[trigger]
        arith::is_product(a, u, v, x) && #[trigger] arith::is_product(a, u, v, y) ==> x == y
}

/// What is loaded from the same weights is alike.
proof fn lemma_elements<A: Arith>(
    a: &A,
    t: RawTensorView,
    x: Seq<A::T>,
    y: Seq<A::T>,
    exact: bool,
)
    requires
        exact ==> decodes_once(a),
        raw_tensor::are_elements(a, t, x),
        raw_tensor::are_elements(a, t, y),
    ensures
        same_numbers(x, y, exact),
{
    reveal(raw_tensor::are_elements);
    if exact {
        assert forall|i: int| 0 <= i < x.len() implies x[i] == y[i] by {
            assert(raw_tensor::is_element(a, t, i, x[i]));
            assert(raw_tensor::is_element(a, t, i, y[i]));
        }
        assert(x =~= y);
    }
}

/// What is loaded from the same weights is alike.
proof fn lemma_vector<A: Arith>(
    a: &A,
    m: loading::Weights,
    sig: Seq<char>,
    key: Seq<char>,
    x: Seq<A::T>,
    y: Seq<A::T>,
    exact: bool,
)
    requires
        exact ==> decodes_once(a),
        loading::is_vector(a, m, sig, key, x),
        loading::is_vector(a, m, sig, key, y),
    ensures
        same_numbers(x, y, exact),
{
    reveal(loading::is_vector);
    lemma_elements(a, m[(sig, key)], x, y, exact);
}

/// What is loaded from the same weights is alike.
proof fn lemma_conv2d<A: Arith>(
    a: &A,
    m: loading::Weights,
    sig: Seq<char>,
    p: Seq<char>,
    x: Conv2dWeight<A::T>,
    y: Conv2dWeight<A::T>,
    exact: bool,
)
    requires
        exact ==> decodes_once(a),
        loading::is_conv2d(a, m, sig, p, x),
        loading::is_conv2d(a, m, sig, p, y),
    ensures
        same_conv2d(x, y, exact),
{
    reveal(loading::is_conv2d);
    lemma_elements(a, m[(sig, p + ".weight"@)], x.data@, y.data@, exact);
}

/// What is loaded from the same weights is alike.
proof fn lemma_conv1d<A: Arith>(
    a: &A,
    m: loading::Weights,
    sig: Seq<char>,
    p: Seq<char>,
    x: Conv1dWeight<A::T>,
    y: Conv1dWeight<A::T>,
    exact: bool,
)
    requires
        exact ==> decodes_once(a),
        loading::is_conv1d(a, m, sig, p, x),
        loading::is_conv1d(a, m, sig, p, y),
    ensures
        same_conv1d(x, y, exact),
{
    reveal(loading::is_conv1d);
    lemma_elements(a, m[(sig, p + ".weight"@)], x.data@, y.data@, exact);
}

/// What is loaded from the same weights is alike.
proof fn lemma_weight2d<A: Arith>(
    a: &A,
    m: loading::Weights,
    sig: Seq<char>,
    p: Seq<char>,
    x: Weight2D<A::T>,
    y: Weight2D<A::T>,
    exact: bool,
)
    requires
        exact ==> decodes_once(a),
        loading::is_weight2d(a, m, sig, p, x),
        loading::is_weight2d(a, m, sig, p, y),
    ensures
        same_weight2d(x, y, exact),
{
    reveal(loading::is_weight2d);
    lemma_elements(a, m[(sig, p + ".weight"@)], x.data@, y.data@, exact);
}

/// What is loaded from the same weights is alike.
proof fn lemma_conv_transpose2d<A: Arith>(
    a: &A,
    m: loading::Weights,
    sig: Seq<char>,
    p: Seq<char>,
    x: Conv2dWeight<A::T>,
    y: Conv2dWeight<A::T>,
    exact: bool,
)
    requires
        exact ==> decodes_once(a),
        loading::is_conv_transpose2d(a, m, sig, p, x),
        loading::is_conv_transpose2d(a, m, sig, p, y),
    ensures
        same_conv2d(x, y, exact),
{
    reveal(loading::is_conv_transpose2d);
    let t = m[(sig, p + ".weight"@)];
    let (u, v, w) = (t.shape[0] as int, t.shape[1] as int, t.shape[2] * t.shape[3]);
    let d = choose|d: Seq<A::T>| #[trigger]
        raw_tensor::are_elements(a, t, d) && x.data@ == layout::swapped(d, u, v, w, 1);
    let e = choose|e: Seq<A::T>| #[trigger]
        raw_tensor::are_elements(a, t, e) && y.data@ == layout::swapped(e, u, v, w, 1);
    lemma_elements(a, t, d, e, exact);
}

/// What is loaded from the same weights is alike.
proof fn lemma_conv_transpose1d<A: Arith>(
    a: &A,
    m: loading::Weights,
    sig: Seq<char>,
    p: Seq<char>,
    x: Conv1dWeight<A::T>,
    y: Conv1dWeight<A::T>,
    exact: bool,
)
    requires
        exact ==> decodes_once(a),
        loading::is_conv_transpose1d(a, m, sig, p, x),
        loading::is_conv_transpose1d(a, m, sig, p, y),
    ensures
        same_conv1d(x, y, exact),
{
    reveal(loading::is_conv_transpose1d);
    let t = m[(sig, p + ".weight"@)];
    let (u, v, w) = (t.shape[0] as int, t.shape[1] as int, t.shape[2] as int);
    let d = choose|d: Seq<A::T>| #[trigger]
        raw_tensor::are_elements(a, t, d) && x.data@ == layout::swapped(d, u, v, w, 1);
    let e = choose|e: Seq<A::T>| #[trigger]
        raw_tensor::are_elements(a, t, e) && y.data@ == layout::swapped(e, u, v, w, 1);
    lemma_elements(a, t, d, e, exact);
}

/// What is loaded from the same weights is alike.
proof fn lemma_bias<A: Arith>(
    a: &A,
    m: loading::Weights,
    sig: Seq<char>,
    p: Seq<char>,
    x: Bias<A::T>,
    y: Bias<A::T>,
    exact: bool,
)
    requires
        exact ==> decodes_once(a),
        loading::is_bias(a, m, sig, p, x),
        loading::is_bias(a, m, sig, p, y),
    ensures
        same_bias(x, y, exact),
{
    reveal(loading::is_bias);
    lemma_vector(a, m, sig, p + ".bias"@, x.data@, y.data@, exact);
}

/// What is loaded from the same weights is alike.
proof fn lemma_group_norm<A: Arith>(
    a: &A,
    m: loading::Weights,
    sig: Seq<char>,
    p: Seq<char>,
    x: GroupNorm1<A::T>,
    y: GroupNorm1<A::T>,
    exact: bool,
)
    requires
        exact ==> decodes_once(a),
        loading::is_groupnorm(a, m, sig, p, x),
        loading::is_groupnorm(a, m, sig, p, y),
    ensures
        same_group_norm(x, y, exact),
{
    reveal(loading::is_groupnorm);
    lemma_vector(a, m, sig, p + ".weight"@, x.gamma@, y.gamma@, exact);
    lemma_vector(a, m, sig, p + ".bias"@, x.beta@, y.beta@, exact);
}

/// What is loaded from the same weights is alike.
proof fn lemma_scale<A: Arith>(
    a: &A,
    m: loading::Weights,
    sig: Seq<char>,
    p: Seq<char>,
    x: LayerScale<A::T>,
    y: LayerScale<A::T>,
    exact: bool,
)
    requires
        exact ==> decodes_once(a),
        loading::is_layer_scale(a, m, sig, p, x),
        loading::is_layer_scale(a, m, sig, p, y),
    ensures
        same_scale(x, y, exact),
{
    reveal(loading::is_layer_scale);
    lemma_vector(a, m, sig, p + ".scale"@, x.scale@, y.scale@, exact);
}

/// What is loaded from the same weights is alike.
proof fn lemma_layer_norm<A: Arith>(
    a: &A,
    m: loading::Weights,
    sig: Seq<char>,
    p: Seq<char>,
    x: LayerNorm1<A::T>,
    y: LayerNorm1<A::T>,
    exact: bool,
)
    requires
        exact ==> decodes_once(a),
        loading::is_layernorm(a, m, sig, p, x),
        loading::is_layernorm(a, m, sig, p, y),
    ensures
        same_layer_norm(x, y, exact),
{
    reveal(loading::is_layernorm);
    lemma_vector(a, m, sig, p + ".weight"@, x.gamma@, y.gamma@, exact);
    lemma_vector(a, m, sig, p + ".bias"@, x.beta@, y.beta@, exact);
}

/// What is loaded from the same weights is alike.
proof fn lemma_dconv_layer<A: Arith>(
    a: &A,
    m: loading::Weights,
    sig: Seq<char>,
    p: Seq<char>,
    x: DConvLayer<A::T>,
    y: DConvLayer<A::T>,
    exact: bool,
)
    requires
        exact ==> decodes_once(a),
        loading::is_dconv_layer(a, m, sig, p, x),
        loading::is_dconv_layer(a, m, sig, p, y),
    ensures
        same_dconv_layer(x, y, exact),
{
    reveal(loading::is_dconv_layer);
    reveal(same_dconv_layer);
    lemma_conv1d(a, m, sig, p + ".0"@, x.conv1, y.conv1, exact);
    lemma_bias(a, m, sig, p + ".0"@, x.conv1_bias, y.conv1_bias, exact);
    lemma_group_norm(a, m, sig, p + ".1"@, x.norm1, y.norm1, exact);
    lemma_conv1d(a, m, sig, p + ".3"@, x.conv2, y.conv2, exact);
    lemma_bias(a, m, sig, p + ".3"@, x.conv2_bias, y.conv2_bias, exact);
    lemma_group_norm(a, m, sig, p + ".4"@, x.norm2, y.norm2, exact);
    lemma_scale(a, m, sig, p + ".6"@, x.scale, y.scale, exact);
}

/// What is loaded from the same weights is alike.
proof fn lemma_dconv<A: Arith>(
    a: &A,
    m: loading::Weights,
    sig: Seq<char>,
    p: Seq<char>,
    x: DConv<A::T>,
    y: DConv<A::T>,
    exact: bool,
)
    requires
        exact ==> decodes_once(a),
        loading::is_dconv(a, m, sig, p, x),
        loading::is_dconv(a, m, sig, p, y),
    ensures
        same_dconv(x, y, exact),
{
    reveal(loading::are_dconv_layers);
    reveal(same_dconv);
    assert forall|i: int| 0 <= i < x.layers@.len() implies same_dconv_layer(
        #[trigger] x.layers@[i],
        y.layers@[i],
        exact,
    ) by {
        lemma_dconv_layer(
            a,
            m,
            sig,
            loading::numbered(p, i),
            x.layers@[i],
            y.layers@[i],
            exact,
        );
    }
}

/// What is loaded from the same weights is alike.
proof fn lemma_henc<A: Arith>(
    a: &A,
    m: loading::Weights,
    sig: Seq<char>,
    p: Seq<char>,
    x: HEncLayer<A::T>,
    y: HEncLayer<A::T>,
    exact: bool,
)
    requires
        exact ==> decodes_once(a),
        loading::is_henc(a, m, sig, p, x),
        loading::is_henc(a, m, sig, p, y),
    ensures
        same_henc(x, y, exact),
{
    reveal(loading::is_henc);
    reveal(same_henc);
    lemma_conv2d(a, m, sig, p + ".conv"@, x.conv, y.conv, exact);
    lemma_bias(a, m, sig, p + ".conv"@, x.conv_bias, y.conv_bias, exact);
    lemma_dconv(a, m, sig, p + ".dconv.layers"@, x.dconv, y.dconv, exact);
    lemma_conv2d(a, m, sig, p + ".rewrite"@, x.rewrite, y.rewrite, exact);
    lemma_bias(a, m, sig, p + ".rewrite"@, x.rewrite_bias, y.rewrite_bias, exact);
}

/// What is loaded from the same weights is alike.
proof fn lemma_tenc<A: Arith>(
    a: &A,
    m: loading::Weights,
    sig: Seq<char>,
    p: Seq<char>,
    x: TEncLayer<A::T>,
    y: TEncLayer<A::T>,
    exact: bool,
)
    requires
        exact ==> decodes_once(a),
        loading::is_tenc(a, m, sig, p, x),
        loading::is_tenc(a, m, sig, p, y),
    ensures
        same_tenc(x, y, exact),
{
    reveal(loading::is_tenc);
    reveal(same_tenc);
    lemma_conv1d(a, m, sig, p + ".conv"@, x.conv, y.conv, exact);
    lemma_bias(a, m, sig, p + ".conv"@, x.conv_bias, y.conv_bias, exact);
    lemma_dconv(a, m, sig, p + ".dconv.layers"@, x.dconv, y.dconv, exact);
    lemma_conv1d(a, m, sig, p + ".rewrite"@, x.rewrite, y.rewrite, exact);
    lemma_bias(a, m, sig, p + ".rewrite"@, x.rewrite_bias, y.rewrite_bias, exact);
}

/// What is loaded from the same weights is alike.
proof fn lemma_hdec<A: Arith>(
    a: &A,
    m: loading::Weights,
    sig: Seq<char>,
    p: Seq<char>,
    last: bool,
    x: HDecLayer<A::T>,
    y: HDecLayer<A::T>,
    exact: bool,
)
    requires
        exact ==> decodes_once(a),
        loading::is_hdec(a, m, sig, p, last, x),
        loading::is_hdec(a, m, sig, p, last, y),
    ensures
        same_hdec(x, y, exact),
{
    reveal(loading::is_hdec);
    reveal(same_hdec);
    lemma_conv2d(a, m, sig, p + ".rewrite"@, x.rewrite, y.rewrite, exact);
    lemma_bias(a, m, sig, p + ".rewrite"@, x.rewrite_bias, y.rewrite_bias, exact);
    lemma_dconv(a, m, sig, p + ".dconv.layers"@, x.dconv, y.dconv, exact);
    lemma_conv_transpose2d(a, m, sig, p + ".conv_tr"@, x.conv_tr, y.conv_tr, exact);
    lemma_bias(a, m, sig, p + ".conv_tr"@, x.conv_tr_bias, y.conv_tr_bias, exact);
}

/// What is loaded from the same weights is alike.
proof fn lemma_tdec<A: Arith>(
    a: &A,
    m: loading::Weights,
    sig: Seq<char>,
    p: Seq<char>,
    last: bool,
    x: TDecLayer<A::T>,
    y: TDecLayer<A::T>,
    exact: bool,
)
    requires
        exact ==> decodes_once(a),
        loading::is_tdec(a, m, sig, p, last, x),
        loading::is_tdec(a, m, sig, p, last, y),
    ensures
        same_tdec(x, y, exact),
{
    reveal(loading::is_tdec);
    reveal(same_tdec);
    lemma_conv1d(a, m, sig, p + ".rewrite"@, x.rewrite, y.rewrite, exact);
    lemma_bias(a, m, sig, p + ".rewrite"@, x.rewrite_bias, y.rewrite_bias, exact);
    lemma_dconv(a, m, sig, p + ".dconv.layers"@, x.dconv, y.dconv, exact);
    lemma_conv_transpose1d(a, m, sig, p + ".conv_tr"@, x.conv_tr, y.conv_tr, exact);
    lemma_bias(a, m, sig, p + ".conv_tr"@, x.conv_tr_bias, y.conv_tr_bias, exact);
}

/// What is loaded from the same weights is alike.
proof fn lemma_mha<A: Arith>(
    a: &A,
    m: loading::Weights,
    sig: Seq<char>,
    p: Seq<char>,
    d_model: usize,
    x: MhaWeights<A::T>,
    y: MhaWeights<A::T>,
    exact: bool,
)
    requires
        exact ==> decodes_once(a),
        loading::is_mha(a, m, sig, p, d_model, x),
        loading::is_mha(a, m, sig, p, d_model, y),
    ensures
        same_mha(x, y, exact),
{
    reveal(loading::is_mha);
    reveal(same_mha);
    lemma_vector(a, m, sig, p + ".in_proj_weight"@, x.in_proj_weight@, y.in_proj_weight@, exact);
    lemma_vector(a, m, sig, p + ".in_proj_bias"@, x.in_proj_bias@, y.in_proj_bias@, exact);
    lemma_vector(
        a,
        m,
        sig,
        p + ".out_proj"@ + ".weight"@,
        x.out_proj_weight@,
        y.out_proj_weight@,
        exact,
    );
    lemma_vector(a, m, sig, p + ".out_proj.bias"@, x.out_proj_bias@, y.out_proj_bias@, exact);
}

/// What is loaded from the same weights is alike.
proof fn lemma_self_attn<A: Arith>(
    a: &A,
    m: loading::Weights,
    sig: Seq<char>,
    p: Seq<char>,
    d_model: usize,
    x: SelfAttnLayer<A::T>,
    y: SelfAttnLayer<A::T>,
    exact: bool,
)
    requires
        exact ==> decodes_once(a),
        loading::is_self_attn(a, m, sig, p, d_model, x),
        loading::is_self_attn(a, m, sig, p, d_model, y),
    ensures
        same_self_attn(x, y, exact),
{
    reveal(loading::is_self_attn);
    reveal(same_self_attn);
    lemma_layer_norm(a, m, sig, p + ".norm1"@, x.norm1, y.norm1, exact);
    lemma_layer_norm(a, m, sig, p + ".norm2"@, x.norm2, y.norm2, exact);
    lemma_mha(a, m, sig, p + ".self_attn"@, d_model, x.attn, y.attn, exact);
    lemma_scale(a, m, sig, p + ".gamma_1"@, x.gamma_1, y.gamma_1, exact);
    lemma_weight2d(a, m, sig, p + ".linear1"@, x.linear1, y.linear1, exact);
    lemma_vector(a, m, sig, p + ".linear1.bias"@, x.linear1_bias@, y.linear1_bias@, exact);
    lemma_weight2d(a, m, sig, p + ".linear2"@, x.linear2, y.linear2, exact);
    lemma_vector(a, m, sig, p + ".linear2.bias"@, x.linear2_bias@, y.linear2_bias@, exact);
    lemma_scale(a, m, sig, p + ".gamma_2"@, x.gamma_2, y.gamma_2, exact);
    lemma_group_norm(a, m, sig, p + ".norm_out"@, x.norm_out, y.norm_out, exact);
}

/// What is loaded from the same weights is alike.
proof fn lemma_cross_attn<A: Arith>(
    a: &A,
    m: loading::Weights,
    sig: Seq<char>,
    p: Seq<char>,
    d_model: usize,
    x: CrossAttnLayer<A::T>,
    y: CrossAttnLayer<A::T>,
    exact: bool,
)
    requires
        exact ==> decodes_once(a),
        loading::is_cross_attn(a, m, sig, p, d_model, x),
        loading::is_cross_attn(a, m, sig, p, d_model, y),
    ensures
        same_cross_attn(x, y, exact),
{
    reveal(loading::is_cross_attn);
    reveal(same_cross_attn);
    lemma_layer_norm(a, m, sig, p + ".norm1"@, x.norm1, y.norm1, exact);
    lemma_layer_norm(a, m, sig, p + ".norm2"@, x.norm2, y.norm2, exact);
    lemma_layer_norm(a, m, sig, p + ".norm3"@, x.norm3, y.norm3, exact);
    lemma_mha(a, m, sig, p + ".cross_attn"@, d_model, x.attn, y.attn, exact);
    lemma_scale(a, m, sig, p + ".gamma_1"@, x.gamma_1, y.gamma_1, exact);
    lemma_weight2d(a, m, sig, p + ".linear1"@, x.linear1, y.linear1, exact);
    lemma_vector(a, m, sig, p + ".linear1.bias"@, x.linear1_bias@, y.linear1_bias@, exact);
    lemma_weight2d(a, m, sig, p + ".linear2"@, x.linear2, y.linear2, exact);
    lemma_vector(a, m, sig, p + ".linear2.bias"@, x.linear2_bias@, y.linear2_bias@, exact);
    lemma_scale(a, m, sig, p + ".gamma_2"@, x.gamma_2, y.gamma_2, exact);
    lemma_group_norm(a, m, sig, p + ".norm_out"@, x.norm_out, y.norm_out, exact);
}

/// What is loaded from the same weights is alike.
proof fn lemma_transformer_layer<A: Arith>(
    a: &A,
    m: loading::Weights,
    sig: Seq<char>,
    p: Seq<char>,
    d_model: usize,
    x: TransformerLayerWeights<A::T>,
    y: TransformerLayerWeights<A::T>,
    exact: bool,
)
    requires
        exact ==> decodes_once(a),
        loading::is_transformer_layer(a, m, sig, p, d_model, x),
        loading::is_transformer_layer(a, m, sig, p, d_model, y),
    ensures
        same_transformer_layer(x, y, exact),
{
    reveal(loading::is_transformer_layer);
    reveal(same_transformer_layer);
    if x.self_attn is Some {
        lemma_self_attn(a, m, sig, p, d_model, x.self_attn->0, y.self_attn->0, exact);
    } else {
        lemma_cross_attn(a, m, sig, p, d_model, x.cross_attn->0, y.cross_attn->0, exact);
    }
}

/// What is loaded from the same weights is alike.
proof fn lemma_transformer_layers<A: Arith>(
    a: &A,
    m: loading::Weights,
    sig: Seq<char>,
    p: Seq<char>,
    d_model: usize,
    x: Seq<TransformerLayerWeights<A::T>>,
    y: Seq<TransformerLayerWeights<A::T>>,
    exact: bool,
)
    requires
        exact ==> decodes_once(a),
        loading::are_transformer_layers(a, m, sig, p, d_model, x),
        loading::are_transformer_layers(a, m, sig, p, d_model, y),
    ensures
        same_transformer_layers(x, y, exact),
{
    reveal(loading::are_transformer_layers);
    assert forall|i: int| 0 <= i < x.len() implies same_transformer_layer(
        #[trigger] x[i],
        y[i],
        exact,
    ) by {
        lemma_transformer_layer(a, m, sig, loading::numbered(p, i), d_model, x[i], y[i], exact);
    }
}

/// What is loaded from the same weights is alike.
proof fn lemma_resampler<A: Arith>(
    a: &A,
    m: loading::Weights,
    sig: Seq<char>,
    p: Seq<char>,
    present: bool,
    x: Option<Conv1dWeight<A::T>>,
    xb: Option<Vec<A::T>>,
    y: Option<Conv1dWeight<A::T>>,
    yb: Option<Vec<A::T>>,
    exact: bool,
)
    requires
        exact ==> decodes_once(a),
        loading::is_resampler(a, m, sig, p, present, x, xb),
        loading::is_resampler(a, m, sig, p, present, y, yb),
    ensures
        x is Some <==> y is Some,
        xb is Some <==> yb is Some,
        x is Some ==> same_conv1d(x->0, y->0, exact),
        xb is Some ==> same_numbers(xb->0@, yb->0@, exact),
{
    reveal(loading::is_resampler);
    if present {
        lemma_conv1d(a, m, sig, p, x->0, y->0, exact);
        lemma_vector(a, m, sig, p + ".bias"@, xb->0@, yb->0@, exact);
    }
}

/// What is loaded from the same weights is alike.
proof fn lemma_transformer<A: Arith>(
    a: &A,
    m: loading::Weights,
    sig: Seq<char>,
    bottleneck: usize,
    width: usize,
    x: CrossDomainTransformer<A::T>,
    y: CrossDomainTransformer<A::T>,
    exact: bool,
)
    requires
        exact ==> decodes_once(a),
        loading::is_cross_domain(a, m, sig, bottleneck, width, x),
        loading::is_cross_domain(a, m, sig, bottleneck, width, y),
    ensures
        same_transformer(x, y, exact),
{
    reveal(loading::is_cross_domain);
    reveal(same_transformer);
    let present = bottleneck != width;
    lemma_resampler(
        a,
        m,
        sig,
        "channel_upsampler"@,
        present,
        x.channel_upsampler,
        x.channel_upsampler_bias,
        y.channel_upsampler,
        y.channel_upsampler_bias,
        exact,
    );
    lemma_resampler(
        a,
        m,
        sig,
        "channel_downsampler"@,
        present,
        x.channel_downsampler,
        x.channel_downsampler_bias,
        y.channel_downsampler,
        y.channel_downsampler_bias,
        exact,
    );
    lemma_resampler(
        a,
        m,
        sig,
        "channel_upsampler_t"@,
        present,
        x.channel_upsampler_t,
        x.channel_upsampler_t_bias,
        y.channel_upsampler_t,
        y.channel_upsampler_t_bias,
        exact,
    );
    lemma_resampler(
        a,
        m,
        sig,
        "channel_downsampler_t"@,
        present,
        x.channel_downsampler_t,
        x.channel_downsampler_t_bias,
        y.channel_downsampler_t,
        y.channel_downsampler_t_bias,
        exact,
    );
    lemma_layer_norm(a, m, sig, "crosstransformer.norm_in"@, x.norm_in, y.norm_in, exact);
    lemma_layer_norm(a, m, sig, "crosstransformer.norm_in_t"@, x.norm_in_t, y.norm_in_t, exact);
    lemma_transformer_layers(
        a,
        m,
        sig,
        "crosstransformer.layers"@,
        width,
        x.layers@,
        y.layers@,
        exact,
    );
    lemma_transformer_layers(
        a,
        m,
        sig,
        "crosstransformer.layers_t"@,
        width,
        x.layers_t@,
        y.layers_t@,
        exact,
    );
}

/// What is loaded from the same weights is alike.
proof fn lemma_emb<A: Arith>(
    a: &A,
    m: loading::Weights,
    sig: Seq<char>,
    x: FreqEmb<A::T>,
    y: FreqEmb<A::T>,
    exact: bool,
)
    requires
        exact ==> decodes_once(a),
        loading::is_freq_emb(a, m, sig, x),
        loading::is_freq_emb(a, m, sig, y),
    ensures
        same_emb(x, y, exact),
{
    reveal(loading::is_freq_emb);
    let t = m[(sig, "freq_emb.embedding.weight"@)];
    if exact {
        assert forall|i: int| 0 <= i < x.data@.len() implies x.data@[i] == y.data@[i] by {
            assert(loading::is_tenfold_element(a, t, i, x.data@[i]));
            assert(loading::is_tenfold_element(a, t, i, y.data@[i]));
            assert forall|u: A::T, v: A::T| #[trigger]
                raw_tensor::is_element(a, t, i, u) && #[trigger] raw_tensor::is_element(
                    a,
                    t,
                    i,
                    v,
                ) implies u == v by {}
        }
        assert(x.data@ =~= y.data@);
    }
}

/// What a store holds determines the model that is loaded from it: all sizes, and, where decoding
/// is determined, all numbers.
pub proof fn weights_determine_models<A: Arith>(
    a: &A,
    m: loading::Weights,
    sig: Seq<char>,
    n_sources: usize,
    width: usize,
    x: HTDemucs<A::T>,
    y: HTDemucs<A::T>,
    exact: bool,
)
    requires
        exact ==> decodes_once(a),
        loading::is_htdemucs(a, m, sig, n_sources, width, x),
        loading::is_htdemucs(a, m, sig, n_sources, width, y),
    ensures
        same_model(x, y, exact),
{
    reveal(loading::is_htdemucs);
    reveal(same_model);
    lemma_transformer(
        a,
        m,
        sig,
        loading::BOTTLENECK,
        width,
        x.crosstransformer,
        y.crosstransformer,
        exact,
    );
    lemma_emb(a, m, sig, x.freq_emb, y.freq_emb, exact);
    reveal(loading::are_encoders);
    reveal(loading::are_decoders);
    assert forall|i: int| 0 <= i < x.encoders@.len() implies same_henc(
        #[trigger] x.encoders@[i],
        y.encoders@[i],
        exact,
    ) by {
        lemma_henc(
            a,
            m,
            sig,
            loading::numbered("encoder"@, i),
            x.encoders@[i],
            y.encoders@[i],
            exact,
        );
    }
    assert forall|i: int| 0 <= i < x.tencoders@.len() implies same_tenc(
        #[trigger] x.tencoders@[i],
        y.tencoders@[i],
        exact,
    ) by {
        lemma_tenc(
            a,
            m,
            sig,
            loading::numbered("tencoder"@, i),
            x.tencoders@[i],
            y.tencoders@[i],
            exact,
        );
    }
    assert forall|i: int| 0 <= i < x.decoders@.len() implies same_hdec(
        #[trigger] x.decoders@[i],
        y.decoders@[i],
        exact,
    ) by {
        lemma_hdec(
            a,
            m,
            sig,
            loading::numbered("decoder"@, i),
            i + 1 == DEPTH,
            x.decoders@[i],
            y.decoders@[i],
            exact,
        );
    }
    assert forall|i: int| 0 <= i < x.tdecoders@.len() implies same_tdec(
        #[trigger] x.tdecoders@[i],
        y.tdecoders@[i],
        exact,
    ) by {
        lemma_tdec(
            a,
            m,
            sig,
            loading::numbered("tdecoder"@, i),
            i + 1 == DEPTH,
            x.tdecoders@[i],
            y.tdecoders@[i],
            exact,
        );
    }
}

/// Lists that are alike have the same error.
proof fn lemma_dconv_layers_error<T>(
    x: Seq<DConvLayer<T>>,
    y: Seq<DConvLayer<T>>,
    exact: bool,
    i: int,
)
    requires
        same_dconv_layers(x, y, exact),
        0 <= i,
    ensures
        gpu_loading::dconv_layers_error_from(x, i) == gpu_loading::dconv_layers_error_from(y, i),
    decreases x.len() - i,
{
    if i < x.len() {
        assert(same_dconv_layer(x[i], y[i], exact));
        reveal(same_dconv_layer);
        lemma_dconv_layers_error(x, y, exact, i + 1);
    }
}

/// Lists that are alike have the same error.
proof fn lemma_hencs_error<T>(x: Seq<HEncLayer<T>>, y: Seq<HEncLayer<T>>, exact: bool, i: int)
    requires
        same_hencs(x, y, exact),
        0 <= i,
    ensures
        gpu_loading::hencs_error_from(x, i) == gpu_loading::hencs_error_from(y, i),
    decreases x.len() - i,
{
    if i < x.len() {
        assert(same_henc(x[i], y[i], exact));
        reveal(same_henc);
        reveal(same_dconv);
        lemma_dconv_layers_error(x[i].dconv.layers@, y[i].dconv.layers@, exact, 0);
        lemma_hencs_error(x, y, exact, i + 1);
    }
}

/// Lists that are alike have the same error.
proof fn lemma_tencs_error<T>(x: Seq<TEncLayer<T>>, y: Seq<TEncLayer<T>>, exact: bool, i: int)
    requires
        same_tencs(x, y, exact),
        0 <= i,
    ensures
        gpu_loading::tencs_error_from(x, i) == gpu_loading::tencs_error_from(y, i),
    decreases x.len() - i,
{
    if i < x.len() {
        assert(same_tenc(x[i], y[i], exact));
        reveal(same_tenc);
        reveal(same_dconv);
        lemma_dconv_layers_error(x[i].dconv.layers@, y[i].dconv.layers@, exact, 0);
        lemma_tencs_error(x, y, exact, i + 1);
    }
}

/// Lists that are alike have the same error.
proof fn lemma_hdecs_error<T>(x: Seq<HDecLayer<T>>, y: Seq<HDecLayer<T>>, exact: bool, i: int)
    requires
        same_hdecs(x, y, exact),
        0 <= i,
    ensures
        gpu_loading::hdecs_error_from(x, i) == gpu_loading::hdecs_error_from(y, i),
    decreases x.len() - i,
{
    if i < x.len() {
        assert(same_hdec(x[i], y[i], exact));
        reveal(same_hdec);
        reveal(same_dconv);
        lemma_dconv_layers_error(x[i].dconv.layers@, y[i].dconv.layers@, exact, 0);
        lemma_hdecs_error(x, y, exact, i + 1);
    }
}

/// Lists that are alike have the same error.
proof fn lemma_tdecs_error<T>(x: Seq<TDecLayer<T>>, y: Seq<TDecLayer<T>>, exact: bool, i: int)
    requires
        same_tdecs(x, y, exact),
        0 <= i,
    ensures
        gpu_loading::tdecs_error_from(x, i) == gpu_loading::tdecs_error_from(y, i),
    decreases x.len() - i,
{
    if i < x.len() {
        assert(same_tdec(x[i], y[i], exact));
        reveal(same_tdec);
        reveal(same_dconv);
        lemma_dconv_layers_error(x[i].dconv.layers@, y[i].dconv.layers@, exact, 0);
        lemma_tdecs_error(x, y, exact, i + 1);
    }
}

/// Lists that are alike have the same error.
proof fn lemma_transformer_layers_error<T>(
    x: Seq<TransformerLayerWeights<T>>,
    y: Seq<TransformerLayerWeights<T>>,
    exact: bool,
    i: int,
)
    requires
        same_transformer_layers(x, y, exact),
        0 <= i,
    ensures
        gpu_loading::transformer_layers_error_from(x, i)
            == gpu_loading::transformer_layers_error_from(y, i),
    decreases x.len() - i,
{
    if i < x.len() {
        assert(same_transformer_layer(x[i], y[i], exact));
        reveal(same_transformer_layer);
        reveal(same_self_attn);
        reveal(same_cross_attn);
        reveal(same_mha);
        lemma_transformer_layers_error(x, y, exact, i + 1);
    }
}

/// Models that are alike come to the device alike, or fail to for the same reason.
pub proof fn same_models_same_error<T>(x: HTDemucs<T>, y: HTDemucs<T>, exact: bool)
    requires
        same_model(x, y, exact),
    ensures
        gpu_loading::model_error(x) == gpu_loading::model_error(y),
{
    reveal(same_model);
    reveal(same_transformer);
    lemma_hencs_error(x.encoders@, y.encoders@, exact, 0);
    lemma_tencs_error(x.tencoders@, y.tencoders@, exact, 0);
    lemma_hdecs_error(x.decoders@, y.decoders@, exact, 0);
    lemma_tdecs_error(x.tdecoders@, y.tdecoders@, exact, 0);
    let (p, q) = (x.crosstransformer, y.crosstransformer);
    lemma_transformer_layers_error(p.layers@, q.layers@, exact, 0);
    lemma_transformer_layers_error(p.layers_t@, q.layers_t@, exact, 0);
}

} // verus!
