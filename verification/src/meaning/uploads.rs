//! The uploads of a model put its parameters on the device.
use vstd::prelude::*;
use crate::gpu_loading;
use crate::gpu_loading::Tail;
use crate::gpu_model::GpuBias;
use crate::gpu_model::GpuConv1dWeight;
use crate::gpu_model::GpuCrossDomainTransformer;
use crate::gpu_model::GpuDConv;
use crate::gpu_model::GpuHDecLayer;
use crate::gpu_model::GpuHEncLayer;
use crate::gpu_model::GpuHTDemucs;
use crate::gpu_model::GpuTDecLayer;
use crate::gpu_model::GpuTEncLayer;
use crate::gpu_model::GpuTransformerLayerWeights;
use crate::meaning::matmul;
use crate::meaning::weights;
use crate::model::Bias;
use crate::model::Conv1dWeight;
use crate::model::Conv2dWeight;
use crate::model::CrossAttnLayer;
use crate::model::CrossDomainTransformer;
use crate::model::DConv;
use crate::model::DConvLayer;
use crate::model::GroupNorm1;
use crate::model::HDecLayer;
use crate::model::HEncLayer;
use crate::model::HTDemucs;
use crate::model::LayerNorm1;
use crate::model::LayerScale;
use crate::model::MhaWeights;
use crate::model::SelfAttnLayer;
use crate::model::TDecLayer;
use crate::model::TEncLayer;
use crate::model::TransformerLayerWeights;
use crate::model::Weight2D;
use crate::ops_cpu::attention;

verus! {

/// The arrays that went to the device are the first of the values.
pub open spec fn agrees<T>(v: Seq<Seq<T>>, u: Seq<Seq<T>>) -> bool {
    forall|i: int| 0 <= i < u.len() ==> #[trigger] v[i] == u[i]
}

/// An array in a window.
proof fn lemma_held<T>(v: Seq<Seq<T>>, u: Seq<Seq<T>>, base: int, a: Seq<Seq<T>>, k: int)
    requires
        agrees(v, u),
        gpu_loading::window(u, base, a),
        0 <= k < a.len(),
    ensures
        v[(base + k) as usize as int] == a[k],
{
    reveal(gpu_loading::window);
    assert(a[k] == u[base + k]);
}

/// A matrix and what transposing makes of it.
proof fn lemma_is_turned<T>(x: Seq<T>, m: int, n: int)
    ensures
        matmul::is_turned(x, m, n, gpu_loading::transposed(x, m, n)),
{
    let y = gpu_loading::transposed(x, m, n);
    assert forall|i: int, j: int|
        #![trigger x[i * n + j]]
        #![trigger y[j * m + i]]
        0 <= i < m && 0 <= j < n implies x[i * n + j] == y[j * m + i] by {
        gpu_loading::transposed_element(x, m, n, i, j);
    }
}

/// The matrix of a linear layer is on the device.
proof fn lemma_weight2d_held<T>(l: Weight2D<T>, v: Seq<Seq<T>>, u: Seq<Seq<T>>, base: int)
    requires
        agrees(v, u),
        gpu_loading::window(u, base, gpu_loading::weight2d_arrays(l)),
    ensures
        weights::holds_linear(v, gpu_loading::weight2d_at(l, base), l),
{
    lemma_held(v, u, base, gpu_loading::weight2d_arrays(l), 0);
    lemma_is_turned(l.data@, l.rows as int, l.cols as int);
}

/// A 1D kernel is on the device.
proof fn lemma_conv1d_held<T>(l: Conv1dWeight<T>, v: Seq<Seq<T>>, u: Seq<Seq<T>>, base: int)
    requires
        agrees(v, u),
        gpu_loading::window(u, base, gpu_loading::conv1d_arrays(l)),
        gpu_loading::conv1d_error(l) is None,
    ensures
        weights::holds_conv1d(v, gpu_loading::conv1d_at(l, base), l),
{
    lemma_held(v, u, base, gpu_loading::conv1d_arrays(l), 0);
    lemma_is_turned(l.data@, l.out_ch as int, l.in_ch * l.k);
}

/// A 2D kernel is on the device.
proof fn lemma_conv2d_held<T>(l: Conv2dWeight<T>, v: Seq<Seq<T>>, u: Seq<Seq<T>>, base: int)
    requires
        agrees(v, u),
        gpu_loading::window(u, base, gpu_loading::conv2d_arrays(l)),
        gpu_loading::conv2d_error(l) is None,
    ensures
        weights::holds_conv2d(v, gpu_loading::conv2d_at(l, base), l),
{
    lemma_held(v, u, base, gpu_loading::conv2d_arrays(l), 0);
    lemma_is_turned(l.data@, l.out_ch as int, l.in_ch * l.kh * l.kw);
}

/// The kernel of a transposed 1D convolution is on the device.
proof fn lemma_conv_tr1d_held<T>(l: Conv1dWeight<T>, v: Seq<Seq<T>>, u: Seq<Seq<T>>, base: int)
    requires
        agrees(v, u),
        gpu_loading::window(u, base, gpu_loading::conv_tr1d_arrays(l)),
    ensures
        weights::holds_conv_tr1d(v, gpu_loading::conv_tr1d_at(l, base), l),
{
    lemma_held(v, u, base, gpu_loading::conv_tr1d_arrays(l), 0);
}

/// The kernel of a transposed 2D convolution is on the device.
proof fn lemma_conv_tr2d_held<T>(l: Conv2dWeight<T>, v: Seq<Seq<T>>, u: Seq<Seq<T>>, base: int)
    requires
        agrees(v, u),
        gpu_loading::window(u, base, gpu_loading::conv_tr2d_arrays(l)),
    ensures
        weights::holds_conv_tr2d(v, gpu_loading::conv_tr2d_at(l, base), l),
{
    lemma_held(v, u, base, gpu_loading::conv_tr2d_arrays(l), 0);
}

/// A bias is on the device.
proof fn lemma_bias_held<T>(l: Bias<T>, v: Seq<Seq<T>>, u: Seq<Seq<T>>, base: int)
    requires
        agrees(v, u),
        gpu_loading::window(u, base, gpu_loading::bias_arrays(l)),
    ensures
        weights::holds_bias(v, gpu_loading::bias_at(l, base), l.data@),
{
    lemma_held(v, u, base, gpu_loading::bias_arrays(l), 0);
}

/// A layer normalization is on the device.
proof fn lemma_layer_norm_held<T>(l: LayerNorm1<T>, v: Seq<Seq<T>>, u: Seq<Seq<T>>, base: int)
    requires
        agrees(v, u),
        gpu_loading::window(u, base, gpu_loading::layer_norm_arrays(l)),
    ensures
        weights::holds_layer_norm(v, gpu_loading::layer_norm_at(l, base), l),
{
    lemma_held(v, u, base, gpu_loading::layer_norm_arrays(l), 0);
    lemma_held(v, u, base, gpu_loading::layer_norm_arrays(l), 1);
}

/// A group normalization is on the device.
proof fn lemma_group_norm_held<T>(l: GroupNorm1<T>, v: Seq<Seq<T>>, u: Seq<Seq<T>>, base: int)
    requires
        agrees(v, u),
        gpu_loading::window(u, base, gpu_loading::group_norm_arrays(l)),
    ensures
        weights::holds_group_norm(v, gpu_loading::group_norm_at(l, base), l),
{
    lemma_held(v, u, base, gpu_loading::group_norm_arrays(l), 0);
    lemma_held(v, u, base, gpu_loading::group_norm_arrays(l), 1);
}

/// A scale is on the device.
proof fn lemma_scale_held<T>(l: LayerScale<T>, v: Seq<Seq<T>>, u: Seq<Seq<T>>, base: int)
    requires
        agrees(v, u),
        gpu_loading::window(u, base, gpu_loading::scale_arrays(l)),
    ensures
        v[gpu_loading::scale_at(l, base).scale.id as int] == l.scale@,
{
    lemma_held(v, u, base, gpu_loading::scale_arrays(l), 0);
}

/// The weights of attention are on the device.
proof fn lemma_mha_held<T>(m: MhaWeights<T>, v: Seq<Seq<T>>, u: Seq<Seq<T>>, base: int)
    requires
        agrees(v, u),
        gpu_loading::window(u, base, gpu_loading::mha_arrays(m)),
    ensures
        weights::holds_mha(v, gpu_loading::mha_at(m, base), m),
{
    reveal(gpu_loading::mha_arrays);
    reveal(gpu_loading::mha_at);
    reveal(weights::holds_mha);
    let d = m.d_model as int;
    let a = gpu_loading::mha_arrays(m);
    lemma_held(v, u, base, a, 0);
    lemma_held(v, u, base, a, 1);
    lemma_held(v, u, base, a, 2);
    lemma_held(v, u, base, a, 3);
    lemma_held(v, u, base, a, 4);
    lemma_held(v, u, base, a, 5);
    lemma_held(v, u, base, a, 6);
    lemma_held(v, u, base, a, 7);
    assert(0 * d * d == 0 * (d * d) && (0 + 1) * d * d == (0 + 1) * (d * d)) by (nonlinear_arith);
    assert(gpu_loading::projection(m, 0) == attention::projection(m.in_proj_weight@, d, 0));
    lemma_is_turned(gpu_loading::projection(m, 0), d, d);
    assert(1 * d * d == 1 * (d * d) && (1 + 1) * d * d == (1 + 1) * (d * d)) by (nonlinear_arith);
    assert(gpu_loading::projection(m, 1) == attention::projection(m.in_proj_weight@, d, 1));
    lemma_is_turned(gpu_loading::projection(m, 1), d, d);
    assert(2 * d * d == 2 * (d * d) && (2 + 1) * d * d == (2 + 1) * (d * d)) by (nonlinear_arith);
    assert(gpu_loading::projection(m, 2) == attention::projection(m.in_proj_weight@, d, 2));
    lemma_is_turned(gpu_loading::projection(m, 2), d, d);
    lemma_is_turned(m.out_proj_weight@, d, d);
}

/// The part of a transformer layer after the attention is on the device.
proof fn lemma_tail_held<'a, T>(l: Tail<'a, T>, v: Seq<Seq<T>>, u: Seq<Seq<T>>, base: int)
    requires
        agrees(v, u),
        gpu_loading::window(u, base, gpu_loading::tail_arrays(l)),
        gpu_loading::tail_error(l) is None,
    ensures
        ({
            let t = gpu_loading::tail_at(l, base);
            &&& weights::holds_layer_norm(v, t.norm, *l.norm)
            &&& weights::holds_linear(v, t.linear1, *l.linear1)
            &&& weights::holds_bias(v, t.linear1_bias, l.linear1_bias@)
            &&& weights::holds_linear(v, t.linear2, *l.linear2)
            &&& weights::holds_bias(v, t.linear2_bias, l.linear2_bias@)
            &&& v[t.gamma.scale.id as int] == l.gamma.scale@
            &&& weights::holds_group_norm(v, t.norm_out, *l.norm_out)
        }),
{
    reveal(gpu_loading::tail_arrays);
    reveal(gpu_loading::tail_at);
    let a1 = gpu_loading::layer_norm_arrays(*l.norm);
    let a2 = gpu_loading::weight2d_arrays(*l.linear1);
    let a3 = seq![l.linear1_bias@];
    let a4 = gpu_loading::weight2d_arrays(*l.linear2);
    let a5 = seq![l.linear2_bias@];
    let a6 = gpu_loading::scale_arrays(*l.gamma);
    let a7 = gpu_loading::group_norm_arrays(*l.norm_out);
    gpu_loading::lemma_parts(u, base, a1 + a2 + a3 + a4 + a5 + a6, a7);
    gpu_loading::lemma_parts(u, base, a1 + a2 + a3 + a4 + a5, a6);
    gpu_loading::lemma_parts(u, base, a1 + a2 + a3 + a4, a5);
    gpu_loading::lemma_parts(u, base, a1 + a2 + a3, a4);
    gpu_loading::lemma_parts(u, base, a1 + a2, a3);
    gpu_loading::lemma_parts(u, base, a1, a2);
    lemma_layer_norm_held(*l.norm, v, u, base + 0);
    lemma_weight2d_held(*l.linear1, v, u, base + 2);
    lemma_held(v, u, base + 3, a3, 0);
    lemma_weight2d_held(*l.linear2, v, u, base + 4);
    lemma_held(v, u, base + 5, a5, 0);
    lemma_scale_held(*l.gamma, v, u, base + 6);
    lemma_group_norm_held(*l.norm_out, v, u, base + 7);
}

/// A layer of self-attention is on the device.
proof fn lemma_self_attn_held<T>(l: SelfAttnLayer<T>, v: Seq<Seq<T>>, u: Seq<Seq<T>>, base: int)
    requires
        agrees(v, u),
        gpu_loading::window(u, base, gpu_loading::self_attn_arrays(l)),
        gpu_loading::self_attn_error(l) is None,
    ensures
        weights::holds_self_attn(v, gpu_loading::self_attn_at(l, base), l),
{
    reveal(gpu_loading::self_attn_arrays);
    reveal(gpu_loading::self_attn_at);
    reveal(weights::holds_self_attn);
    gpu_loading::lemma_mha_arrays(l.attn);
    let a1 = gpu_loading::layer_norm_arrays(l.norm1);
    let a2 = gpu_loading::mha_arrays(l.attn);
    let a3 = gpu_loading::scale_arrays(l.gamma_1);
    let a4 = gpu_loading::tail_arrays(gpu_loading::self_attn_tail(l));
    gpu_loading::lemma_parts(u, base, a1 + a2 + a3, a4);
    gpu_loading::lemma_parts(u, base, a1 + a2, a3);
    gpu_loading::lemma_parts(u, base, a1, a2);
    lemma_layer_norm_held(l.norm1, v, u, base + 0);
    lemma_mha_held(l.attn, v, u, base + 2);
    lemma_scale_held(l.gamma_1, v, u, base + 10);
    lemma_tail_held(gpu_loading::self_attn_tail(l), v, u, base + 11);
}

/// A layer of cross-attention is on the device.
proof fn lemma_cross_attn_held<T>(l: CrossAttnLayer<T>, v: Seq<Seq<T>>, u: Seq<Seq<T>>, base: int)
    requires
        agrees(v, u),
        gpu_loading::window(u, base, gpu_loading::cross_attn_arrays(l)),
        gpu_loading::cross_attn_error(l) is None,
    ensures
        weights::holds_cross_attn(v, gpu_loading::cross_attn_at(l, base), l),
{
    reveal(gpu_loading::cross_attn_arrays);
    reveal(gpu_loading::cross_attn_at);
    reveal(weights::holds_cross_attn);
    gpu_loading::lemma_mha_arrays(l.attn);
    let a1 = gpu_loading::layer_norm_arrays(l.norm1);
    let a2 = gpu_loading::layer_norm_arrays(l.norm2);
    let a3 = gpu_loading::mha_arrays(l.attn);
    let a4 = gpu_loading::scale_arrays(l.gamma_1);
    let a5 = gpu_loading::tail_arrays(gpu_loading::cross_attn_tail(l));
    gpu_loading::lemma_parts(u, base, a1 + a2 + a3 + a4, a5);
    gpu_loading::lemma_parts(u, base, a1 + a2 + a3, a4);
    gpu_loading::lemma_parts(u, base, a1 + a2, a3);
    gpu_loading::lemma_parts(u, base, a1, a2);
    lemma_layer_norm_held(l.norm1, v, u, base + 0);
    lemma_layer_norm_held(l.norm2, v, u, base + 2);
    lemma_mha_held(l.attn, v, u, base + 4);
    lemma_scale_held(l.gamma_1, v, u, base + 12);
    lemma_tail_held(gpu_loading::cross_attn_tail(l), v, u, base + 13);
}

/// A residual layer is on the device.
proof fn lemma_dconv_layer_held<T>(l: DConvLayer<T>, v: Seq<Seq<T>>, u: Seq<Seq<T>>, base: int)
    requires
        agrees(v, u),
        gpu_loading::window(u, base, gpu_loading::dconv_layer_arrays(l)),
        gpu_loading::dconv_layer_error(l) is None,
    ensures
        weights::holds_dconv_layer(v, gpu_loading::dconv_layer_at(l, base), l),
{
    reveal(gpu_loading::dconv_layer_arrays);
    reveal(gpu_loading::dconv_layer_at);
    reveal(weights::holds_dconv_layer);
    let a1 = gpu_loading::conv1d_arrays(l.conv1);
    let a2 = gpu_loading::bias_arrays(l.conv1_bias);
    let a3 = gpu_loading::group_norm_arrays(l.norm1);
    let a4 = gpu_loading::conv1d_arrays(l.conv2);
    let a5 = gpu_loading::bias_arrays(l.conv2_bias);
    let a6 = gpu_loading::group_norm_arrays(l.norm2);
    let a7 = gpu_loading::scale_arrays(l.scale);
    gpu_loading::lemma_parts(u, base, a1 + a2 + a3 + a4 + a5 + a6, a7);
    gpu_loading::lemma_parts(u, base, a1 + a2 + a3 + a4 + a5, a6);
    gpu_loading::lemma_parts(u, base, a1 + a2 + a3 + a4, a5);
    gpu_loading::lemma_parts(u, base, a1 + a2 + a3, a4);
    gpu_loading::lemma_parts(u, base, a1 + a2, a3);
    gpu_loading::lemma_parts(u, base, a1, a2);
    lemma_conv1d_held(l.conv1, v, u, base + 0);
    lemma_bias_held(l.conv1_bias, v, u, base + 1);
    lemma_group_norm_held(l.norm1, v, u, base + 2);
    lemma_conv1d_held(l.conv2, v, u, base + 4);
    lemma_bias_held(l.conv2_bias, v, u, base + 5);
    lemma_group_norm_held(l.norm2, v, u, base + 6);
    lemma_scale_held(l.scale, v, u, base + 8);
}

/// A stack of residual layers is on the device.
proof fn lemma_dconv_held<T>(g: GpuDConv, l: DConv<T>, v: Seq<Seq<T>>, u: Seq<Seq<T>>, base: int)
    requires
        agrees(v, u),
        gpu_loading::window(u, base, gpu_loading::dconv_arrays(l)),
        gpu_loading::dconv_error(l) is None,
        gpu_loading::is_dconv_at(g, l, base),
    ensures
        weights::holds_dconv(v, g, l),
{
    reveal(gpu_loading::are_dconv_layers_at);
    reveal(weights::holds_dconv);
    let w = l.layers@;
    assert forall|j: int|
        #![trigger g.layers@[j]]
        #![trigger w[j]]
        0 <= j < w.len() implies weights::holds_dconv_layer(v, g.layers@[j], w[j]) by {
        gpu_loading::lemma_dconv_layers_error(w, 0, j);
        gpu_loading::lemma_dconv_layers_window(w, u, base, w.len() as int, j);
        lemma_dconv_layer_held(w[j], v, u, base + gpu_loading::dconv_layers_arrays(w, j).len());
        assert(g.layers@[j] == gpu_loading::dconv_layer_at(
            w[j],
            base + gpu_loading::dconv_layers_arrays(w, j).len(),
        ));
    }
}

/// A layer of the frequency encoder is on the device.
proof fn lemma_henc_held<T>(
    g: GpuHEncLayer,
    l: HEncLayer<T>,
    v: Seq<Seq<T>>,
    u: Seq<Seq<T>>,
    base: int,
)
    requires
        agrees(v, u),
        gpu_loading::window(u, base, gpu_loading::henc_arrays(l)),
        gpu_loading::henc_error(l) is None,
        gpu_loading::is_henc_at(g, l, base),
    ensures
        weights::holds_henc(v, g, l),
{
    reveal(gpu_loading::henc_arrays);
    reveal(gpu_loading::is_henc_at);
    reveal(weights::holds_henc);
    let a1 = gpu_loading::conv2d_arrays(l.conv);
    let a2 = gpu_loading::bias_arrays(l.conv_bias);
    let a3 = gpu_loading::dconv_arrays(l.dconv);
    let a4 = gpu_loading::conv2d_arrays(l.rewrite);
    let a5 = gpu_loading::bias_arrays(l.rewrite_bias);
    gpu_loading::lemma_parts(u, base, a1 + a2 + a3 + a4, a5);
    gpu_loading::lemma_parts(u, base, a1 + a2 + a3, a4);
    gpu_loading::lemma_parts(u, base, a1 + a2, a3);
    gpu_loading::lemma_parts(u, base, a1, a2);
    lemma_conv2d_held(l.conv, v, u, base + 0);
    lemma_bias_held(l.conv_bias, v, u, base + 1);
    lemma_dconv_held(g.dconv, l.dconv, v, u, base + 2);
    lemma_conv2d_held(l.rewrite, v, u, base + 2 + gpu_loading::dconv_arrays(l.dconv).len());
    lemma_bias_held(l.rewrite_bias, v, u, base + 3 + gpu_loading::dconv_arrays(l.dconv).len());
}

/// A layer of the time encoder is on the device.
proof fn lemma_tenc_held<T>(
    g: GpuTEncLayer,
    l: TEncLayer<T>,
    v: Seq<Seq<T>>,
    u: Seq<Seq<T>>,
    base: int,
)
    requires
        agrees(v, u),
        gpu_loading::window(u, base, gpu_loading::tenc_arrays(l)),
        gpu_loading::tenc_error(l) is None,
        gpu_loading::is_tenc_at(g, l, base),
    ensures
        weights::holds_tenc(v, g, l),
{
    reveal(gpu_loading::tenc_arrays);
    reveal(gpu_loading::is_tenc_at);
    reveal(weights::holds_tenc);
    let a1 = gpu_loading::conv1d_arrays(l.conv);
    let a2 = gpu_loading::bias_arrays(l.conv_bias);
    let a3 = gpu_loading::dconv_arrays(l.dconv);
    let a4 = gpu_loading::conv1d_arrays(l.rewrite);
    let a5 = gpu_loading::bias_arrays(l.rewrite_bias);
    gpu_loading::lemma_parts(u, base, a1 + a2 + a3 + a4, a5);
    gpu_loading::lemma_parts(u, base, a1 + a2 + a3, a4);
    gpu_loading::lemma_parts(u, base, a1 + a2, a3);
    gpu_loading::lemma_parts(u, base, a1, a2);
    lemma_conv1d_held(l.conv, v, u, base + 0);
    lemma_bias_held(l.conv_bias, v, u, base + 1);
    lemma_dconv_held(g.dconv, l.dconv, v, u, base + 2);
    lemma_conv1d_held(l.rewrite, v, u, base + 2 + gpu_loading::dconv_arrays(l.dconv).len());
    lemma_bias_held(l.rewrite_bias, v, u, base + 3 + gpu_loading::dconv_arrays(l.dconv).len());
}

/// A layer of the frequency decoder is on the device.
proof fn lemma_hdec_held<T>(
    g: GpuHDecLayer,
    l: HDecLayer<T>,
    v: Seq<Seq<T>>,
    u: Seq<Seq<T>>,
    base: int,
)
    requires
        agrees(v, u),
        gpu_loading::window(u, base, gpu_loading::hdec_arrays(l)),
        gpu_loading::hdec_error(l) is None,
        gpu_loading::is_hdec_at(g, l, base),
    ensures
        weights::holds_hdec(v, g, l),
{
    reveal(gpu_loading::hdec_arrays);
    reveal(gpu_loading::is_hdec_at);
    reveal(weights::holds_hdec);
    let a1 = gpu_loading::conv2d_arrays(l.rewrite);
    let a2 = gpu_loading::bias_arrays(l.rewrite_bias);
    let a3 = gpu_loading::dconv_arrays(l.dconv);
    let a4 = gpu_loading::conv_tr2d_arrays(l.conv_tr);
    let a5 = gpu_loading::bias_arrays(l.conv_tr_bias);
    gpu_loading::lemma_parts(u, base, a1 + a2 + a3 + a4, a5);
    gpu_loading::lemma_parts(u, base, a1 + a2 + a3, a4);
    gpu_loading::lemma_parts(u, base, a1 + a2, a3);
    gpu_loading::lemma_parts(u, base, a1, a2);
    lemma_conv2d_held(l.rewrite, v, u, base + 0);
    lemma_bias_held(l.rewrite_bias, v, u, base + 1);
    lemma_dconv_held(g.dconv, l.dconv, v, u, base + 2);
    lemma_conv_tr2d_held(l.conv_tr, v, u, base + 2 + gpu_loading::dconv_arrays(l.dconv).len());
    lemma_bias_held(l.conv_tr_bias, v, u, base + 3 + gpu_loading::dconv_arrays(l.dconv).len());
}

/// A layer of the time decoder is on the device.
proof fn lemma_tdec_held<T>(
    g: GpuTDecLayer,
    l: TDecLayer<T>,
    v: Seq<Seq<T>>,
    u: Seq<Seq<T>>,
    base: int,
)
    requires
        agrees(v, u),
        gpu_loading::window(u, base, gpu_loading::tdec_arrays(l)),
        gpu_loading::tdec_error(l) is None,
        gpu_loading::is_tdec_at(g, l, base),
    ensures
        weights::holds_tdec(v, g, l),
{
    reveal(gpu_loading::tdec_arrays);
    reveal(gpu_loading::is_tdec_at);
    reveal(weights::holds_tdec);
    let a1 = gpu_loading::conv1d_arrays(l.rewrite);
    let a2 = gpu_loading::bias_arrays(l.rewrite_bias);
    let a3 = gpu_loading::dconv_arrays(l.dconv);
    let a4 = gpu_loading::conv_tr1d_arrays(l.conv_tr);
    let a5 = gpu_loading::bias_arrays(l.conv_tr_bias);
    gpu_loading::lemma_parts(u, base, a1 + a2 + a3 + a4, a5);
    gpu_loading::lemma_parts(u, base, a1 + a2 + a3, a4);
    gpu_loading::lemma_parts(u, base, a1 + a2, a3);
    gpu_loading::lemma_parts(u, base, a1, a2);
    lemma_conv1d_held(l.rewrite, v, u, base + 0);
    lemma_bias_held(l.rewrite_bias, v, u, base + 1);
    lemma_dconv_held(g.dconv, l.dconv, v, u, base + 2);
    lemma_conv_tr1d_held(l.conv_tr, v, u, base + 2 + gpu_loading::dconv_arrays(l.dconv).len());
    lemma_bias_held(l.conv_tr_bias, v, u, base + 3 + gpu_loading::dconv_arrays(l.dconv).len());
}

/// The layers of the frequency encoder are on the device.
proof fn lemma_hencs_held<T>(
    g: Seq<GpuHEncLayer>,
    w: Seq<HEncLayer<T>>,
    v: Seq<Seq<T>>,
    u: Seq<Seq<T>>,
    base: int,
)
    requires
        agrees(v, u),
        gpu_loading::window(u, base, gpu_loading::hencs_arrays(w, w.len() as int)),
        gpu_loading::hencs_error_from(w, 0) is None,
        gpu_loading::are_hencs_at(g, w, base),
    ensures
        g.len() == w.len(),
        forall|j: int|
            #![trigger w[j]]
            0 <= j < w.len() ==> weights::holds_henc(v, g[j], w[j]),
{
    reveal(gpu_loading::are_hencs_at);
    assert forall|j: int|
        #![trigger w[j]]
        0 <= j < w.len() implies weights::holds_henc(v, g[j], w[j]) by {
        gpu_loading::lemma_hencs_error(w, 0, j);
        gpu_loading::lemma_hencs_window(w, u, base, w.len() as int, j);
        lemma_henc_held(g[j], w[j], v, u, base + gpu_loading::hencs_arrays(w, j).len());
    }
}

/// The layers of the time encoder are on the device.
proof fn lemma_tencs_held<T>(
    g: Seq<GpuTEncLayer>,
    w: Seq<TEncLayer<T>>,
    v: Seq<Seq<T>>,
    u: Seq<Seq<T>>,
    base: int,
)
    requires
        agrees(v, u),
        gpu_loading::window(u, base, gpu_loading::tencs_arrays(w, w.len() as int)),
        gpu_loading::tencs_error_from(w, 0) is None,
        gpu_loading::are_tencs_at(g, w, base),
    ensures
        g.len() == w.len(),
        forall|j: int|
            #![trigger w[j]]
            0 <= j < w.len() ==> weights::holds_tenc(v, g[j], w[j]),
{
    reveal(gpu_loading::are_tencs_at);
    assert forall|j: int|
        #![trigger w[j]]
        0 <= j < w.len() implies weights::holds_tenc(v, g[j], w[j]) by {
        gpu_loading::lemma_tencs_error(w, 0, j);
        gpu_loading::lemma_tencs_window(w, u, base, w.len() as int, j);
        lemma_tenc_held(g[j], w[j], v, u, base + gpu_loading::tencs_arrays(w, j).len());
    }
}

/// The layers of the frequency decoder are on the device.
proof fn lemma_hdecs_held<T>(
    g: Seq<GpuHDecLayer>,
    w: Seq<HDecLayer<T>>,
    v: Seq<Seq<T>>,
    u: Seq<Seq<T>>,
    base: int,
)
    requires
        agrees(v, u),
        gpu_loading::window(u, base, gpu_loading::hdecs_arrays(w, w.len() as int)),
        gpu_loading::hdecs_error_from(w, 0) is None,
        gpu_loading::are_hdecs_at(g, w, base),
    ensures
        g.len() == w.len(),
        forall|j: int|
            #![trigger w[j]]
            0 <= j < w.len() ==> weights::holds_hdec(v, g[j], w[j]),
{
    reveal(gpu_loading::are_hdecs_at);
    assert forall|j: int|
        #![trigger w[j]]
        0 <= j < w.len() implies weights::holds_hdec(v, g[j], w[j]) by {
        gpu_loading::lemma_hdecs_error(w, 0, j);
        gpu_loading::lemma_hdecs_window(w, u, base, w.len() as int, j);
        lemma_hdec_held(g[j], w[j], v, u, base + gpu_loading::hdecs_arrays(w, j).len());
    }
}

/// The layers of the time decoder are on the device.
proof fn lemma_tdecs_held<T>(
    g: Seq<GpuTDecLayer>,
    w: Seq<TDecLayer<T>>,
    v: Seq<Seq<T>>,
    u: Seq<Seq<T>>,
    base: int,
)
    requires
        agrees(v, u),
        gpu_loading::window(u, base, gpu_loading::tdecs_arrays(w, w.len() as int)),
        gpu_loading::tdecs_error_from(w, 0) is None,
        gpu_loading::are_tdecs_at(g, w, base),
    ensures
        g.len() == w.len(),
        forall|j: int|
            #![trigger w[j]]
            0 <= j < w.len() ==> weights::holds_tdec(v, g[j], w[j]),
{
    reveal(gpu_loading::are_tdecs_at);
    assert forall|j: int|
        #![trigger w[j]]
        0 <= j < w.len() implies weights::holds_tdec(v, g[j], w[j]) by {
        gpu_loading::lemma_tdecs_error(w, 0, j);
        gpu_loading::lemma_tdecs_window(w, u, base, w.len() as int, j);
        lemma_tdec_held(g[j], w[j], v, u, base + gpu_loading::tdecs_arrays(w, j).len());
    }
}

/// A transformer layer is on the device.
proof fn lemma_transformer_layer_held<T>(
    g: GpuTransformerLayerWeights,
    l: TransformerLayerWeights<T>,
    v: Seq<Seq<T>>,
    u: Seq<Seq<T>>,
    base: int,
)
    requires
        agrees(v, u),
        gpu_loading::window(u, base, gpu_loading::transformer_layer_arrays(l)),
        gpu_loading::transformer_layer_error(l) is None,
        gpu_loading::is_transformer_layer_at(g, l, base),
    ensures
        weights::holds_transformer_layer(v, g, l),
{
    reveal(weights::holds_transformer_layer);
    match l.self_attn {
        Some(x) => lemma_self_attn_held(x, v, u, base),
        None => match l.cross_attn {
            Some(x) => lemma_cross_attn_held(x, v, u, base),
            None => {},
        },
    }
}

/// The layers of the transformer are on the device.
proof fn lemma_transformer_layers_held<T>(
    g: Seq<GpuTransformerLayerWeights>,
    w: Seq<TransformerLayerWeights<T>>,
    v: Seq<Seq<T>>,
    u: Seq<Seq<T>>,
    base: int,
)
    requires
        agrees(v, u),
        gpu_loading::window(u, base, gpu_loading::transformer_layers_arrays(w, w.len() as int)),
        gpu_loading::transformer_layers_error_from(w, 0) is None,
        gpu_loading::are_transformer_layers_at(g, w, base),
    ensures
        weights::holds_transformer_layers(v, g, w),
{
    reveal(gpu_loading::are_transformer_layers_at);
    reveal(weights::holds_transformer_layers);
    assert forall|j: int|
        #![trigger g[j]]
        #![trigger w[j]]
        0 <= j < w.len() implies weights::holds_transformer_layer(v, g[j], w[j]) by {
        gpu_loading::lemma_transformer_layers_error(w, 0, j);
        gpu_loading::lemma_transformer_layers_window(w, u, base, w.len() as int, j);
        lemma_transformer_layer_held(
            g[j],
            w[j],
            v,
            u,
            base + gpu_loading::transformer_layers_arrays(w, j).len(),
        );
    }
}

/// A channel resampler, where there is one, is on the device.
proof fn lemma_resampler_held<T>(
    gw: Option<GpuConv1dWeight>,
    gb: Option<GpuBias>,
    w: Option<Conv1dWeight<T>>,
    b: Option<Vec<T>>,
    v: Seq<Seq<T>>,
    u: Seq<Seq<T>>,
    base: int,
)
    requires
        agrees(v, u),
        gpu_loading::window(u, base, gpu_loading::resampler_arrays(w, b)),
        gpu_loading::resampler_error(w) is None,
        gpu_loading::is_resampler_at(gw, gb, w, b, base),
    ensures
        weights::holds_resampler(v, gw, gb, w, b),
{
    reveal(gpu_loading::resampler_arrays);
    reveal(gpu_loading::is_resampler_at);
    reveal(weights::holds_resampler);
    let first = match w {
        Some(w) => gpu_loading::conv1d_arrays(w),
        None => seq![],
    };
    let second = match b {
        Some(b) => seq![b@],
        None => seq![],
    };
    gpu_loading::lemma_parts(u, base, first, second);
    if w is Some {
        lemma_conv1d_held(w->0, v, u, base);
    }
    if b is Some {
        lemma_held(v, u, base + first.len(), second, 0);
    }
}

/// The transformer is on the device.
proof fn lemma_transformer_held<T>(
    g: GpuCrossDomainTransformer,
    l: CrossDomainTransformer<T>,
    v: Seq<Seq<T>>,
    u: Seq<Seq<T>>,
    base: int,
)
    requires
        agrees(v, u),
        gpu_loading::window(u, base, gpu_loading::transformer_arrays(l)),
        gpu_loading::transformer_error(l) is None,
        gpu_loading::is_transformer_at(g, l, base),
    ensures
        weights::holds_transformer(v, g, l),
{
    reveal(gpu_loading::is_transformer_at);
    reveal(weights::holds_transformer);
    gpu_loading::lemma_transformer_window(l, u, base, 8, 0);
    gpu_loading::lemma_transformer_window(l, u, base, 8, 1);
    gpu_loading::lemma_transformer_window(l, u, base, 8, 2);
    gpu_loading::lemma_transformer_window(l, u, base, 8, 3);
    gpu_loading::lemma_transformer_window(l, u, base, 8, 4);
    gpu_loading::lemma_transformer_window(l, u, base, 8, 5);
    gpu_loading::lemma_transformer_window(l, u, base, 8, 6);
    gpu_loading::lemma_transformer_window(l, u, base, 8, 7);
    lemma_transformer_layers_held(
        g.layers@,
        l.layers@,
        v,
        u,
        base + gpu_loading::transformer_parts(l, 0).len(),
    );
    lemma_transformer_layers_held(
        g.layers_t@,
        l.layers_t@,
        v,
        u,
        base + gpu_loading::transformer_parts(l, 1).len(),
    );
    lemma_resampler_held(
        g.channel_upsampler,
        g.channel_upsampler_bias,
        l.channel_upsampler,
        l.channel_upsampler_bias,
        v,
        u,
        base + gpu_loading::transformer_parts(l, 2).len(),
    );
    lemma_resampler_held(
        g.channel_downsampler,
        g.channel_downsampler_bias,
        l.channel_downsampler,
        l.channel_downsampler_bias,
        v,
        u,
        base + gpu_loading::transformer_parts(l, 3).len(),
    );
    lemma_resampler_held(
        g.channel_upsampler_t,
        g.channel_upsampler_t_bias,
        l.channel_upsampler_t,
        l.channel_upsampler_t_bias,
        v,
        u,
        base + gpu_loading::transformer_parts(l, 4).len(),
    );
    lemma_resampler_held(
        g.channel_downsampler_t,
        g.channel_downsampler_t_bias,
        l.channel_downsampler_t,
        l.channel_downsampler_t_bias,
        v,
        u,
        base + gpu_loading::transformer_parts(l, 5).len(),
    );
    lemma_layer_norm_held(l.norm_in, v, u, base + gpu_loading::transformer_parts(l, 6).len());
    lemma_layer_norm_held(l.norm_in_t, v, u, base + gpu_loading::transformer_parts(l, 7).len());
}

/// Once its arrays are on the device, the device holds the model.
pub proof fn model_held<T>(g: GpuHTDemucs, l: HTDemucs<T>, v: Seq<Seq<T>>, u: Seq<Seq<T>>)
    requires
        u == gpu_loading::model_arrays(l),
        u.len() <= usize::MAX,
        agrees(v, u),
        gpu_loading::model_error(l) is None,
        gpu_loading::is_model_at(g, l, 0),
    ensures
        weights::holds_model(v, g, l),
{
    reveal(gpu_loading::is_model_at);
    reveal(gpu_loading::window);
    reveal(weights::holds_model);
    let base: int = 0;
    assert(gpu_loading::window(u, base, gpu_loading::model_arrays(l)));
    gpu_loading::lemma_model_window(l, u, base, 6, 0);
    gpu_loading::lemma_model_window(l, u, base, 6, 1);
    gpu_loading::lemma_model_window(l, u, base, 6, 2);
    gpu_loading::lemma_model_window(l, u, base, 6, 3);
    gpu_loading::lemma_model_window(l, u, base, 6, 4);
    gpu_loading::lemma_model_window(l, u, base, 6, 5);
    lemma_hencs_held(g.encoders@, l.encoders@, v, u, base + gpu_loading::model_parts(l, 0).len());
    lemma_tencs_held(g.tencoders@, l.tencoders@, v, u, base + gpu_loading::model_parts(l, 1).len());
    lemma_hdecs_held(g.decoders@, l.decoders@, v, u, base + gpu_loading::model_parts(l, 2).len());
    lemma_tdecs_held(g.tdecoders@, l.tdecoders@, v, u, base + gpu_loading::model_parts(l, 3).len());
    lemma_transformer_held(
        g.crosstransformer,
        l.crosstransformer,
        v,
        u,
        base + gpu_loading::model_parts(l, 4).len(),
    );
    lemma_held(
        v,
        u,
        base + gpu_loading::model_parts(l, 5).len(),
        gpu_loading::emb_arrays(l.freq_emb),
        0,
    );
}

} // verus!
