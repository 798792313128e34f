//! The transformer on the device.
use vstd::prelude::*;
use crate::arith::Arith;
use crate::cuda_ops::attention as gpu_attention;
use crate::cuda_ops::conv as gpu_conv;
use crate::cuda_ops::elementwise;
use crate::cuda_ops::layout as gpu_layout;
use crate::cuda_ops::matmul as gpu_matmul;
use crate::cuda_ops::transformer as gpu_transformer;
use crate::gpu_model::GpuBias;
use crate::gpu_model::GpuConv1dWeight;
use crate::gpu_model::GpuCrossAttnLayer;
use crate::gpu_model::GpuCrossDomainTransformer;
use crate::gpu_model::GpuGroupNorm1;
use crate::gpu_model::GpuLayerNorm1;
use crate::gpu_model::GpuLayerScale;
use crate::gpu_model::GpuMhaWeights;
use crate::gpu_model::GpuSelfAttnLayer;
use crate::gpu_model::GpuTransformerLayerWeights;
use crate::gpu_model::GpuWeight2D;
use crate::gpu_tensor;
use crate::gpu_tensor::GpuTensor;
use crate::index;
use crate::meaning;
use crate::meaning::attention as heads;
use crate::meaning::conv as convolutions;
use crate::meaning::growth;
use crate::meaning::matmul;
use crate::meaning::operators;
use crate::meaning::weights;
use crate::model::Conv1dWeight;
use crate::model::CrossAttnLayer;
use crate::model::CrossDomainTransformer;
use crate::model::GroupNorm1;
use crate::model::LayerNorm1;
use crate::model::LayerScale;
use crate::model::MhaWeights;
use crate::model::SelfAttnLayer;
use crate::model::TransformerLayerWeights;
use crate::model::Weight2D;
use crate::T_LAYERS;
use crate::ops_cpu::attention;
use crate::ops_cpu::conv;
use crate::ops_cpu::elementwise as cpu_elementwise;
use crate::ops_cpu::embedding;
use crate::ops_cpu::encoder;
use crate::ops_cpu::layout;
use crate::ops_cpu::transformer;
use crate::program;
use crate::program::Step;

verus! {

/// A layer normalization is the one of the processor.
pub proof fn normed_means<A: Arith>(
    a: &A,
    whole: Seq<Step>,
    v: Seq<Seq<A::T>>,
    s: Seq<Step>,
    x: GpuTensor,
    g: GpuLayerNorm1,
    outer: usize,
    b: usize,
    n: usize,
    d: usize,
    ln: &LayerNorm1<A::T>,
)
    requires
        meaning::runs(a, whole, v, gpu_attention::normed_steps(s, x, g, outer, b, n, d)),
        meaning::holds(v, x),
        x.data.len == outer * d,
        weights::holds_layer_norm(v, g, *ln),
    ensures
        meaning::went(whole, v, s, gpu_attention::normed_steps(s, x, g, outer, b, n, d)),
        ({
            let r = gpu_attention::normed_steps(s, x, g, outer, b, n, d)->Ok_0.1;
            &&& r.rank == 3
            &&& r.d0 == b
            &&& r.d1 == n
            &&& r.d2 == d
            &&& attention::is_layernorm(a, meaning::at(v, x), ln, d as int, meaning::at(v, r))
        }),
{
    reveal(gpu_attention::normed_steps);
    operators::layer_norm_means(a, whole, v, s, x, g, outer, d);
}

/// The feed-forward half of a layer is the one of the processor.
#[verifier::spinoff_prover]
pub proof fn feed_forward_means<A: Arith>(
    a: &A,
    whole: Seq<Step>,
    v: Seq<Seq<A::T>>,
    s: Seq<Step>,
    x: GpuTensor,
    norm: GpuLayerNorm1,
    linear1: GpuWeight2D,
    bias1: GpuBias,
    linear2: GpuWeight2D,
    bias2: GpuBias,
    gamma: GpuLayerScale,
    outer: usize,
    ln: &LayerNorm1<A::T>,
    w1: &Weight2D<A::T>,
    b1v: Seq<A::T>,
    w2: &Weight2D<A::T>,
    b2v: Seq<A::T>,
    scale: &LayerScale<A::T>,
) -> (r: (Seq<A::T>, Seq<A::T>))
    requires
        meaning::unrounded(a),
        meaning::runs(
            a,
            whole,
            v,
            gpu_attention::feed_forward_steps(
                s,
                x,
                norm,
                linear1,
                bias1,
                linear2,
                bias2,
                gamma,
                outer,
            ),
        ),
        meaning::holds(v, x),
        x.rank == 3,
        outer == x.d0 * x.d1,
        w1.cols == x.d2,
        w2.cols == w1.rows,
        w2.rows == x.d2,
        weights::holds_layer_norm(v, norm, *ln),
        weights::holds_linear(v, linear1, *w1),
        weights::holds_bias(v, bias1, b1v),
        weights::holds_linear(v, linear2, *w2),
        weights::holds_bias(v, bias2, b2v),
        v[gamma.scale.id as int] == scale.scale@,
    ensures
        meaning::went(
            whole,
            v,
            s,
            gpu_attention::feed_forward_steps(
                s,
                x,
                norm,
                linear1,
                bias1,
                linear2,
                bias2,
                gamma,
                outer,
            ),
        ),
        attention::is_layernorm(a, meaning::at(v, x), ln, x.d2 as int, r.0),
        attention::is_feed_forward(a, r.0, x.d0 * x.d1, w1, b1v, w2, b2v, r.1),
        ({
            let t = gpu_attention::feed_forward_steps(
                s,
                x,
                norm,
                linear1,
                bias1,
                linear2,
                bias2,
                gamma,
                outer,
            )->Ok_0.1;
            &&& t == gpu_tensor::moved(x, t.data.id)
            &&& attention::is_scaled_residual(
                a,
                meaning::at(v, x),
                scale,
                x.d2 as int,
                r.1,
                meaning::at(v, t),
            )
        }),
{
    reveal(gpu_attention::feed_forward_steps);
    growth::feed_forward_grows(s, x, norm, linear1, bias1, linear2, bias2, gamma, outer);
    let b1 = elementwise::layer_norm_steps(s, x, norm, outer, x.d2);
    let (s1, n) = b1->Ok_0;
    let b2 = gpu_matmul::linear_steps(s1, n, linear1, bias1);
    growth::linear_grows(s1, n, linear1, bias1);
    let (s2, h1) = b2->Ok_0;
    let b3 = elementwise::gelu_steps(s2, h1);
    let (s3, h2) = b3->Ok_0;
    let b4 = gpu_matmul::linear_steps(s3, h2, linear2, bias2);
    growth::linear_grows(s3, h2, linear2, bias2);
    let (s4, h3) = b4->Ok_0;
    let b5 = elementwise::layer_scale_last_steps(s4, h3, gamma);
    let (s5, h4) = b5->Ok_0;
    let b6 = elementwise::add_to_steps(s5, x, h4);
    growth::lemma_inside(s5, b6->Ok_0.0, whole);
    growth::lemma_inside(s4, b5->Ok_0.0, whole);
    growth::lemma_inside(s3, b4->Ok_0.0, whole);
    growth::lemma_inside(s2, b3->Ok_0.0, whole);
    growth::lemma_inside(s1, b2->Ok_0.0, whole);
    operators::layer_norm_means(a, whole, v, s, x, norm, outer, x.d2);
    assert(x.d2 > 0) by (nonlinear_arith)
        requires
            x.d0 * x.d1 * x.d2 > 0,
    ;
    matmul::linear_means(a, whole, v, s1, n, linear1, bias1, outer, w1.data@);
    operators::gelu_means(a, whole, v, s2, h1);
    matmul::linear_means(a, whole, v, s3, h2, linear2, bias2, outer, w2.data@);
    operators::layer_scale_last_means(a, whole, v, s4, h3, gamma);
    operators::add_to_means(a, whole, v, s5, x, h4);
    assert(attention::is_feed_forward(
        a,
        meaning::at(v, n),
        x.d0 * x.d1,
        w1,
        b1v,
        w2,
        b2v,
        meaning::at(v, h3),
    )) by {
        reveal(attention::is_feed_forward);
    }
    (meaning::at(v, n), meaning::at(v, h3))
}

/// The last normalization of a layer is the one of the processor.
pub proof fn norm_over_all_means<A: Arith>(
    a: &A,
    whole: Seq<Step>,
    v: Seq<Seq<A::T>>,
    s: Seq<Step>,
    x: GpuTensor,
    g: GpuGroupNorm1,
    gn: &GroupNorm1<A::T>,
)
    requires
        meaning::runs(a, whole, v, gpu_attention::norm_over_all_steps(s, x, g)),
        meaning::holds(v, x),
        x.rank == 3,
        weights::holds_group_norm(v, g, *gn),
    ensures
        meaning::went(whole, v, s, gpu_attention::norm_over_all_steps(s, x, g)),
        ({
            let r = gpu_attention::norm_over_all_steps(s, x, g)->Ok_0.1;
            &&& r.rank == 3
            &&& meaning::axes3(r) == meaning::axes3(x)
            &&& attention::is_norm_out(
                a,
                meaning::at(v, x),
                meaning::axes3(x),
                gn,
                meaning::at(v, r),
            )
        }),
{
    reveal(gpu_attention::norm_over_all_steps);
    growth::norm_over_all_grows(s, x, g);
    let b1 = gpu_layout::swap_dims_12_3d_steps(s, x);
    let (s1, y) = b1->Ok_0;
    let b2 = elementwise::groupnorm1_steps(s1, y, g);
    let (s2, z) = b2->Ok_0;
    let b3 = gpu_layout::swap_dims_12_3d_steps(s2, z);
    growth::lemma_inside(s2, b3->Ok_0.0, whole);
    growth::lemma_inside(s1, b2->Ok_0.0, whole);
    operators::swap_dims_means(a, whole, v, s, x);
    operators::groupnorm1_means(a, whole, v, s1, y, g);
    operators::swap_dims_means(a, whole, v, s2, z);
    reveal(attention::is_norm_out);
}

/// The attention half of a layer is the one of the processor.
pub proof fn attention_block_means<A: Arith>(
    a: &A,
    whole: Seq<Step>,
    v: Seq<Seq<A::T>>,
    s: Seq<Step>,
    x: GpuTensor,
    q: GpuTensor,
    kv: GpuTensor,
    g: GpuMhaWeights,
    gamma: GpuLayerScale,
    attn: &MhaWeights<A::T>,
    scale: &LayerScale<A::T>,
) -> (m: Seq<A::T>)
    requires
        meaning::unrounded(a),
        meaning::runs(a, whole, v, gpu_attention::attention_block_steps(s, x, q, kv, g, gamma)),
        meaning::holds(v, x),
        meaning::holds(v, q),
        meaning::holds(v, kv),
        x.rank == 3,
        q.rank == 3,
        kv.rank == 3,
        meaning::axes3(q) == meaning::axes3(x),
        kv.d0 == q.d0,
        q.d2 == attn.d_model,
        kv.d2 == attn.d_model,
        weights::holds_mha(v, g, *attn),
        v[gamma.scale.id as int] == scale.scale@,
    ensures
        meaning::went(whole, v, s, gpu_attention::attention_block_steps(s, x, q, kv, g, gamma)),
        attention::is_mha(
            a,
            meaning::at(v, q),
            meaning::axes3(q),
            meaning::at(v, kv),
            meaning::axes3(kv),
            attn,
            m,
        ),
        ({
            let t = gpu_attention::attention_block_steps(s, x, q, kv, g, gamma)->Ok_0.1;
            &&& t == gpu_tensor::moved(x, t.data.id)
            &&& attention::is_scaled_residual(
                a,
                meaning::at(v, x),
                scale,
                q.d2 as int,
                m,
                meaning::at(v, t),
            )
        }),
{
    reveal(gpu_attention::attention_block_steps);
    growth::attention_block_grows(s, x, q, kv, g, gamma);
    let b1 = gpu_attention::mha_steps(s, q, kv, g);
    growth::mha_grows(s, q, kv, g);
    let (s1, y) = b1->Ok_0;
    let b2 = elementwise::layer_scale_last_steps(s1, y, gamma);
    let (s2, z) = b2->Ok_0;
    let b3 = elementwise::add_to_steps(s2, x, z);
    growth::lemma_inside(s2, b3->Ok_0.0, whole);
    growth::lemma_inside(s1, b2->Ok_0.0, whole);
    heads::mha_means(a, whole, v, s, q, kv, g, attn);
    assert(y.d2 == q.d2) by {
        assert(meaning::axes3(y)[2] == meaning::axes3(q)[2]);
    }
    operators::layer_scale_last_means(a, whole, v, s1, y, gamma);
    operators::add_to_means(a, whole, v, s2, x, z);
    meaning::at(v, y)
}

/// A layer of self-attention is the one of the processor.
#[verifier::spinoff_prover]
pub proof fn self_attn_means<A: Arith>(
    a: &A,
    whole: Seq<Step>,
    v: Seq<Seq<A::T>>,
    s: Seq<Step>,
    query: GpuTensor,
    g: GpuSelfAttnLayer,
    layer: &SelfAttnLayer<A::T>,
)
    requires
        meaning::unrounded(a),
        meaning::runs(a, whole, v, gpu_attention::self_attn_steps(s, query, g)),
        meaning::holds(v, query),
        query.rank == 3,
        weights::holds_self_attn(v, g, *layer),
        attention::self_attn_ok(meaning::axes3(query), layer),
    ensures
        meaning::went(whole, v, s, gpu_attention::self_attn_steps(s, query, g)),
        ({
            let r = gpu_attention::self_attn_steps(s, query, g)->Ok_0.1;
            &&& r.rank == 3
            &&& meaning::axes3(r) == meaning::axes3(query)
            &&& attention::is_self_attn(
                a,
                meaning::at(v, query),
                meaning::axes3(query),
                layer,
                meaning::at(v, r),
            )
        }),
{
    reveal(gpu_attention::self_attn_steps);
    reveal(weights::holds_self_attn);
    reveal(attention::self_attn_ok);
    reveal(attention::mha_ok);
    reveal(attention::ffn_ok);
    growth::self_attn_grows(s, query, g);
    let outer = (query.d0 * query.d1) as usize;
    let b1 = gpu_attention::normed_steps(s, query, g.norm1, outer, query.d0, query.d1, query.d2);
    growth::normed_grows(s, query, g.norm1, outer, query.d0, query.d1, query.d2);
    let (s1, q) = b1->Ok_0;
    let b2 = gpu_attention::attention_block_steps(s1, query, q, q, g.attn, g.gamma_1);
    growth::attention_block_grows(s1, query, q, q, g.attn, g.gamma_1);
    let (s2, y) = b2->Ok_0;
    let b3 = gpu_attention::feed_forward_steps(
        s2,
        y,
        g.norm2,
        g.linear1,
        g.linear1_bias,
        g.linear2,
        g.linear2_bias,
        g.gamma_2,
        outer,
    );
    growth::feed_forward_grows(
        s2,
        y,
        g.norm2,
        g.linear1,
        g.linear1_bias,
        g.linear2,
        g.linear2_bias,
        g.gamma_2,
        outer,
    );
    let (s3, z) = b3->Ok_0;
    let b4 = gpu_attention::norm_over_all_steps(s3, z, g.norm_out);
    growth::norm_over_all_grows(s3, z, g.norm_out);
    growth::lemma_inside(s3, b4->Ok_0.0, whole);
    growth::lemma_inside(s2, b3->Ok_0.0, whole);
    growth::lemma_inside(s1, b2->Ok_0.0, whole);
    assert(query.d2 > 0) by (nonlinear_arith)
        requires
            query.d0 * query.d1 * query.d2 > 0,
    ;
    normed_means(a, whole, v, s, query, g.norm1, outer, query.d0, query.d1, query.d2, &layer.norm1);
    let m = attention_block_means(
        a,
        whole,
        v,
        s1,
        query,
        q,
        q,
        g.attn,
        g.gamma_1,
        &layer.attn,
        &layer.gamma_1,
    );
    feed_forward_means(
        a,
        whole,
        v,
        s2,
        y,
        g.norm2,
        g.linear1,
        g.linear1_bias,
        g.linear2,
        g.linear2_bias,
        g.gamma_2,
        outer,
        &layer.norm2,
        &layer.linear1,
        layer.linear1_bias@,
        &layer.linear2,
        layer.linear2_bias@,
        &layer.gamma_2,
    );
    norm_over_all_means(a, whole, v, s3, z, g.norm_out, &layer.norm_out);
    let e = meaning::axes3(query);
    assert(meaning::axes3(y) == e);
    let r = gpu_attention::self_attn_steps(s, query, g)->Ok_0.1;
    assert(attention::is_ffn(
        a,
        meaning::at(v, y),
        e,
        &layer.norm2,
        &layer.linear1,
        layer.linear1_bias@,
        &layer.linear2,
        layer.linear2_bias@,
        &layer.gamma_2,
        &layer.norm_out,
        meaning::at(v, r),
    )) by {
        reveal(attention::is_ffn);
    }
    assert(attention::is_self_attn(
        a,
        meaning::at(v, query),
        meaning::axes3(query),
        layer,
        meaning::at(v, r),
    )) by {
        reveal(attention::is_self_attn);
    }
}

/// A layer of cross-attention is the one of the processor.
#[verifier::spinoff_prover]
pub proof fn cross_attn_means<A: Arith>(
    a: &A,
    whole: Seq<Step>,
    v: Seq<Seq<A::T>>,
    s: Seq<Step>,
    query: GpuTensor,
    cross: GpuTensor,
    g: GpuCrossAttnLayer,
    layer: &CrossAttnLayer<A::T>,
)
    requires
        meaning::unrounded(a),
        meaning::runs(a, whole, v, gpu_attention::cross_attn_steps(s, query, cross, g)),
        meaning::holds(v, query),
        query.rank == 3,
        weights::holds_cross_attn(v, g, *layer),
        meaning::holds(v, cross),
        cross.rank == 3,
        cross.d0 == query.d0,
        attention::cross_attn_ok(meaning::axes3(query), meaning::axes3(cross), layer),
    ensures
        meaning::went(whole, v, s, gpu_attention::cross_attn_steps(s, query, cross, g)),
        ({
            let r = gpu_attention::cross_attn_steps(s, query, cross, g)->Ok_0.1;
            &&& r.rank == 3
            &&& meaning::axes3(r) == meaning::axes3(query)
            &&& attention::is_cross_attn(
                a,
                meaning::at(v, query),
                meaning::axes3(query),
                meaning::at(v, cross),
                meaning::axes3(cross),
                layer,
                meaning::at(v, r),
            )
        }),
{
    reveal(gpu_attention::cross_attn_steps);
    reveal(weights::holds_cross_attn);
    reveal(attention::cross_attn_ok);
    reveal(attention::mha_ok);
    reveal(attention::ffn_ok);
    growth::cross_attn_grows(s, query, cross, g);
    let outer = (query.d0 * query.d1) as usize;
    let outer2 = cross.data.len / query.d2;
    let b1 = gpu_attention::normed_steps(s, query, g.norm1, outer, query.d0, query.d1, query.d2);
    growth::normed_grows(s, query, g.norm1, outer, query.d0, query.d1, query.d2);
    let (s1, q) = b1->Ok_0;
    let b2 = gpu_attention::normed_steps(s1, cross, g.norm2, outer2, query.d0, cross.d1, query.d2);
    growth::normed_grows(s1, cross, g.norm2, outer2, query.d0, cross.d1, query.d2);
    let (s2, kv) = b2->Ok_0;
    let b3 = gpu_attention::attention_block_steps(s2, query, q, kv, g.attn, g.gamma_1);
    growth::attention_block_grows(s2, query, q, kv, g.attn, g.gamma_1);
    let (s3, y) = b3->Ok_0;
    let b4 = gpu_attention::feed_forward_steps(
        s3,
        y,
        g.norm3,
        g.linear1,
        g.linear1_bias,
        g.linear2,
        g.linear2_bias,
        g.gamma_2,
        outer,
    );
    growth::feed_forward_grows(
        s3,
        y,
        g.norm3,
        g.linear1,
        g.linear1_bias,
        g.linear2,
        g.linear2_bias,
        g.gamma_2,
        outer,
    );
    let (s4, z) = b4->Ok_0;
    let b5 = gpu_attention::norm_over_all_steps(s4, z, g.norm_out);
    growth::norm_over_all_grows(s4, z, g.norm_out);
    growth::lemma_inside(s4, b5->Ok_0.0, whole);
    growth::lemma_inside(s3, b4->Ok_0.0, whole);
    growth::lemma_inside(s2, b3->Ok_0.0, whole);
    growth::lemma_inside(s1, b2->Ok_0.0, whole);
    assert(query.d2 > 0) by (nonlinear_arith)
        requires
            query.d0 * query.d1 * query.d2 > 0,
    ;
    normed_means(a, whole, v, s, query, g.norm1, outer, query.d0, query.d1, query.d2, &layer.norm1);
    vstd::arithmetic::div_mod::lemma_div_by_multiple(cross.d0 * cross.d1, query.d2 as int);
    normed_means(
        a,
        whole,
        v,
        s1,
        cross,
        g.norm2,
        outer2,
        query.d0,
        cross.d1,
        query.d2,
        &layer.norm2,
    );
    assert(meaning::axes3(kv) == meaning::axes3(cross));
    let m = attention_block_means(
        a,
        whole,
        v,
        s2,
        query,
        q,
        kv,
        g.attn,
        g.gamma_1,
        &layer.attn,
        &layer.gamma_1,
    );
    feed_forward_means(
        a,
        whole,
        v,
        s3,
        y,
        g.norm3,
        g.linear1,
        g.linear1_bias,
        g.linear2,
        g.linear2_bias,
        g.gamma_2,
        outer,
        &layer.norm3,
        &layer.linear1,
        layer.linear1_bias@,
        &layer.linear2,
        layer.linear2_bias@,
        &layer.gamma_2,
    );
    norm_over_all_means(a, whole, v, s4, z, g.norm_out, &layer.norm_out);
    let e = meaning::axes3(query);
    assert(meaning::axes3(y) == e);
    let r = gpu_attention::cross_attn_steps(s, query, cross, g)->Ok_0.1;
    assert(attention::is_ffn(
        a,
        meaning::at(v, y),
        e,
        &layer.norm3,
        &layer.linear1,
        layer.linear1_bias@,
        &layer.linear2,
        layer.linear2_bias@,
        &layer.gamma_2,
        &layer.norm_out,
        meaning::at(v, r),
    )) by {
        reveal(attention::is_ffn);
    }
    assert(attention::is_cross_attn(
        a,
        meaning::at(v, query),
        meaning::axes3(query),
        meaning::at(v, cross),
        meaning::axes3(cross),
        layer,
        meaning::at(v, r),
    )) by {
        reveal(attention::is_cross_attn);
    }
}

/// A change of the number of channels is the one of the processor.
pub proof fn channel_resample_means<A: Arith>(
    a: &A,
    whole: Seq<Step>,
    v: Seq<Seq<A::T>>,
    s: Seq<Step>,
    x: GpuTensor,
    g: GpuConv1dWeight,
    gb: GpuBias,
    w: &Conv1dWeight<A::T>,
    b: Seq<A::T>,
)
    requires
        meaning::unrounded(a),
        meaning::has_zero(a),
        meaning::runs(a, whole, v, gpu_transformer::channel_resample_4d_steps(s, x, g, gb)),
        meaning::holds(v, x),
        x.rank == 4,
        weights::holds_conv1d(v, g, *w),
        weights::holds_bias(v, gb, b),
        w.out_ch > 0,
    ensures
        meaning::went(whole, v, s, gpu_transformer::channel_resample_4d_steps(s, x, g, gb)),
        ({
            let r = gpu_transformer::channel_resample_4d_steps(s, x, g, gb)->Ok_0.1;
            &&& r.rank == 4
            &&& meaning::axes4(r) == [x.d0, w.out_ch, x.d2, x.d3]
            &&& transformer::is_channel_map(
                a,
                meaning::at(v, x),
                meaning::axes4(x),
                w,
                b,
                meaning::at(v, r),
            )
        }),
{
    reveal(gpu_transformer::channel_resample_4d_steps);
    growth::channel_resample_grows(s, x, g, gb);
    let b1 = gpu_layout::reshape_bcft_to_bfct_steps(s, x);
    let (s1, rows) = b1->Ok_0;
    let b2 = gpu_conv::conv1d_1x1_steps(s1, rows, g, gb);
    growth::conv1d_1x1_grows(s1, rows, g, gb);
    let (s2, y) = b2->Ok_0;
    let b3 = gpu_layout::reshape_bfct_to_bcft_steps(s2, y, x.d0);
    growth::lemma_inside(s2, b3->Ok_0.0, whole);
    growth::lemma_inside(s1, b2->Ok_0.0, whole);
    assert(x.d0 > 0) by (nonlinear_arith)
        requires
            x.d0 * x.d1 * x.d2 * x.d3 > 0,
    ;
    operators::bcft_to_bfct_means(a, whole, v, s, x);
    assert(meaning::axes3(rows) == encoder::folded_shape(meaning::axes4(x)));
    convolutions::conv1d_1x1_means(a, whole, v, s1, rows, g, gb, w, b);
    assert(meaning::axes3(y)[0] == rows.d0);
    assert(meaning::axes3(y)[1] == w.out_ch);
    assert(meaning::axes3(y)[2] == x.d3);
    operators::bfct_to_bcft_means(a, whole, v, s2, y, x.d0, x.d2);
    reveal(transformer::is_channel_map);
}

/// A change of the number of channels, where there is one, is the one of the processor.
pub proof fn resample4_means<A: Arith>(
    a: &A,
    whole: Seq<Step>,
    v: Seq<Seq<A::T>>,
    s: Seq<Step>,
    x: GpuTensor,
    gw: Option<GpuConv1dWeight>,
    gb: Option<GpuBias>,
    w: Option<Conv1dWeight<A::T>>,
    b: Option<Vec<A::T>>,
)
    requires
        meaning::unrounded(a),
        meaning::has_zero(a),
        meaning::runs(a, whole, v, gpu_transformer::resample4_steps(s, x, gw, gb)),
        meaning::holds(v, x),
        x.rank == 4,
        weights::holds_resampler(v, gw, gb, w, b),
        transformer::resample4_ok(index::size4(meaning::axes4(x)), meaning::axes4(x), &w, &b),
    ensures
        meaning::went(whole, v, s, gpu_transformer::resample4_steps(s, x, gw, gb)),
        ({
            let r = gpu_transformer::resample4_steps(s, x, gw, gb)->Ok_0.1;
            &&& r.rank == 4
            &&& meaning::axes4(r) == transformer::resampled_shape4(meaning::axes4(x), &w, &b)
            &&& transformer::is_resampled4(
                a,
                meaning::at(v, x),
                meaning::axes4(x),
                &w,
                &b,
                meaning::at(v, r),
            )
        }),
{
    reveal(weights::holds_resampler);
    reveal(transformer::is_resampled4);
    reveal(transformer::resample4_ok);
    reveal(transformer::channel_map_ok);
    reveal(conv::conv1d_ok);
    if w is Some && b is Some {
        channel_resample_means(a, whole, v, s, x, gw->0, gb->0, &w->0, b->0@);
    }
}

/// A change of the number of channels of a sequence, where there is one, is the one of the
/// processor.
pub proof fn resample3_means<A: Arith>(
    a: &A,
    whole: Seq<Step>,
    v: Seq<Seq<A::T>>,
    s: Seq<Step>,
    x: GpuTensor,
    gw: Option<GpuConv1dWeight>,
    gb: Option<GpuBias>,
    w: Option<Conv1dWeight<A::T>>,
    b: Option<Vec<A::T>>,
)
    requires
        meaning::unrounded(a),
        meaning::has_zero(a),
        meaning::runs(a, whole, v, gpu_transformer::resample3_steps(s, x, gw, gb)),
        meaning::holds(v, x),
        x.rank == 3,
        weights::holds_resampler(v, gw, gb, w, b),
        transformer::resample3_ok(index::size3(meaning::axes3(x)), meaning::axes3(x), &w, &b),
    ensures
        meaning::went(whole, v, s, gpu_transformer::resample3_steps(s, x, gw, gb)),
        ({
            let r = gpu_transformer::resample3_steps(s, x, gw, gb)->Ok_0.1;
            &&& r.rank == 3
            &&& meaning::axes3(r) == transformer::resampled_shape3(meaning::axes3(x), &w, &b)
            &&& transformer::is_resampled3(
                a,
                meaning::at(v, x),
                meaning::axes3(x),
                &w,
                &b,
                meaning::at(v, r),
            )
        }),
{
    reveal(weights::holds_resampler);
    reveal(transformer::is_resampled3);
    reveal(transformer::resample3_ok);
    reveal(conv::conv1d_ok);
    if w is Some && b is Some {
        convolutions::conv1d_1x1_means(a, whole, v, s, x, gw->0, gb->0, &w->0, b->0@);
    }
}

/// Two results are among the values.
pub open spec fn went_both<T>(
    whole: Seq<Step>,
    v: Seq<Seq<T>>,
    s: Seq<Step>,
    b: gpu_tensor::Built<(GpuTensor, GpuTensor)>,
) -> bool {
    &&& program::extends(s, b->Ok_0.0)
    &&& program::extends(s, whole)
    &&& meaning::holds(v, b->Ok_0.1.0)
    &&& meaning::holds(v, b->Ok_0.1.1)
}

/// A layer on both sequences is the one of the processor.
pub proof fn both_layers_means<A: Arith>(
    a: &A,
    whole: Seq<Step>,
    v: Seq<Seq<A::T>>,
    s: Seq<Step>,
    f: GpuTensor,
    t: GpuTensor,
    gf: GpuTransformerLayerWeights,
    gt: GpuTransformerLayerWeights,
    lf: &TransformerLayerWeights<A::T>,
    lt: &TransformerLayerWeights<A::T>,
)
    requires
        meaning::unrounded(a),
        meaning::runs(a, whole, v, gpu_transformer::both_layers_steps(s, f, t, gf, gt)),
        meaning::holds(v, f),
        meaning::holds(v, t),
        f.rank == 3,
        t.rank == 3,
        f.d0 == t.d0,
        weights::holds_transformer_layer(v, gf, *lf),
        weights::holds_transformer_layer(v, gt, *lt),
        transformer::layer_pair_ok(meaning::axes3(f), meaning::axes3(t), lf, lt),
    ensures
        went_both(whole, v, s, gpu_transformer::both_layers_steps(s, f, t, gf, gt)),
        ({
            let r = gpu_transformer::both_layers_steps(s, f, t, gf, gt)->Ok_0.1;
            &&& r.0.rank == 3
            &&& r.1.rank == 3
            &&& meaning::axes3(r.0) == meaning::axes3(f)
            &&& meaning::axes3(r.1) == meaning::axes3(t)
            &&& transformer::is_layer_pair(
                a,
                meaning::at(v, f),
                meaning::axes3(f),
                meaning::at(v, t),
                meaning::axes3(t),
                lf,
                lt,
                meaning::at(v, r.0),
                meaning::at(v, r.1),
            )
        }),
{
    reveal(gpu_transformer::both_layers_steps);
    reveal(weights::holds_transformer_layer);
    reveal(transformer::layer_pair_ok);
    reveal(transformer::is_layer_pair);
    growth::both_layers_grows(s, f, t, gf, gt);
    match (gf, gt) {
        (
            GpuTransformerLayerWeights::SelfAttn(gf),
            GpuTransformerLayerWeights::SelfAttn(gt),
        ) => {
            let b1 = gpu_attention::self_attn_steps(s, f, gf);
            let (s1, y) = b1->Ok_0;
            let b2 = gpu_attention::self_attn_steps(s1, t, gt);
            growth::self_attn_grows(s1, t, gt);
            growth::lemma_inside(s1, b2->Ok_0.0, whole);
            self_attn_means(a, whole, v, s, f, gf, &lf.self_attn->0);
            self_attn_means(a, whole, v, s1, t, gt, &lt.self_attn->0);
        },
        (
            GpuTransformerLayerWeights::CrossAttn(gf),
            GpuTransformerLayerWeights::CrossAttn(gt),
        ) => {
            let b1 = gpu_attention::cross_attn_steps(s, f, t, gf);
            let (s1, y) = b1->Ok_0;
            let b2 = gpu_attention::cross_attn_steps(s1, t, f, gt);
            growth::cross_attn_grows(s1, t, f, gt);
            growth::lemma_inside(s1, b2->Ok_0.0, whole);
            cross_attn_means(a, whole, v, s, f, t, gf, &lf.cross_attn->0);
            cross_attn_means(a, whole, v, s1, t, f, gt, &lt.cross_attn->0);
        },
        _ => {},
    }
}

/// The sequences behind each layer from the one at `i` on.
spec fn are_pairs_from<A: Arith>(
    a: &A,
    f: Seq<A::T>,
    fs: [usize; 3],
    t: Seq<A::T>,
    ts: [usize; 3],
    ct: &CrossDomainTransformer<A::T>,
    i: int,
    trace: Seq<(Seq<A::T>, Seq<A::T>)>,
) -> bool {
    forall|j: int|
        #![trigger trace[j]]
        0 <= j < trace.len() ==> transformer::is_layer_pair(
            a,
            transformer::state_before(f, t, trace, j).0,
            fs,
            transformer::state_before(f, t, trace, j).1,
            ts,
            &ct.layers@[i + j],
            &ct.layers_t@[i + j],
            trace[j].0,
            trace[j].1,
        )
}

/// One more layer before.
proof fn lemma_pairs_before<A: Arith>(
    a: &A,
    f: Seq<A::T>,
    fs: [usize; 3],
    t: Seq<A::T>,
    ts: [usize; 3],
    ct: &CrossDomainTransformer<A::T>,
    i: int,
    f1: Seq<A::T>,
    t1: Seq<A::T>,
    rest: Seq<(Seq<A::T>, Seq<A::T>)>,
)
    requires
        transformer::is_layer_pair(a, f, fs, t, ts, &ct.layers@[i], &ct.layers_t@[i], f1, t1),
        are_pairs_from(a, f1, fs, t1, ts, ct, i + 1, rest),
    ensures
        are_pairs_from(a, f, fs, t, ts, ct, i, seq![(f1, t1)] + rest),
{
    let trace = seq![(f1, t1)] + rest;
    assert forall|j: int|
        #![trigger trace[j]]
        0 <= j < trace.len() implies transformer::is_layer_pair(
        a,
        transformer::state_before(f, t, trace, j).0,
        fs,
        transformer::state_before(f, t, trace, j).1,
        ts,
        &ct.layers@[i + j],
        &ct.layers_t@[i + j],
        trace[j].0,
        trace[j].1,
    ) by {
        if j > 0 {
            assert(trace[j] == rest[j - 1]);
            assert(i + j == i + 1 + (j - 1));
            assert(transformer::state_before(
                f,
                t,
                trace,
                j,
            ) == transformer::state_before(f1, t1, rest, j - 1));
        }
    }
}

/// The layers from the one at `i` on are those of the processor.
proof fn layers_from_means<A: Arith>(
    a: &A,
    whole: Seq<Step>,
    v: Seq<Seq<A::T>>,
    s: Seq<Step>,
    f: GpuTensor,
    t: GpuTensor,
    g: GpuCrossDomainTransformer,
    ct: &CrossDomainTransformer<A::T>,
    i: int,
) -> (trace: Seq<(Seq<A::T>, Seq<A::T>)>)
    requires
        meaning::unrounded(a),
        meaning::runs(
            a,
            whole,
            v,
            gpu_transformer::layers_steps_from(s, f, t, g.layers@, g.layers_t@, i),
        ),
        meaning::holds(v, f),
        meaning::holds(v, t),
        f.rank == 3,
        t.rank == 3,
        f.d0 == t.d0,
        weights::holds_transformer_layers(v, g.layers@, ct.layers@),
        weights::holds_transformer_layers(v, g.layers_t@, ct.layers_t@),
        ct.layers@.len() == T_LAYERS,
        ct.layers_t@.len() == T_LAYERS,
        transformer::layers_ok(meaning::axes3(f), meaning::axes3(t), ct),
        0 <= i <= T_LAYERS,
    ensures
        went_both(
            whole,
            v,
            s,
            gpu_transformer::layers_steps_from(s, f, t, g.layers@, g.layers_t@, i),
        ),
        trace.len() == T_LAYERS - i,
        are_pairs_from(
            a,
            meaning::at(v, f),
            meaning::axes3(f),
            meaning::at(v, t),
            meaning::axes3(t),
            ct,
            i,
            trace,
        ),
        ({
            let r = gpu_transformer::layers_steps_from(s, f, t, g.layers@, g.layers_t@, i)->Ok_0.1;
            let last = transformer::state_before(
                meaning::at(v, f),
                meaning::at(v, t),
                trace,
                T_LAYERS - i,
            );
            &&& r.0.rank == 3
            &&& r.1.rank == 3
            &&& meaning::axes3(r.0) == meaning::axes3(f)
            &&& meaning::axes3(r.1) == meaning::axes3(t)
            &&& meaning::at(v, r.0) == last.0
            &&& meaning::at(v, r.1) == last.1
        }),
    decreases T_LAYERS - i,
{
    reveal(weights::holds_transformer_layers);
    reveal(transformer::layers_ok);
    if i == T_LAYERS {
        seq![]
    } else {
        let gf = g.layers@[i];
        let gt = g.layers_t@[i];
        let b1 = gpu_transformer::both_layers_steps(s, f, t, gf, gt);
        let (s1, (f1, t1)) = b1->Ok_0;
        let b2 = gpu_transformer::layers_steps_from(s1, f1, t1, g.layers@, g.layers_t@, i + 1);
        growth::layers_grows(s1, f1, t1, g.layers@, g.layers_t@, i + 1);
        growth::lemma_inside(s1, b2->Ok_0.0, whole);
        let lf = ct.layers@[i];
        let lt = ct.layers_t@[i];
        both_layers_means(a, whole, v, s, f, t, gf, gt, &lf, &lt);
        growth::lemma_link(s, s1, b2);
        assert(meaning::axes3(f1)[0] == f.d0 && meaning::axes3(t1)[0] == t.d0);
        let rest = layers_from_means(a, whole, v, s1, f1, t1, g, ct, i + 1);
        let first = (meaning::at(v, f1), meaning::at(v, t1));
        lemma_pairs_before(
            a,
            meaning::at(v, f),
            meaning::axes3(f),
            meaning::at(v, t),
            meaning::axes3(t),
            ct,
            i,
            first.0,
            first.1,
            rest,
        );
        seq![first] + rest
    }
}

/// A tensor of one batch in the order that flattening gives, and with its axes reversed.
proof fn lemma_turned_is_reversed<T>(x: Seq<T>, c: int, f: int, t: int)
    requires
        0 <= c,
        0 <= f,
        0 <= t,
    ensures
        meaning::turned(x, 1, c, f, t) == layout::reversed(x, c, f, t),
{
    let y = meaning::turned(x, 1, c, f, t);
    let r = layout::reversed(x, c, f, t);
    assert(1 * t * f * c == t * f * c);
    assert forall|p: int| 0 <= p < r.len() implies #[trigger] y[p] == r[p] by {
        index::lemma_untriple(p, t, f, c);
        let q = p / c / f;
        assert(q / t == 0 && q % t == q) by (nonlinear_arith)
            requires
                0 <= q < t,
        ;
        assert(index::pos4(0, p % c, p / c % f, q, c, f, t) == index::pos3(
            p % c,
            p / c % f,
            q,
            f,
            t,
        ));
    }
    assert(y =~= r);
}

/// The branches as sequences are those of the processor.
#[verifier::spinoff_prover]
pub proof fn sequences_means<A: Arith>(
    a: &A,
    whole: Seq<Step>,
    v: Seq<Seq<A::T>>,
    s: Seq<Step>,
    freq: GpuTensor,
    time: GpuTensor,
    g: GpuCrossDomainTransformer,
    ct: &CrossDomainTransformer<A::T>,
) -> (u: (Seq<A::T>, Seq<A::T>))
    requires
        meaning::unrounded(a),
        meaning::has_zero(a),
        meaning::runs(a, whole, v, gpu_transformer::sequences_steps(s, freq, time, g)),
        meaning::holds(v, freq),
        meaning::holds(v, time),
        freq.rank == 4,
        time.rank == 3,
        freq.d0 == 1,
        time.d0 == 1,
        weights::holds_transformer(v, g, *ct),
        transformer::resample4_ok(
            index::size4(meaning::axes4(freq)),
            meaning::axes4(freq),
            &ct.channel_upsampler,
            &ct.channel_upsampler_bias,
        ),
        transformer::resample3_ok(
            index::size3(meaning::axes3(time)),
            meaning::axes3(time),
            &ct.channel_upsampler_t,
            &ct.channel_upsampler_t_bias,
        ),
        transformer::resampled_shape4(
            meaning::axes4(freq),
            &ct.channel_upsampler,
            &ct.channel_upsampler_bias,
        )[1] == ct.norm_in.dim,
        transformer::resampled_shape3(
            meaning::axes3(time),
            &ct.channel_upsampler_t,
            &ct.channel_upsampler_t_bias,
        )[1] == ct.norm_in.dim,
    ensures
        went_both(whole, v, s, gpu_transformer::sequences_steps(s, freq, time, g)),
        transformer::is_resampled4(
            a,
            meaning::at(v, freq),
            meaning::axes4(freq),
            &ct.channel_upsampler,
            &ct.channel_upsampler_bias,
            u.0,
        ),
        transformer::is_resampled3(
            a,
            meaning::at(v, time),
            meaning::axes3(time),
            &ct.channel_upsampler_t,
            &ct.channel_upsampler_t_bias,
            u.1,
        ),
        ({
            let r = gpu_transformer::sequences_steps(s, freq, time, g)->Ok_0.1;
            let d = ct.norm_in.dim;
            &&& r.0.rank == 3
            &&& r.1.rank == 3
            &&& r.0.d0 == 1
            &&& r.0.d1 == freq.d3 * freq.d2
            &&& r.0.d2 == d
            &&& r.1.d0 == 1
            &&& r.1.d1 == time.d2
            &&& r.1.d2 == d
            &&& meaning::at(v, r.0) == layout::reversed(
                u.0,
                d as int,
                freq.d2 as int,
                freq.d3 as int,
            )
            &&& meaning::at(v, r.1) == layout::swapped(u.1, 1, d as int, time.d2 as int, 1)
        }),
{
    reveal(gpu_transformer::sequences_steps);
    reveal(weights::holds_transformer);
    growth::sequences_grows(s, freq, time, g);
    let b1 = gpu_transformer::resample4_steps(
        s,
        freq,
        g.channel_upsampler,
        g.channel_upsampler_bias,
    );
    growth::resample4_grows(s, freq, g.channel_upsampler, g.channel_upsampler_bias);
    let (s1, f) = b1->Ok_0;
    let b2 = gpu_transformer::resample3_steps(
        s1,
        time,
        g.channel_upsampler_t,
        g.channel_upsampler_t_bias,
    );
    growth::resample3_grows(s1, time, g.channel_upsampler_t, g.channel_upsampler_t_bias);
    let (s2, t) = b2->Ok_0;
    let b3 = gpu_layout::flatten_bcft_to_btfc_steps(s2, f);
    let (s3, f2) = b3->Ok_0;
    let b4 = gpu_layout::swap_dims_12_3d_steps(s3, t);
    growth::lemma_inside(s3, b4->Ok_0.0, whole);
    growth::lemma_inside(s2, b3->Ok_0.0, whole);
    growth::lemma_inside(s1, b2->Ok_0.0, whole);
    resample4_means(
        a,
        whole,
        v,
        s,
        freq,
        g.channel_upsampler,
        g.channel_upsampler_bias,
        ct.channel_upsampler,
        ct.channel_upsampler_bias,
    );
    resample3_means(
        a,
        whole,
        v,
        s1,
        time,
        g.channel_upsampler_t,
        g.channel_upsampler_t_bias,
        ct.channel_upsampler_t,
        ct.channel_upsampler_t_bias,
    );
    let d = ct.norm_in.dim;
    assert(f.d0 == 1 && f.d1 == d && f.d2 == freq.d2 && f.d3 == freq.d3) by {
        let e = meaning::axes4(f);
        assert(e[0] == f.d0 && e[1] == f.d1 && e[2] == f.d2 && e[3] == f.d3);
    }
    assert(t.d0 == 1 && t.d1 == d && t.d2 == time.d2) by {
        let e = meaning::axes3(t);
        assert(e[0] == t.d0 && e[1] == t.d1 && e[2] == t.d2);
    }
    operators::flatten_means(a, whole, v, s2, f);
    operators::swap_dims_means(a, whole, v, s3, t);
    lemma_turned_is_reversed(meaning::at(v, f), d as int, freq.d2 as int, freq.d3 as int);
    (meaning::at(v, f), meaning::at(v, t))
}

/// The sequences with their embeddings are those of the processor.
#[verifier::spinoff_prover]
pub proof fn embedded_means<A: Arith>(
    a: &A,
    whole: Seq<Step>,
    v: Seq<Seq<A::T>>,
    s: Seq<Step>,
    f: GpuTensor,
    t: GpuTensor,
    g: GpuCrossDomainTransformer,
    freq_pe: GpuTensor,
    time_pe: GpuTensor,
    ct: &CrossDomainTransformer<A::T>,
) -> (u: (Seq<A::T>, Seq<A::T>))
    requires
        meaning::runs(
            a,
            whole,
            v,
            gpu_transformer::embedded_steps(s, f, t, f.d1, t.d1, g, freq_pe, time_pe),
        ),
        meaning::holds(v, f),
        meaning::holds(v, t),
        f.rank == 3,
        t.rank == 3,
        f.d0 == 1,
        t.d0 == 1,
        f.d2 == ct.norm_in.dim,
        t.d2 == ct.norm_in.dim,
        weights::holds_transformer(v, g, *ct),
    ensures
        went_both(
            whole,
            v,
            s,
            gpu_transformer::embedded_steps(s, f, t, f.d1, t.d1, g, freq_pe, time_pe),
        ),
        attention::is_layernorm(a, meaning::at(v, f), &ct.norm_in, f.d2 as int, u.0),
        attention::is_layernorm(a, meaning::at(v, t), &ct.norm_in_t, f.d2 as int, u.1),
        ({
            let r = gpu_transformer::embedded_steps(
                s,
                f,
                t,
                f.d1,
                t.d1,
                g,
                freq_pe,
                time_pe,
            )->Ok_0.1;
            &&& r.0.rank == 3
            &&& r.1.rank == 3
            &&& meaning::axes3(r.0) == meaning::axes3(f)
            &&& meaning::axes3(r.1) == meaning::axes3(t)
            &&& cpu_elementwise::is_added(a, u.0, meaning::at(v, freq_pe), meaning::at(v, r.0))
            &&& cpu_elementwise::is_added(a, u.1, meaning::at(v, time_pe), meaning::at(v, r.1))
        }),
{
    reveal(gpu_transformer::embedded_steps);
    reveal(weights::holds_transformer);
    growth::embedded_grows(s, f, t, f.d1, t.d1, g, freq_pe, time_pe);
    let d = g.norm_in.dim;
    let b1 = gpu_attention::normed_steps(s, f, g.norm_in, f.d1, 1, f.d1, d);
    growth::normed_grows(s, f, g.norm_in, f.d1, 1, f.d1, d);
    let (s1, fo) = b1->Ok_0;
    let b2 = gpu_attention::normed_steps(s1, t, g.norm_in_t, t.d1, 1, t.d1, d);
    growth::normed_grows(s1, t, g.norm_in_t, t.d1, 1, t.d1, d);
    let (s2, to) = b2->Ok_0;
    let b3 = elementwise::add_inplace_steps(s2, fo, freq_pe);
    let (s3, fo2) = b3->Ok_0;
    let b4 = elementwise::add_inplace_steps(s3, to, time_pe);
    growth::lemma_inside(s3, b4->Ok_0.0, whole);
    growth::lemma_inside(s2, b3->Ok_0.0, whole);
    growth::lemma_inside(s1, b2->Ok_0.0, whole);
    normed_means(a, whole, v, s, f, g.norm_in, f.d1, 1, f.d1, d, &ct.norm_in);
    normed_means(a, whole, v, s1, t, g.norm_in_t, t.d1, 1, t.d1, d, &ct.norm_in_t);
    operators::add_inplace_means(a, whole, v, s2, fo, freq_pe);
    operators::add_inplace_means(a, whole, v, s3, to, time_pe);
    (meaning::at(v, fo), meaning::at(v, to))
}

/// The sequences as branches are those of the processor.
#[verifier::spinoff_prover]
pub proof fn planes_means<A: Arith>(
    a: &A,
    whole: Seq<Step>,
    v: Seq<Seq<A::T>>,
    s: Seq<Step>,
    f: GpuTensor,
    t: GpuTensor,
    fr: usize,
    frames: usize,
    g: GpuCrossDomainTransformer,
    ct: &CrossDomainTransformer<A::T>,
)
    requires
        meaning::unrounded(a),
        meaning::has_zero(a),
        meaning::runs(a, whole, v, gpu_transformer::planes_steps(s, f, t, fr, frames, g)),
        meaning::holds(v, f),
        meaning::holds(v, t),
        f.rank == 3,
        t.rank == 3,
        f.d0 == 1,
        t.d0 == 1,
        f.d1 == frames * fr,
        f.d2 == ct.norm_in.dim,
        t.d2 == ct.norm_in.dim,
        weights::holds_transformer(v, g, *ct),
        transformer::resample4_ok(
            ct.norm_in.dim * fr * frames,
            [1, ct.norm_in.dim, fr, frames],
            &ct.channel_downsampler,
            &ct.channel_downsampler_bias,
        ),
        transformer::resample3_ok(
            ct.norm_in.dim * t.d1,
            [1, ct.norm_in.dim, t.d1],
            &ct.channel_downsampler_t,
            &ct.channel_downsampler_t_bias,
        ),
    ensures
        went_both(whole, v, s, gpu_transformer::planes_steps(s, f, t, fr, frames, g)),
        ({
            let r = gpu_transformer::planes_steps(s, f, t, fr, frames, g)->Ok_0.1;
            let d = ct.norm_in.dim;
            &&& r.0.rank == 4
            &&& r.1.rank == 3
            &&& meaning::axes4(r.0) == transformer::resampled_shape4(
                [1, d, fr, frames],
                &ct.channel_downsampler,
                &ct.channel_downsampler_bias,
            )
            &&& meaning::axes3(r.1) == transformer::resampled_shape3(
                [1, d, t.d1],
                &ct.channel_downsampler_t,
                &ct.channel_downsampler_t_bias,
            )
            &&& transformer::is_resampled4(
                a,
                layout::reversed(meaning::at(v, f), frames as int, fr as int, d as int),
                [1, d, fr, frames],
                &ct.channel_downsampler,
                &ct.channel_downsampler_bias,
                meaning::at(v, r.0),
            )
            &&& transformer::is_resampled3(
                a,
                layout::swapped(meaning::at(v, t), 1, t.d1 as int, d as int, 1),
                [1, d, t.d1],
                &ct.channel_downsampler_t,
                &ct.channel_downsampler_t_bias,
                meaning::at(v, r.1),
            )
        }),
{
    reveal(gpu_transformer::planes_steps);
    reveal(weights::holds_transformer);
    growth::planes_grows(s, f, t, fr, frames, g);
    let b1 = gpu_layout::unflatten_btfc_to_bcft_steps(s, f, fr, frames);
    let (s1, f1) = b1->Ok_0;
    let b2 = gpu_layout::swap_dims_12_3d_steps(s1, t);
    let (s2, t1) = b2->Ok_0;
    let b3 = gpu_transformer::resample4_steps(
        s2,
        f1,
        g.channel_downsampler,
        g.channel_downsampler_bias,
    );
    growth::resample4_grows(s2, f1, g.channel_downsampler, g.channel_downsampler_bias);
    let (s3, f2) = b3->Ok_0;
    let b4 = gpu_transformer::resample3_steps(
        s3,
        t1,
        g.channel_downsampler_t,
        g.channel_downsampler_t_bias,
    );
    growth::resample3_grows(s3, t1, g.channel_downsampler_t, g.channel_downsampler_t_bias);
    growth::lemma_inside(s3, b4->Ok_0.0, whole);
    growth::lemma_inside(s2, b3->Ok_0.0, whole);
    growth::lemma_inside(s1, b2->Ok_0.0, whole);
    let d = ct.norm_in.dim;
    operators::unflatten_means(a, whole, v, s, f, fr, frames);
    operators::swap_dims_means(a, whole, v, s1, t);
    lemma_turned_is_reversed(meaning::at(v, f), frames as int, fr as int, d as int);
    assert(meaning::axes4(f1) == [1, d, fr, frames]);
    assert(meaning::axes3(t1) == [1, d, t.d1]);
    assert(index::size4(meaning::axes4(f1)) == d * fr * frames);
    assert(index::size3(meaning::axes3(t1)) == d * t.d1);
    resample4_means(
        a,
        whole,
        v,
        s2,
        f1,
        g.channel_downsampler,
        g.channel_downsampler_bias,
        ct.channel_downsampler,
        ct.channel_downsampler_bias,
    );
    resample3_means(
        a,
        whole,
        v,
        s3,
        t1,
        g.channel_downsampler_t,
        g.channel_downsampler_t_bias,
        ct.channel_downsampler_t,
        ct.channel_downsampler_t_bias,
    );
}

/// The transformer fits its inputs exactly: one batch, and as many channels as it works on.
pub open spec fn fits_exactly<T>(
    fs: [usize; 4],
    ts: [usize; 3],
    ct: &CrossDomainTransformer<T>,
) -> bool {
    &&& fs[0] == 1
    &&& ts[0] == 1
    &&& ct.layers@.len() == T_LAYERS
    &&& ct.layers_t@.len() == T_LAYERS
    &&& transformer::resampled_shape4(
        fs,
        &ct.channel_upsampler,
        &ct.channel_upsampler_bias,
    )[1] == ct.norm_in.dim
    &&& transformer::resampled_shape3(
        ts,
        &ct.channel_upsampler_t,
        &ct.channel_upsampler_t_bias,
    )[1] == ct.norm_in.dim
}

/// The transformer is the one of the processor.
#[verifier::spinoff_prover]
pub proof fn cross_domain_means<A: Arith>(
    a: &A,
    whole: Seq<Step>,
    v: Seq<Seq<A::T>>,
    s: Seq<Step>,
    freq: GpuTensor,
    time: GpuTensor,
    g: GpuCrossDomainTransformer,
    freq_pe: GpuTensor,
    time_pe: GpuTensor,
    ct: &CrossDomainTransformer<A::T>,
)
    requires
        meaning::unrounded(a),
        meaning::has_zero(a),
        meaning::runs(
            a,
            whole,
            v,
            gpu_transformer::cross_domain_steps(s, freq, time, g, freq_pe, time_pe),
        ),
        meaning::holds(v, freq),
        meaning::holds(v, time),
        freq.rank == 4,
        time.rank == 3,
        fits_exactly(meaning::axes4(freq), meaning::axes3(time), ct),
        weights::holds_transformer(v, g, *ct),
        embedding::is_embed_2d(
            a,
            ct.norm_in.dim as int,
            freq.d2 as int,
            freq.d3 as int,
            meaning::at(v, freq_pe),
        ),
        embedding::is_embed_1d(a, time.d2 as int, ct.norm_in.dim as int, meaning::at(v, time_pe)),
        transformer::cross_domain_ok(
            index::size4(meaning::axes4(freq)),
            meaning::axes4(freq),
            index::size3(meaning::axes3(time)),
            meaning::axes3(time),
            ct,
        ),
    ensures
        went_both(
            whole,
            v,
            s,
            gpu_transformer::cross_domain_steps(s, freq, time, g, freq_pe, time_pe),
        ),
        ({
            let r = gpu_transformer::cross_domain_steps(s, freq, time, g, freq_pe, time_pe)->Ok_0.1;
            &&& r.0.rank == 4
            &&& r.1.rank == 3
            &&& meaning::axes4(r.0) == transformer::freq_out_shape(meaning::axes4(freq), ct)
            &&& meaning::axes3(r.1) == transformer::time_out_shape(meaning::axes3(time), ct)
            &&& transformer::is_cross_domain(
                a,
                meaning::at(v, freq),
                meaning::axes4(freq),
                meaning::at(v, time),
                meaning::axes3(time),
                ct,
                meaning::at(v, r.0),
                meaning::at(v, r.1),
            )
        }),
{
    reveal(gpu_transformer::cross_domain_steps);
    reveal(transformer::cross_domain_ok);
    growth::cross_domain_grows(s, freq, time, g, freq_pe, time_pe);
    let fs = meaning::axes4(freq);
    let ts = meaning::axes3(time);
    let d = ct.norm_in.dim;
    let tf = (freq.d3 * freq.d2) as usize;
    let b1 = gpu_transformer::sequences_steps(s, freq, time, g);
    growth::sequences_grows(s, freq, time, g);
    let (s1, (f1, t1)) = b1->Ok_0;
    let b2 = gpu_transformer::embedded_steps(s1, f1, t1, tf, time.d2, g, freq_pe, time_pe);
    growth::embedded_grows(s1, f1, t1, tf, time.d2, g, freq_pe, time_pe);
    let (s2, (f2, t2)) = b2->Ok_0;
    let b3 = gpu_transformer::layers_steps_from(s2, f2, t2, g.layers@, g.layers_t@, 0);
    growth::layers_grows(s2, f2, t2, g.layers@, g.layers_t@, 0);
    let (s3, (f3, t3)) = b3->Ok_0;
    let b4 = gpu_transformer::planes_steps(s3, f3, t3, freq.d2, freq.d3, g);
    growth::planes_grows(s3, f3, t3, freq.d2, freq.d3, g);
    growth::lemma_inside(s3, b4->Ok_0.0, whole);
    growth::lemma_inside(s2, b3->Ok_0.0, whole);
    growth::lemma_inside(s1, b2->Ok_0.0, whole);
    let (fu, tu) = sequences_means(a, whole, v, s, freq, time, g, ct);
    let (fnorm, tnorm) = embedded_means(a, whole, v, s1, f1, t1, g, freq_pe, time_pe, ct);
    assert(meaning::axes3(f2) == transformer::freq_seq_shape(fs, d));
    assert(meaning::axes3(t2) == transformer::time_seq_shape(ts, d));
    assert(f2.d0 == 1 && f2.d1 == tf && f2.d2 == d
        && t2.d0 == 1 && t2.d1 == time.d2 && t2.d2 == d) by {
        let e = meaning::axes3(f2);
        let h = meaning::axes3(t2);
        assert(e[0] == f2.d0 && e[1] == f2.d1 && e[2] == f2.d2);
        assert(h[0] == t2.d0 && h[1] == t2.d1 && h[2] == t2.d2);
    }
    assert(weights::holds_transformer_layers(
        v,
        g.layers@,
        ct.layers@,
    ) && weights::holds_transformer_layers(v, g.layers_t@, ct.layers_t@)) by {
        reveal(weights::holds_transformer);
    }
    let trace = layers_from_means(a, whole, v, s2, f2, t2, g, ct, 0);
    assert(f3.d0 == 1 && f3.d1 == tf && f3.d2 == d
        && t3.d0 == 1 && t3.d1 == time.d2 && t3.d2 == d) by {
        let e = meaning::axes3(f3);
        let h = meaning::axes3(t3);
        assert(e[0] == f3.d0 && e[1] == f3.d1 && e[2] == f3.d2);
        assert(h[0] == t3.d0 && h[1] == t3.d1 && h[2] == t3.d2);
    }
    planes_means(a, whole, v, s3, f3, t3, freq.d2, freq.d3, g, ct);
    assert(transformer::is_freq_input(a, meaning::at(v, freq), fs, ct, meaning::at(v, f2))) by {
        reveal(transformer::is_freq_input);
    }
    assert(transformer::is_time_input(a, meaning::at(v, time), ts, ct, meaning::at(v, t2))) by {
        reveal(transformer::is_time_input);
    }
    assert(transformer::is_layer_trace(
        a,
        meaning::at(v, f2),
        transformer::freq_seq_shape(fs, d),
        meaning::at(v, t2),
        transformer::time_seq_shape(ts, d),
        ct,
        trace,
    )) by {
        assert forall|i: int|
            #![trigger trace[i]]
            0 <= i < trace.len() implies transformer::is_layer_pair(
            a,
            transformer::state_before(meaning::at(v, f2), meaning::at(v, t2), trace, i).0,
            transformer::freq_seq_shape(fs, d),
            transformer::state_before(meaning::at(v, f2), meaning::at(v, t2), trace, i).1,
            transformer::time_seq_shape(ts, d),
            &ct.layers@[i],
            &ct.layers_t@[i],
            trace[i].0,
            trace[i].1,
        ) by {
            assert(0 + i == i);
        }
    }
    let fo = meaning::at(v, b4->Ok_0.1.0);
    let to = meaning::at(v, b4->Ok_0.1.1);
    assert(transformer::is_cross_domain_traced(
        a,
        meaning::at(v, freq),
        fs,
        meaning::at(v, time),
        ts,
        ct,
        trace,
        fo,
        to,
    )) by {
        reveal(transformer::is_cross_domain_traced);
    }
    reveal(transformer::is_cross_domain);
}

} // verus!
