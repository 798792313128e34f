//! Attention, and the layers of the transformer.
use vstd::prelude::*;
use crate::cuda_ops::elementwise;
use crate::cuda_ops::layout;
use crate::cuda_ops::matmul;
use crate::error::DemucsError;
use crate::gpu_model;
use crate::gpu_model::GpuBias;
use crate::gpu_model::GpuCrossAttnLayer;
use crate::gpu_model::GpuGroupNorm1;
use crate::gpu_model::GpuLayerNorm1;
use crate::gpu_model::GpuLayerScale;
use crate::gpu_model::GpuMhaWeights;
use crate::gpu_model::GpuSelfAttnLayer;
use crate::gpu_model::GpuWeight2D;
use crate::gpu_tensor;
use crate::gpu_tensor::Built;
use crate::gpu_tensor::GpuTensor;
use crate::program::Factor;
use crate::program;
use crate::program::Program;
use crate::program::Step;
use crate::program::LIMIT;
use crate::text;

verus! {

/// The steps of [`heads`].
#[verifier::opaque]
pub open spec fn heads_steps(
    s: Seq<Step>,
    x: GpuTensor,
    w: GpuWeight2D,
    bias: GpuBias,
    b: usize,
    n: usize,
    d: usize,
    h: usize,
) -> Built<GpuTensor> {
    match matmul::linear_steps(s, x, w, bias) {
        Err(e) => Err(e),
        Ok((s, y)) => match gpu_tensor::as_tensor3(y.data, b, n, d) {
            Err(e) => Err(e),
            Ok(y) => layout::permute_bsd_to_bhsd_steps(s, y, h, d / h),
        },
    }
}

/// Projects the tensor and divides the result into heads: `[b * h, n, d / h]`.
fn heads(
    p: &mut Program,
    x: GpuTensor,
    w: &GpuWeight2D,
    bias: &GpuBias,
    b: usize,
    n: usize,
    d: usize,
    h: usize,
) -> (r: Result<GpuTensor, DemucsError>)
    requires
        h > 0,
        program::program_ok(old(p)@),
        gpu_tensor::tensor_ok(old(p)@, x),
        gpu_tensor::buffer_ok(old(p)@, w.data),
        gpu_tensor::buffer_ok(old(p)@, bias.data),
    ensures
        elementwise::good(
            old(p)@,
            heads_steps(old(p)@, x, *w, *bias, b, n, d, h),
            r,
            final(p)@,
        ),
        r is Ok ==> r->Ok_0.rank == 3,
{
    proof {
        reveal(heads_steps);
    }
    let y: GpuTensor = matmul::linear_with_bias(p, x, w, bias)?;
    let y: GpuTensor = GpuTensor::new3(y.data, b, n, d)?;
    layout::permute_bsd_to_bhsd(p, y, h, d / h)
}

/// The steps of [`row_major_batch`].
#[verifier::opaque]
pub open spec fn row_major_batch_steps(
    s: Seq<Step>,
    x: GpuTensor,
    y: GpuTensor,
) -> Built<GpuTensor> {
    match (gpu_tensor::size2(y.d1, y.d2), gpu_tensor::size2(x.d1, x.d2)) {
        (Some(plane_y), Some(plane_x)) => match matmul::batched_steps(
            s,
            y.data,
            x.data,
            x.d0,
            y.d2,
            x.d1,
            x.d2,
            y.d2,
            x.d2,
            plane_y,
            plane_x,
        ) {
            Err(e) => Err(e),
            Ok((s, g)) => match gpu_tensor::as_tensor3(g.data, x.d0, x.d1, y.d2) {
                Err(e) => Err(e),
                Ok(t) => Ok((s, t)),
            },
        },
        _ => Err(gpu_tensor::too_large()),
    }
}

/// Multiplies each plane of `[batch, m, k]` in `x` by that of `[batch, k, n]` in `y`, all
/// row-major. As for a single product the operands change places.
fn row_major_batch(
    p: &mut Program,
    x: GpuTensor,
    y: GpuTensor,
) -> (r: Result<GpuTensor, DemucsError>)
    requires
        program::program_ok(old(p)@),
        gpu_tensor::tensor_ok(old(p)@, x),
        gpu_tensor::tensor_ok(old(p)@, y),
    ensures
        elementwise::good(old(p)@, row_major_batch_steps(old(p)@, x, y), r, final(p)@),
        r is Ok ==> r->Ok_0.rank == 3,
        r is Ok ==> r->Ok_0.d0 == x.d0 && r->Ok_0.d1 == x.d1 && r->Ok_0.d2 == y.d2,
{
    proof {
        reveal(row_major_batch_steps);
    }
    let plane_y: usize = match gpu_tensor::count2(y.d1, y.d2) {
        Some(n) => n,
        None => {
            return Err(gpu_tensor::large());
        },
    };
    let plane_x: usize = match gpu_tensor::count2(x.d1, x.d2) {
        Some(n) => n,
        None => {
            return Err(gpu_tensor::large());
        },
    };
    let g: GpuTensor = matmul::gemm_strided_batched_f16(
        p,
        y.data,
        x.data,
        x.d0,
        y.d2,
        x.d1,
        x.d2,
        y.d2,
        x.d2,
        plane_y,
        plane_x,
    )?;
    GpuTensor::new3(g.data, x.d0, x.d1, y.d2)
}

/// Every product of such a batch is the one that a single row-major product asks for, at the
/// planes of its batch.
pub proof fn batch_of_row_major(
    x: GpuTensor,
    y: GpuTensor,
    plane: usize,
    plane_y: usize,
    plane_x: usize,
)
    ensures
        ({
            let g = matmul::batched_call(
                y.data,
                x.data,
                x.d0,
                y.d2,
                x.d1,
                x.d2,
                y.d2,
                x.d2,
                plane_y,
                plane_x,
                plane,
            );
            g.gemm == matmul::row_major(x.data, y.data, x.d1, y.d2, x.d2)
        }),
{
}

/// The steps of [`attend`].
#[verifier::opaque]
pub open spec fn attend_steps(
    s: Seq<Step>,
    q: GpuTensor,
    k: GpuTensor,
    v: GpuTensor,
    b: usize,
    d_head: usize,
) -> Built<GpuTensor> {
    match layout::permute_bhsd_to_bhds_steps(s, k) {
        Err(e) => Err(e),
        Ok((s, kt)) => match row_major_batch_steps(s, q, kt) {
            Err(e) => Err(e),
            Ok((s, scores)) => match elementwise::softmax_steps(
                s,
                scores,
                Factor::InverseRoot(d_head),
            ) {
                Err(e) => Err(e),
                Ok((s, weights)) => match row_major_batch_steps(s, weights, v) {
                    Err(e) => Err(e),
                    Ok((s, y)) => layout::permute_bhsd_to_bsd_steps(s, y, b),
                },
            },
        },
    }
}

/// The attention of each head: the scores of the queries with the keys, their softmax, and the
/// values weighted by it. From heads back to `[b, s, d]`.
fn attend(p: &mut Program, q: GpuTensor, k: GpuTensor, v: GpuTensor, b: usize, d_head: usize) -> (r: Result<
    GpuTensor,
    DemucsError,
>)
    requires
        program::program_ok(old(p)@),
        gpu_tensor::tensor_ok(old(p)@, q),
        gpu_tensor::tensor_ok(old(p)@, k),
        gpu_tensor::tensor_ok(old(p)@, v),
        q.rank == 3,
        k.rank == 3,
        v.rank == 3,
        b <= LIMIT,
    ensures
        elementwise::good(old(p)@, attend_steps(old(p)@, q, k, v, b, d_head), r, final(p)@),
        r is Ok ==> r->Ok_0.rank == 3,
{
    proof {
        reveal(attend_steps);
    }
    let kt: GpuTensor = layout::permute_bhsd_to_bhds(p, k)?;
    let scores: GpuTensor = row_major_batch(p, q, kt)?;
    let weights: GpuTensor = elementwise::softmax_scaled(
        p,
        scores,
        Factor::InverseRoot(d_head),
    )?;
    let y: GpuTensor = row_major_batch(p, weights, v)?;
    layout::permute_bhsd_to_bsd(p, y, b)
}

/// The steps of [`mha`].
#[verifier::opaque]
pub open spec fn mha_steps(s: Seq<Step>, q: GpuTensor, kv: GpuTensor, attn: GpuMhaWeights) -> Built<
    GpuTensor,
> {
    let d = attn.d_model;
    let h = attn.n_heads;
    if h == 0 || d % h != 0 {
        Err(
            "mha: d="@ + text::decimal_text(d as nat) + " not divisible by h="@
                + text::decimal_text(h as nat),
        )
    } else {
        match heads_steps(s, q, attn.q_w, attn.q_b, q.d0, q.d1, d, h) {
            Err(e) => Err(e),
            Ok((s, qh)) => match heads_steps(s, kv, attn.k_w, attn.k_b, q.d0, kv.d1, d, h) {
                Err(e) => Err(e),
                Ok((s, kh)) => match heads_steps(s, kv, attn.v_w, attn.v_b, q.d0, kv.d1, d, h) {
                    Err(e) => Err(e),
                    Ok((s, vh)) => match attend_steps(s, qh, kh, vh, q.d0, d / h) {
                        Err(e) => Err(e),
                        Ok((s, y)) => match matmul::linear_steps(
                            s,
                            y,
                            attn.out_proj_w,
                            attn.out_proj_b,
                        ) {
                            Err(e) => Err(e),
                            Ok((s, out)) => match gpu_tensor::as_tensor3(out.data, q.d0, q.d1, d) {
                                Err(e) => Err(e),
                                Ok(t) => Ok((s, t)),
                            },
                        },
                    },
                },
            },
        }
    }
}

/// Multi-head attention of the queries `[b, s_q, d]` to the keys and values `[b, s_k, d]`.
pub fn mha(p: &mut Program, q_in: GpuTensor, kv_in: GpuTensor, attn: &GpuMhaWeights) -> (r: Result<
    GpuTensor,
    DemucsError,
>)
    requires
        program::program_ok(old(p)@),
        gpu_tensor::tensor_ok(old(p)@, q_in),
        gpu_tensor::tensor_ok(old(p)@, kv_in),
        q_in.rank == 3,
        kv_in.rank == 3,
        gpu_model::mha_ok(old(p)@, *attn),
    ensures
        elementwise::good(old(p)@, mha_steps(old(p)@, q_in, kv_in, *attn), r, final(p)@),
        r is Ok ==> r->Ok_0.rank == 3,
{
    proof {
        reveal(mha_steps);
    }
    let d: usize = attn.d_model;
    let h: usize = attn.n_heads;
    if h == 0 || d % h != 0 {
        let m: String = text::more_number("mha: d=".to_owned(), d);
        let m: String = text::more_number(text::more(m, " not divisible by h="), h);
        return Err(DemucsError::Shape(m));
    }
    let (b, s_q, s_k): (usize, usize, usize) = (q_in.d0, q_in.d1, kv_in.d1);
    let q: GpuTensor = heads(p, q_in, &attn.q_w, &attn.q_b, b, s_q, d, h)?;
    let k: GpuTensor = heads(p, kv_in, &attn.k_w, &attn.k_b, b, s_k, d, h)?;
    let v: GpuTensor = heads(p, kv_in, &attn.v_w, &attn.v_b, b, s_k, d, h)?;
    let y: GpuTensor = attend(p, q, k, v, b, d / h)?;
    let out: GpuTensor = matmul::linear_with_bias(p, y, &attn.out_proj_w, &attn.out_proj_b)?;
    GpuTensor::new3(out.data, b, s_q, d)
}

/// The steps of [`feed_forward`].
#[verifier::opaque]
pub open spec fn feed_forward_steps(
    s: Seq<Step>,
    x: GpuTensor,
    norm: GpuLayerNorm1,
    linear1: GpuWeight2D,
    bias1: GpuBias,
    linear2: GpuWeight2D,
    bias2: GpuBias,
    gamma: GpuLayerScale,
    outer: usize,
) -> Built<GpuTensor> {
    match elementwise::layer_norm_steps(s, x, norm, outer, x.d2) {
        Err(e) => Err(e),
        Ok((s, n)) => match matmul::linear_steps(s, n, linear1, bias1) {
            Err(e) => Err(e),
            Ok((s, h)) => match elementwise::gelu_steps(s, h) {
                Err(e) => Err(e),
                Ok((s, h)) => match matmul::linear_steps(s, h, linear2, bias2) {
                    Err(e) => Err(e),
                    Ok((s, h)) => match elementwise::layer_scale_last_steps(s, h, gamma) {
                        Err(e) => Err(e),
                        Ok((s, h)) => elementwise::add_to_steps(s, x, h),
                    },
                },
            },
        },
    }
}

/// Adds to the tensor what two linear layers with a GELU between them make of it.
fn feed_forward(
    p: &mut Program,
    x: GpuTensor,
    norm: &GpuLayerNorm1,
    linear1: &GpuWeight2D,
    bias1: &GpuBias,
    linear2: &GpuWeight2D,
    bias2: &GpuBias,
    gamma: &GpuLayerScale,
    outer: usize,
) -> (r: Result<GpuTensor, DemucsError>)
    requires
        program::program_ok(old(p)@),
        gpu_tensor::tensor_ok(old(p)@, x),
        x.rank == 3,
        gpu_model::layer_norm_ok(old(p)@, *norm),
        gpu_tensor::buffer_ok(old(p)@, linear1.data),
        gpu_tensor::buffer_ok(old(p)@, bias1.data),
        gpu_tensor::buffer_ok(old(p)@, linear2.data),
        gpu_tensor::buffer_ok(old(p)@, bias2.data),
        gpu_tensor::buffer_ok(old(p)@, gamma.scale),
    ensures
        elementwise::good(
            old(p)@,
            feed_forward_steps(
                old(p)@,
                x,
                *norm,
                *linear1,
                *bias1,
                *linear2,
                *bias2,
                *gamma,
                outer,
            ),
            r,
            final(p)@,
        ),
        r is Ok ==> r->Ok_0.rank == 3,
{
    proof {
        reveal(feed_forward_steps);
    }
    let n: GpuTensor = elementwise::layer_norm(p, x, norm, outer, x.d2)?;
    let h: GpuTensor = matmul::linear_with_bias(p, n, linear1, bias1)?;
    let h: GpuTensor = elementwise::gelu_inplace(p, h)?;
    let h: GpuTensor = matmul::linear_with_bias(p, h, linear2, bias2)?;
    let h: GpuTensor = elementwise::layer_scale_last_inplace(p, h, gamma)?;
    elementwise::add_to(p, x, h)
}

/// The steps of [`norm_over_all`].
#[verifier::opaque]
pub open spec fn norm_over_all_steps(
    s: Seq<Step>,
    x: GpuTensor,
    norm: GpuGroupNorm1,
) -> Built<GpuTensor> {
    match layout::swap_dims_12_3d_steps(s, x) {
        Err(e) => Err(e),
        Ok((s, y)) => match elementwise::groupnorm1_steps(s, y, norm) {
            Err(e) => Err(e),
            Ok((s, y)) => layout::swap_dims_12_3d_steps(s, y),
        },
    }
}

/// Normalizes each batch of `[b, s, d]` over positions and features together.
fn norm_over_all(p: &mut Program, x: GpuTensor, norm: &GpuGroupNorm1) -> (r: Result<
    GpuTensor,
    DemucsError,
>)
    requires
        program::program_ok(old(p)@),
        gpu_tensor::tensor_ok(old(p)@, x),
        x.rank == 3,
        gpu_model::group_norm_ok(old(p)@, *norm),
    ensures
        elementwise::good(old(p)@, norm_over_all_steps(old(p)@, x, *norm), r, final(p)@),
        r is Ok ==> r->Ok_0.rank == 3,
{
    proof {
        reveal(norm_over_all_steps);
    }
    let y: GpuTensor = layout::swap_dims_12_3d(p, x)?;
    let y: GpuTensor = elementwise::groupnorm1_inplace(p, y, norm)?;
    layout::swap_dims_12_3d(p, y)
}

/// The steps of [`normed`].
#[verifier::opaque]
pub open spec fn normed_steps(
    s: Seq<Step>,
    x: GpuTensor,
    norm: GpuLayerNorm1,
    outer: usize,
    b: usize,
    n: usize,
    d: usize,
) -> Built<GpuTensor> {
    match elementwise::layer_norm_steps(s, x, norm, outer, d) {
        Err(e) => Err(e),
        Ok((s, y)) => match gpu_tensor::as_tensor3(y.data, b, n, d) {
            Err(e) => Err(e),
            Ok(t) => Ok((s, t)),
        },
    }
}

/// Normalizes the last axis, and gives the result as `[b, n, d]`.
pub fn normed(
    p: &mut Program,
    x: GpuTensor,
    norm: &GpuLayerNorm1,
    outer: usize,
    b: usize,
    n: usize,
    d: usize,
) -> (r: Result<GpuTensor, DemucsError>)
    requires
        program::program_ok(old(p)@),
        gpu_tensor::tensor_ok(old(p)@, x),
        gpu_model::layer_norm_ok(old(p)@, *norm),
    ensures
        elementwise::good(
            old(p)@,
            normed_steps(old(p)@, x, *norm, outer, b, n, d),
            r,
            final(p)@,
        ),
        r is Ok ==> r->Ok_0.rank == 3,
{
    proof {
        reveal(normed_steps);
    }
    let y: GpuTensor = elementwise::layer_norm(p, x, norm, outer, d)?;
    GpuTensor::new3(y.data, b, n, d)
}

/// The steps of [`attention_block`].
#[verifier::opaque]
pub open spec fn attention_block_steps(
    s: Seq<Step>,
    x: GpuTensor,
    q: GpuTensor,
    kv: GpuTensor,
    attn: GpuMhaWeights,
    gamma: GpuLayerScale,
) -> Built<GpuTensor> {
    match mha_steps(s, q, kv, attn) {
        Err(e) => Err(e),
        Ok((s, y)) => match elementwise::layer_scale_last_steps(s, y, gamma) {
            Err(e) => Err(e),
            Ok((s, y)) => elementwise::add_to_steps(s, x, y),
        },
    }
}

/// Adds the scaled attention of `q` to `kv` to `x`.
fn attention_block(
    p: &mut Program,
    x: GpuTensor,
    q: GpuTensor,
    kv: GpuTensor,
    attn: &GpuMhaWeights,
    gamma: &GpuLayerScale,
) -> (r: Result<GpuTensor, DemucsError>)
    requires
        program::program_ok(old(p)@),
        gpu_tensor::tensor_ok(old(p)@, x),
        gpu_tensor::tensor_ok(old(p)@, q),
        gpu_tensor::tensor_ok(old(p)@, kv),
        x.rank == 3,
        q.rank == 3,
        kv.rank == 3,
        gpu_model::mha_ok(old(p)@, *attn),
        gpu_tensor::buffer_ok(old(p)@, gamma.scale),
    ensures
        elementwise::good(
            old(p)@,
            attention_block_steps(old(p)@, x, q, kv, *attn, *gamma),
            r,
            final(p)@,
        ),
        r is Ok ==> r->Ok_0.rank == 3 && r->Ok_0.d2 == x.d2,
{
    proof {
        reveal(attention_block_steps);
    }
    let y: GpuTensor = mha(p, q, kv, attn)?;
    let y: GpuTensor = elementwise::layer_scale_last_inplace(p, y, gamma)?;
    elementwise::add_to(p, x, y)
}

/// The steps of [`self_attn_layer`].
#[verifier::opaque]
pub open spec fn self_attn_steps(
    s: Seq<Step>,
    x: GpuTensor,
    layer: GpuSelfAttnLayer,
) -> Built<GpuTensor> {
    match gpu_tensor::size2(x.d0, x.d1) {
        None => Err(gpu_tensor::too_large()),
        Some(outer) => match normed_steps(s, x, layer.norm1, outer, x.d0, x.d1, x.d2) {
            Err(e) => Err(e),
            Ok((s, n)) => match attention_block_steps(s, x, n, n, layer.attn, layer.gamma_1) {
                Err(e) => Err(e),
                Ok((s, y)) => match feed_forward_steps(
                    s,
                    y,
                    layer.norm2,
                    layer.linear1,
                    layer.linear1_bias,
                    layer.linear2,
                    layer.linear2_bias,
                    layer.gamma_2,
                    outer,
                ) {
                    Err(e) => Err(e),
                    Ok((s, y)) => norm_over_all_steps(s, y, layer.norm_out),
                },
            },
        },
    }
}

/// Transformer layer in which `[b, s, d]` attends to itself.
pub fn self_attn_layer(p: &mut Program, x: GpuTensor, layer: &GpuSelfAttnLayer) -> (r: Result<
    GpuTensor,
    DemucsError,
>)
    requires
        program::program_ok(old(p)@),
        gpu_tensor::tensor_ok(old(p)@, x),
        x.rank == 3,
        gpu_model::self_attn_ok(old(p)@, *layer),
    ensures
        elementwise::good(old(p)@, self_attn_steps(old(p)@, x, *layer), r, final(p)@),
        r is Ok ==> r->Ok_0.rank == 3,
{
    proof {
        reveal(self_attn_steps);
    }
    let outer: usize = match gpu_tensor::count2(x.d0, x.d1) {
        Some(n) => n,
        None => {
            return Err(gpu_tensor::large());
        },
    };
    let n: GpuTensor = normed(p, x, &layer.norm1, outer, x.d0, x.d1, x.d2)?;
    let y: GpuTensor = attention_block(p, x, n, n, &layer.attn, &layer.gamma_1)?;
    let y: GpuTensor = feed_forward(
        p,
        y,
        &layer.norm2,
        &layer.linear1,
        &layer.linear1_bias,
        &layer.linear2,
        &layer.linear2_bias,
        &layer.gamma_2,
        outer,
    )?;
    norm_over_all(p, y, &layer.norm_out)
}

/// The steps of [`cross_attn_layer`].
#[verifier::opaque]
pub open spec fn cross_attn_steps(
    s: Seq<Step>,
    query: GpuTensor,
    cross: GpuTensor,
    layer: GpuCrossAttnLayer,
) -> Built<GpuTensor> {
    if query.d2 == 0 {
        Err("cross_attn_layer: no features"@)
    } else {
        match gpu_tensor::size2(query.d0, query.d1) {
            None => Err(gpu_tensor::too_large()),
            Some(outer) => match normed_steps(
                s,
                query,
                layer.norm1,
                outer,
                query.d0,
                query.d1,
                query.d2,
            ) {
                Err(e) => Err(e),
                Ok((s, q)) => match normed_steps(
                    s,
                    cross,
                    layer.norm2,
                    cross.data.len / query.d2,
                    query.d0,
                    cross.d1,
                    query.d2,
                ) {
                    Err(e) => Err(e),
                    Ok((s, kv)) => match attention_block_steps(
                        s,
                        query,
                        q,
                        kv,
                        layer.attn,
                        layer.gamma_1,
                    ) {
                        Err(e) => Err(e),
                        Ok((s, y)) => match feed_forward_steps(
                            s,
                            y,
                            layer.norm3,
                            layer.linear1,
                            layer.linear1_bias,
                            layer.linear2,
                            layer.linear2_bias,
                            layer.gamma_2,
                            outer,
                        ) {
                            Err(e) => Err(e),
                            Ok((s, y)) => norm_over_all_steps(s, y, layer.norm_out),
                        },
                    },
                },
            },
        }
    }
}

/// Transformer layer in which `[b, s_q, d]` attends to `[b, s_k, d]`.
pub fn cross_attn_layer(p: &mut Program, query: GpuTensor, cross: GpuTensor, layer: &GpuCrossAttnLayer) -> (r: Result<
    GpuTensor,
    DemucsError,
>)
    requires
        program::program_ok(old(p)@),
        gpu_tensor::tensor_ok(old(p)@, query),
        gpu_tensor::tensor_ok(old(p)@, cross),
        query.rank == 3,
        cross.rank == 3,
        gpu_model::cross_attn_ok(old(p)@, *layer),
    ensures
        elementwise::good(old(p)@, cross_attn_steps(old(p)@, query, cross, *layer), r, final(p)@),
        r is Ok ==> r->Ok_0.rank == 3,
{
    proof {
        reveal(cross_attn_steps);
    }
    let d: usize = query.d2;
    if d == 0 {
        return Err(DemucsError::Shape("cross_attn_layer: no features".to_owned()));
    }
    let outer: usize = match gpu_tensor::count2(query.d0, query.d1) {
        Some(n) => n,
        None => {
            return Err(gpu_tensor::large());
        },
    };
    let outer_k: usize = cross.data.len / d;
    let q: GpuTensor = normed(p, query, &layer.norm1, outer, query.d0, query.d1, d)?;
    let kv: GpuTensor = normed(p, cross, &layer.norm2, outer_k, query.d0, cross.d1, d)?;
    let y: GpuTensor = attention_block(p, query, q, kv, &layer.attn, &layer.gamma_1)?;
    let y: GpuTensor = feed_forward(
        p,
        y,
        &layer.norm3,
        &layer.linear1,
        &layer.linear1_bias,
        &layer.linear2,
        &layer.linear2_bias,
        &layer.gamma_2,
        outer,
    )?;
    norm_over_all(p, y, &layer.norm_out)
}

} // verus!
