//! Operators write behind what is there.
use vstd::prelude::*;
use crate::cuda_ops::attention;
use crate::cuda_ops::conv;
use crate::cuda_ops::elementwise;
use crate::cuda_ops::forward;
use crate::cuda_ops::layers;
use crate::cuda_ops::layout;
use crate::cuda_ops::matmul;
use crate::cuda_ops::transformer;
use crate::gpu_model::GpuBias;
use crate::gpu_model::GpuConv1dWeight;
use crate::gpu_model::GpuConv2dWeight;
use crate::gpu_model::GpuConvTranspose1dWeight;
use crate::gpu_model::GpuConvTranspose2dWeight;
use crate::gpu_model::GpuCrossAttnLayer;
use crate::gpu_model::GpuCrossDomainTransformer;
use crate::gpu_model::GpuDConv;
use crate::gpu_model::GpuDConvLayer;
use crate::gpu_model::GpuGroupNorm1;
use crate::gpu_model::GpuHDecLayer;
use crate::gpu_model::GpuHEncLayer;
use crate::gpu_model::GpuHTDemucs;
use crate::gpu_model::GpuLayerNorm1;
use crate::gpu_model::GpuLayerScale;
use crate::gpu_model::GpuMhaWeights;
use crate::gpu_model::GpuSelfAttnLayer;
use crate::gpu_model::GpuTDecLayer;
use crate::gpu_model::GpuTEncLayer;
use crate::gpu_model::GpuTransformerLayerWeights;
use crate::gpu_model::GpuWeight2D;
use crate::gpu_tensor;
use crate::gpu_tensor::Built;
use crate::gpu_tensor::GpuBuffer;
use crate::gpu_tensor::GpuTensor;
use crate::program::Factor;
use crate::program;
use crate::program::Ints;
use crate::program::Kernel;
use crate::program::Step;

verus! {

/// What was built goes on from the program `s`.
pub open spec fn grows<R>(s: Seq<Step>, b: Built<R>) -> bool {
    b is Ok ==> program::extends(s, b->Ok_0.0)
}

/// What goes on from a program that goes on from `s`, goes on from `s`.
pub proof fn lemma_link<R>(s: Seq<Step>, t: Seq<Step>, b: Built<R>)
    ensures
        program::extends(s, t) && grows(t, b) ==> grows(s, b),
{
    if program::extends(s, t) && grows(t, b) && b is Ok {
        let u = b->Ok_0.0;
        assert forall|i: int| 0 <= i < s.len() implies #[trigger] u[i] == s[i] by {
            assert(t[i] == s[i]);
        }
    }
}

/// A part of a part of the whole program.
pub proof fn lemma_inside(s: Seq<Step>, t: Seq<Step>, whole: Seq<Step>)
    requires
        program::extends(s, t),
        program::extends(t, whole),
    ensures
        program::extends(s, whole),
{
    assert forall|i: int| 0 <= i < s.len() implies #[trigger] whole[i] == s[i] by {
        assert(t[i] == s[i]);
    }
}

/// A linear layer.
pub proof fn linear_grows(s: Seq<Step>, x: GpuTensor, w: GpuWeight2D, bias: GpuBias)
    ensures
        grows(s, matmul::linear_steps(s, x, w, bias)),
{
    let b1 = matmul::gemm_steps(s, x.data, w.data, x.data.len / w.rows, w.cols, w.rows);
    let (s1, g) = b1->Ok_0;
    let b2 = matmul::add_bias_steps(s1, g, bias.data);
    lemma_link(s, s1, b2);
}

/// Patches multiplied by weights.
pub proof fn project_grows(
    s: Seq<Step>,
    col: GpuBuffer,
    w: GpuBuffer,
    bias: GpuBuffer,
    patch: usize,
    b: usize,
    c_out: usize,
    h: usize,
    width: usize,
)
    ensures
        grows(s, matmul::project_steps(s, col, w, bias, patch, b, c_out, h, width)),
{
    let b1 = matmul::gemm_steps(s, col, w, (b * h * width) as usize, c_out, patch);
    lemma_link(s, b1->Ok_0.0, matmul::project_steps(s, col, w, bias, patch, b, c_out, h, width));
}

/// A convolution.
pub proof fn conv_grows(
    s: Seq<Step>,
    kernel: Kernel,
    x: GpuBuffer,
    ints: Ints,
    taps: usize,
    w: GpuBuffer,
    bias: GpuBuffer,
    b: usize,
    c_in: usize,
    c_out: usize,
    h: usize,
    width: usize,
)
    ensures
        grows(s, conv::conv_steps(s, kernel, x, ints, taps, w, bias, b, c_in, c_out, h, width)),
{
    let b1 = matmul::unfold_steps(
        s,
        kernel,
        x,
        ints,
        (b * h * width) as usize,
        (c_in * taps) as usize,
    );
    let (s1, col) = b1->Ok_0;
    let b2 = matmul::project_steps(
        s1,
        col.data,
        w,
        bias,
        (c_in * taps) as usize,
        b,
        c_out,
        h,
        width,
    );
    project_grows(s1, col.data, w, bias, (c_in * taps) as usize, b, c_out, h, width);
    lemma_link(s, s1, b2);
}

/// The convolution with one tap.
pub proof fn conv1d_k1_grows(s: Seq<Step>, x: GpuTensor, w: GpuConv1dWeight, bias: GpuBias)
    ensures
        grows(s, conv::conv1d_k1_steps(s, x, w, bias)),
{
    conv_grows(
        s,
        Kernel::Im2col1dK1,
        x.data,
        program::ints3(x.d0, x.d1, x.d2),
        1,
        w.data,
        bias.data,
        x.d0,
        x.d1,
        w.out_ch,
        x.d2,
        1,
    );
}

/// The dilated convolution with three taps.
pub proof fn conv1d_k3_dilation_grows(
    s: Seq<Step>,
    x: GpuTensor,
    w: GpuConv1dWeight,
    bias: GpuBias,
    dilation: usize,
)
    ensures
        grows(s, conv::conv1d_k3_dilation_steps(s, x, w, bias, dilation)),
{
    conv_grows(
        s,
        Kernel::Im2col1dK3Dilation,
        x.data,
        program::ints5(x.d0, x.d1, x.d2, x.d2, dilation),
        3,
        w.data,
        bias.data,
        x.d0,
        x.d1,
        w.out_ch,
        x.d2,
        1,
    );
}

/// The strided convolution of the time encoder.
pub proof fn conv1d_k8_s4p2_grows(s: Seq<Step>, x: GpuTensor, w: GpuConv1dWeight, bias: GpuBias)
    ensures
        grows(s, conv::conv1d_k8_s4p2_steps(s, x, w, bias)),
{
    conv_grows(
        s,
        Kernel::Im2col8S4P21d,
        x.data,
        program::ints4(x.d0, x.d1, x.d2, conv::quarter(x.d2 as int) as usize),
        8,
        w.data,
        bias.data,
        x.d0,
        x.d1,
        w.out_ch,
        conv::quarter(x.d2 as int) as usize,
        1,
    );
}

/// The strided convolution of the frequency encoder.
pub proof fn conv2d_8x1_s4p2_grows(s: Seq<Step>, x: GpuTensor, w: GpuConv2dWeight, bias: GpuBias)
    ensures
        grows(s, conv::conv2d_8x1_s4p2_steps(s, x, w, bias)),
{
    conv_grows(
        s,
        Kernel::Im2col8x1S4P2,
        x.data,
        program::ints6(x.d0, x.d1, x.d2, x.d3, (conv::quarter(x.d2 as int) * x.d3) as usize, x.d3),
        8,
        w.data,
        bias.data,
        x.d0,
        x.d1,
        w.out_ch,
        conv::quarter(x.d2 as int) as usize,
        x.d3,
    );
}

/// The convolution with three by three taps.
pub proof fn conv2d_3x3_s1p1_grows(s: Seq<Step>, x: GpuTensor, w: GpuConv2dWeight, bias: GpuBias)
    ensures
        grows(s, conv::conv2d_3x3_s1p1_steps(s, x, w, bias)),
{
    conv_grows(
        s,
        Kernel::Im2col3x3S1P1,
        x.data,
        program::ints6(x.d0, x.d1, x.d2, x.d3, x.d2, x.d3),
        9,
        w.data,
        bias.data,
        x.d0,
        x.d1,
        w.out_ch,
        x.d2,
        x.d3,
    );
}

/// The transposed convolution of the frequency decoder.
pub proof fn conv_transpose2d_8x1_s4p2_grows(
    s: Seq<Step>,
    x: GpuTensor,
    w: GpuConvTranspose2dWeight,
    bias: GpuBias,
)
    ensures
        grows(s, conv::conv_transpose2d_8x1_s4p2_steps(s, x, w, bias)),
{
    conv_grows(
        s,
        Kernel::Im2colConvTranspose8x1S4P2,
        x.data,
        program::ints8(x.d0, x.d1, x.d2, x.d3, conv::fourfold(x.d2 as int) as usize, x.d3, 2, 4),
        8,
        w.data,
        bias.data,
        x.d0,
        x.d1,
        w.out_ch,
        conv::fourfold(x.d2 as int) as usize,
        x.d3,
    );
}

/// The transposed convolution of the time decoder.
pub proof fn conv_transpose1d_8_s4p2_grows(
    s: Seq<Step>,
    x: GpuTensor,
    w: GpuConvTranspose1dWeight,
    bias: GpuBias,
)
    ensures
        grows(s, conv::conv_transpose1d_8_s4p2_steps(s, x, w, bias)),
{
    conv_grows(
        s,
        Kernel::Im2colConvTranspose8S4P21d,
        x.data,
        program::ints6(x.d0, x.d1, x.d2, conv::fourfold(x.d2 as int) as usize, 2, 4),
        8,
        w.data,
        bias.data,
        x.d0,
        x.d1,
        w.out_ch,
        conv::fourfold(x.d2 as int) as usize,
        1,
    );
}

/// The convolution with one by one taps.
pub proof fn conv2d_1x1_grows(s: Seq<Step>, x: GpuTensor, w: GpuConv2dWeight, bias: GpuBias)
    ensures
        grows(s, conv::conv2d_1x1_steps(s, x, w, bias)),
{
    let b1 = layout::transpose_bchw_to_bhwc_steps(s, x);
    let (s1, rows) = b1->Ok_0;
    let b2 = matmul::project_steps(
        s1,
        rows.data,
        w.data,
        bias.data,
        x.d1,
        x.d0,
        w.out_ch,
        x.d2,
        x.d3,
    );
    project_grows(s1, rows.data, w.data, bias.data, x.d1, x.d0, w.out_ch, x.d2, x.d3);
    lemma_link(s, s1, b2);
}

/// The convolution with one tap as a linear layer.
pub proof fn conv1d_1x1_grows(s: Seq<Step>, x: GpuTensor, w: GpuConv1dWeight, bias: GpuBias)
    ensures
        grows(s, conv::conv1d_1x1_steps(s, x, w, bias)),
{
    let b1 = layout::swap_dims_12_3d_steps(s, x);
    let (s1, rows) = b1->Ok_0;
    let b2 = matmul::gemm_steps(s1, rows.data, w.data, (x.d0 * x.d2) as usize, w.out_ch, x.d1);
    lemma_link(s, s1, b2);
    let (s2, g) = b2->Ok_0;
    let b3 = matmul::add_bias_steps(s2, g, bias.data);
    lemma_link(s, s2, b3);
    let (s3, y) = b3->Ok_0;
    let b4 = layout::swap_dims_12_3d_steps(
        s3,
        gpu_tensor::as_tensor3(y.data, x.d0, x.d2, w.out_ch)->Ok_0,
    );
    lemma_link(s, s3, b4);
}

/// A residual layer.
pub proof fn dconv_layer_grows(s: Seq<Step>, x: GpuTensor, l: GpuDConvLayer, dilation: usize)
    ensures
        grows(s, layers::dconv_layer_steps(s, x, l, dilation)),
{
    reveal(layers::dconv_layer_steps);
    let b1 = conv::conv1d_k3_dilation_steps(s, x, l.conv1, l.conv1_bias, dilation);
    conv1d_k3_dilation_grows(s, x, l.conv1, l.conv1_bias, dilation);
    let (s1, h1) = b1->Ok_0;
    let b2 = elementwise::groupnorm1_steps(s1, h1, l.norm1);
    lemma_link(s, s1, b2);
    let (s2, h2) = b2->Ok_0;
    let b3 = elementwise::gelu_steps(s2, h2);
    lemma_link(s, s2, b3);
    let (s3, h3) = b3->Ok_0;
    let b4 = conv::conv1d_k1_steps(s3, h3, l.conv2, l.conv2_bias);
    conv1d_k1_grows(s3, h3, l.conv2, l.conv2_bias);
    lemma_link(s, s3, b4);
    let (s4, h4) = b4->Ok_0;
    let b5 = elementwise::groupnorm1_steps(s4, h4, l.norm2);
    lemma_link(s, s4, b5);
    let (s5, h5) = b5->Ok_0;
    let b6 = elementwise::glu_channel_steps(s5, h5);
    lemma_link(s, s5, b6);
    let (s6, h6) = b6->Ok_0;
    let b7 = elementwise::layer_scale_steps(s6, h6, l.scale);
    lemma_link(s, s6, b7);
    let (s7, h7) = b7->Ok_0;
    let b8 = elementwise::add_to_steps(s7, h7, x);
    lemma_link(s, s7, b8);
}

/// Residual layers from the one at `j` on.
pub proof fn dconv_grows(s: Seq<Step>, x: GpuTensor, v: Seq<GpuDConvLayer>, j: int, dilation: usize)
    ensures
        grows(s, layers::dconv_steps_from(s, x, v, j, dilation)),
    decreases v.len() - j,
{
    if j < v.len() {
        let b1 = layers::dconv_layer_steps(s, x, v[j], dilation);
        dconv_layer_grows(s, x, v[j], dilation);
        let (s1, y) = b1->Ok_0;
        dconv_grows(s1, y, v, j + 1, (2 * dilation) as usize);
        lemma_link(s, s1, layers::dconv_steps_from(s1, y, v, j + 1, (2 * dilation) as usize));
    }
}

/// Gating planes.
pub proof fn flat_glu_grows(s: Seq<Step>, x: GpuTensor)
    ensures
        grows(s, layers::flat_glu_steps(s, x)),
{
    reveal(layers::flat_glu_steps);
}

/// Residual layers on each frequency.
pub proof fn dconv_per_frequency_grows(s: Seq<Step>, x: GpuTensor, d: GpuDConv)
    ensures
        grows(s, layers::dconv_per_frequency_steps(s, x, d)),
{
    reveal(layers::dconv_per_frequency_steps);
    let b1 = layout::reshape_bcft_to_bfct_steps(s, x);
    let (s1, rows) = b1->Ok_0;
    let b2 = layers::dconv_steps(s1, rows, d);
    dconv_grows(s1, rows, d.layers@, 0, 1);
    lemma_link(s, s1, b2);
    let (s2, y) = b2->Ok_0;
    let b3 = layout::reshape_bfct_to_bcft_steps(s2, y, x.d0);
    lemma_link(s, s2, b3);
}

/// Residual layers on each frequency of the decoder.
pub proof fn dconv_rows_grows(s: Seq<Step>, x: GpuTensor, d: GpuDConv)
    ensures
        grows(s, layers::dconv_rows_steps(s, x, d)),
{
    reveal(layers::dconv_rows_steps);
    let b1 = layout::reshape_bcft_to_bfct_steps(s, x);
    let (s1, rows) = b1->Ok_0;
    let b2 = layers::dconv_steps(s1, rows, d);
    dconv_grows(s1, rows, d.layers@, 0, 1);
    lemma_link(s, s1, b2);
    let (s2, y) = b2->Ok_0;
    let b3 = layout::reshape_bfct_to_bcft_steps(s2, y, x.d0);
    lemma_link(s, s2, b3);
}

/// A layer of the frequency encoder.
pub proof fn henc_grows(s: Seq<Step>, x: GpuTensor, l: GpuHEncLayer)
    ensures
        grows(s, layers::henc_layer_steps(s, x, l)),
{
    reveal(layers::henc_layer_steps);
    let b1 = conv::conv2d_8x1_s4p2_steps(s, x, l.conv, l.conv_bias);
    conv2d_8x1_s4p2_grows(s, x, l.conv, l.conv_bias);
    let (s1, h1) = b1->Ok_0;
    let b2 = elementwise::gelu_steps(s1, h1);
    lemma_link(s, s1, b2);
    let (s2, h2) = b2->Ok_0;
    let b3 = layers::dconv_per_frequency_steps(s2, h2, l.dconv);
    dconv_per_frequency_grows(s2, h2, l.dconv);
    lemma_link(s, s2, b3);
    let (s3, h3) = b3->Ok_0;
    let b4 = conv::conv2d_1x1_steps(s3, h3, l.rewrite, l.rewrite_bias);
    conv2d_1x1_grows(s3, h3, l.rewrite, l.rewrite_bias);
    lemma_link(s, s3, b4);
    let (s4, h4) = b4->Ok_0;
    let b5 = layers::flat_glu_steps(s4, h4);
    flat_glu_grows(s4, h4);
    lemma_link(s, s4, b5);
}

/// The end of a layer of the frequency decoder.
pub proof fn finish4_grows(s: Seq<Step>, x: GpuTensor, target: usize, last: bool)
    ensures
        grows(s, layers::finish4_steps(s, x, target, last)),
{
    let b1 = layout::trim_h2_steps(s, x, target);
    let (s1, h1) = b1->Ok_0;
    let b2 = elementwise::gelu_steps(s1, h1);
    lemma_link(s, s1, b2);
}

/// The end of a layer of the time decoder.
pub proof fn finish3_grows(s: Seq<Step>, x: GpuTensor, target: usize, last: bool)
    ensures
        grows(s, layers::finish3_steps(s, x, target, last)),
{
    let b1 = layout::trim_l_steps(s, x, target);
    let (s1, h1) = b1->Ok_0;
    let b2 = elementwise::gelu_steps(s1, h1);
    lemma_link(s, s1, b2);
}

/// A layer of the frequency decoder.
pub proof fn hdec_grows(s: Seq<Step>, x: GpuTensor, skip: GpuTensor, target: usize, l: GpuHDecLayer)
    ensures
        grows(s, layers::hdec_layer_steps(s, x, skip, target, l)),
{
    reveal(layers::hdec_layer_steps);
    let b1 = elementwise::add_to_steps(s, x, skip);
    let (s1, h1) = b1->Ok_0;
    let b2 = conv::conv2d_3x3_s1p1_steps(s1, h1, l.rewrite, l.rewrite_bias);
    conv2d_3x3_s1p1_grows(s1, h1, l.rewrite, l.rewrite_bias);
    lemma_link(s, s1, b2);
    let (s2, h2) = b2->Ok_0;
    let b3 = layers::flat_glu_steps(s2, h2);
    flat_glu_grows(s2, h2);
    lemma_link(s, s2, b3);
    let (s3, h3) = b3->Ok_0;
    let b4 = layers::dconv_rows_steps(
        s3,
        gpu_tensor::as_tensor4(h3.data, x.d0, h2.d1 / 2, x.d2, x.d3)->Ok_0,
        l.dconv,
    );
    dconv_rows_grows(
        s3,
        gpu_tensor::as_tensor4(h3.data, x.d0, h2.d1 / 2, x.d2, x.d3)->Ok_0,
        l.dconv,
    );
    lemma_link(s, s3, b4);
    let (s4, h4) = b4->Ok_0;
    let b5 = conv::conv_transpose2d_8x1_s4p2_steps(s4, h4, l.conv_tr, l.conv_tr_bias);
    conv_transpose2d_8x1_s4p2_grows(s4, h4, l.conv_tr, l.conv_tr_bias);
    lemma_link(s, s4, b5);
    let (s5, h5) = b5->Ok_0;
    let b6 = layers::finish4_steps(s5, h5, target, l.last);
    finish4_grows(s5, h5, target, l.last);
    lemma_link(s, s5, b6);
}

/// A layer of the time encoder.
pub proof fn tenc_grows(s: Seq<Step>, x: GpuTensor, l: GpuTEncLayer)
    ensures
        grows(s, layers::tenc_layer_steps(s, x, l)),
{
    reveal(layers::tenc_layer_steps);
    let b1 = layout::pad_l_steps(s, x, layers::lacking(x.d2));
    let (s1, h1) = b1->Ok_0;
    let b2 = conv::conv1d_k8_s4p2_steps(s1, h1, l.conv, l.conv_bias);
    conv1d_k8_s4p2_grows(s1, h1, l.conv, l.conv_bias);
    lemma_link(s, s1, b2);
    let (s2, h2) = b2->Ok_0;
    let b3 = elementwise::gelu_steps(s2, h2);
    lemma_link(s, s2, b3);
    let (s3, h3) = b3->Ok_0;
    let b4 = layers::dconv_steps(s3, h3, l.dconv);
    dconv_grows(s3, h3, l.dconv.layers@, 0, 1);
    lemma_link(s, s3, b4);
    let (s4, h4) = b4->Ok_0;
    let b5 = conv::conv1d_1x1_steps(s4, h4, l.rewrite, l.rewrite_bias);
    conv1d_1x1_grows(s4, h4, l.rewrite, l.rewrite_bias);
    lemma_link(s, s4, b5);
    let (s5, h5) = b5->Ok_0;
    let b6 = elementwise::glu_channel_steps(s5, h5);
    lemma_link(s, s5, b6);
}

/// A layer of the time decoder.
pub proof fn tdec_grows(s: Seq<Step>, x: GpuTensor, skip: GpuTensor, target: usize, l: GpuTDecLayer)
    ensures
        grows(s, layers::tdec_layer_steps(s, x, skip, target, l)),
{
    reveal(layers::tdec_layer_steps);
    let b1 = layers::skip_steps(s, x, skip);
    let (s1, h1) = b1->Ok_0;
    let b2 = elementwise::add_to_steps(s1, x, h1);
    lemma_link(s, s1, b2);
    let (s2, h2) = b2->Ok_0;
    let b3 = conv::conv1d_k3_dilation_steps(s2, h2, l.rewrite, l.rewrite_bias, 1);
    conv1d_k3_dilation_grows(s2, h2, l.rewrite, l.rewrite_bias, 1);
    lemma_link(s, s2, b3);
    let (s3, h3) = b3->Ok_0;
    let b4 = elementwise::glu_channel_steps(s3, h3);
    lemma_link(s, s3, b4);
    let (s4, h4) = b4->Ok_0;
    let b5 = layers::dconv_steps(s4, h4, l.dconv);
    dconv_grows(s4, h4, l.dconv.layers@, 0, 1);
    lemma_link(s, s4, b5);
    let (s5, h5) = b5->Ok_0;
    let b6 = conv::conv_transpose1d_8_s4p2_steps(s5, h5, l.conv_tr, l.conv_tr_bias);
    conv_transpose1d_8_s4p2_grows(s5, h5, l.conv_tr, l.conv_tr_bias);
    lemma_link(s, s5, b6);
    let (s6, h6) = b6->Ok_0;
    let b7 = layers::finish3_steps(s6, h6, target, l.last);
    finish3_grows(s6, h6, target, l.last);
    lemma_link(s, s6, b7);
}

/// A projection split into heads.
pub proof fn heads_grows(
    s: Seq<Step>,
    x: GpuTensor,
    w: GpuWeight2D,
    bias: GpuBias,
    b: usize,
    n: usize,
    d: usize,
    h: usize,
)
    requires
        h > 0,
    ensures
        grows(s, attention::heads_steps(s, x, w, bias, b, n, d, h)),
{
    reveal(attention::heads_steps);
    let b1 = matmul::linear_steps(s, x, w, bias);
    linear_grows(s, x, w, bias);
    let (s1, y) = b1->Ok_0;
    let b2 = layout::permute_bsd_to_bhsd_steps(
        s1,
        gpu_tensor::as_tensor3(y.data, b, n, d)->Ok_0,
        h,
        d / h,
    );
    lemma_link(s, s1, b2);
}

/// A batch of products.
pub proof fn row_major_batch_grows(s: Seq<Step>, x: GpuTensor, y: GpuTensor)
    ensures
        grows(s, attention::row_major_batch_steps(s, x, y)),
{
    reveal(attention::row_major_batch_steps);
}

/// Attention of each head.
pub proof fn attend_grows(
    s: Seq<Step>,
    q: GpuTensor,
    k: GpuTensor,
    v: GpuTensor,
    b: usize,
    d_head: usize,
)
    ensures
        grows(s, attention::attend_steps(s, q, k, v, b, d_head)),
{
    reveal(attention::attend_steps);
    let b1 = layout::permute_bhsd_to_bhds_steps(s, k);
    let (s1, kt) = b1->Ok_0;
    let b2 = attention::row_major_batch_steps(s1, q, kt);
    row_major_batch_grows(s1, q, kt);
    lemma_link(s, s1, b2);
    let (s2, scores) = b2->Ok_0;
    let b3 = elementwise::softmax_steps(s2, scores, Factor::InverseRoot(d_head));
    lemma_link(s, s2, b3);
    let (s3, weights) = b3->Ok_0;
    let b4 = attention::row_major_batch_steps(s3, weights, v);
    row_major_batch_grows(s3, weights, v);
    lemma_link(s, s3, b4);
    let (s4, y) = b4->Ok_0;
    let b5 = layout::permute_bhsd_to_bsd_steps(s4, y, b);
    lemma_link(s, s4, b5);
}

/// Attention of many heads.
pub proof fn mha_grows(s: Seq<Step>, q: GpuTensor, kv: GpuTensor, attn: GpuMhaWeights)
    ensures
        grows(s, attention::mha_steps(s, q, kv, attn)),
{
    reveal(attention::mha_steps);
    if attn.n_heads > 0 {
        let b1 = attention::heads_steps(
            s,
            q,
            attn.q_w,
            attn.q_b,
            q.d0,
            q.d1,
            attn.d_model,
            attn.n_heads,
        );
        heads_grows(s, q, attn.q_w, attn.q_b, q.d0, q.d1, attn.d_model, attn.n_heads);
        let (s1, qh) = b1->Ok_0;
        let b2 = attention::heads_steps(
            s1,
            kv,
            attn.k_w,
            attn.k_b,
            q.d0,
            kv.d1,
            attn.d_model,
            attn.n_heads,
        );
        heads_grows(s1, kv, attn.k_w, attn.k_b, q.d0, kv.d1, attn.d_model, attn.n_heads);
        lemma_link(s, s1, b2);
        let (s2, kh) = b2->Ok_0;
        let b3 = attention::heads_steps(
            s2,
            kv,
            attn.v_w,
            attn.v_b,
            q.d0,
            kv.d1,
            attn.d_model,
            attn.n_heads,
        );
        heads_grows(s2, kv, attn.v_w, attn.v_b, q.d0, kv.d1, attn.d_model, attn.n_heads);
        lemma_link(s, s2, b3);
        let (s3, vh) = b3->Ok_0;
        let b4 = attention::attend_steps(s3, qh, kh, vh, q.d0, attn.d_model / attn.n_heads);
        attend_grows(s3, qh, kh, vh, q.d0, attn.d_model / attn.n_heads);
        lemma_link(s, s3, b4);
        let (s4, y) = b4->Ok_0;
        let b5 = matmul::linear_steps(s4, y, attn.out_proj_w, attn.out_proj_b);
        linear_grows(s4, y, attn.out_proj_w, attn.out_proj_b);
        lemma_link(s, s4, b5);
    }
}

/// The feed-forward half of a layer.
pub proof fn feed_forward_grows(
    s: Seq<Step>,
    x: GpuTensor,
    norm: GpuLayerNorm1,
    linear1: GpuWeight2D,
    bias1: GpuBias,
    linear2: GpuWeight2D,
    bias2: GpuBias,
    gamma: GpuLayerScale,
    outer: usize,
)
    ensures
        grows(
            s,
            attention::feed_forward_steps(s, x, norm, linear1, bias1, linear2, bias2, gamma, outer),
        ),
{
    reveal(attention::feed_forward_steps);
    let b1 = elementwise::layer_norm_steps(s, x, norm, outer, x.d2);
    let (s1, n) = b1->Ok_0;
    let b2 = matmul::linear_steps(s1, n, linear1, bias1);
    linear_grows(s1, n, linear1, bias1);
    lemma_link(s, s1, b2);
    let (s2, h1) = b2->Ok_0;
    let b3 = elementwise::gelu_steps(s2, h1);
    lemma_link(s, s2, b3);
    let (s3, h2) = b3->Ok_0;
    let b4 = matmul::linear_steps(s3, h2, linear2, bias2);
    linear_grows(s3, h2, linear2, bias2);
    lemma_link(s, s3, b4);
    let (s4, h3) = b4->Ok_0;
    let b5 = elementwise::layer_scale_last_steps(s4, h3, gamma);
    lemma_link(s, s4, b5);
    let (s5, h4) = b5->Ok_0;
    let b6 = elementwise::add_to_steps(s5, x, h4);
    lemma_link(s, s5, b6);
}

/// The last normalization of a layer.
pub proof fn norm_over_all_grows(s: Seq<Step>, x: GpuTensor, norm: GpuGroupNorm1)
    ensures
        grows(s, attention::norm_over_all_steps(s, x, norm)),
{
    reveal(attention::norm_over_all_steps);
    let b1 = layout::swap_dims_12_3d_steps(s, x);
    let (s1, y) = b1->Ok_0;
    let b2 = elementwise::groupnorm1_steps(s1, y, norm);
    lemma_link(s, s1, b2);
    let (s2, z) = b2->Ok_0;
    let b3 = layout::swap_dims_12_3d_steps(s2, z);
    lemma_link(s, s2, b3);
}

/// A layer normalization.
pub proof fn normed_grows(
    s: Seq<Step>,
    x: GpuTensor,
    norm: GpuLayerNorm1,
    outer: usize,
    b: usize,
    n: usize,
    d: usize,
)
    ensures
        grows(s, attention::normed_steps(s, x, norm, outer, b, n, d)),
{
    reveal(attention::normed_steps);
}

/// The attention half of a layer.
pub proof fn attention_block_grows(
    s: Seq<Step>,
    x: GpuTensor,
    q: GpuTensor,
    kv: GpuTensor,
    attn: GpuMhaWeights,
    gamma: GpuLayerScale,
)
    ensures
        grows(s, attention::attention_block_steps(s, x, q, kv, attn, gamma)),
{
    reveal(attention::attention_block_steps);
    let b1 = attention::mha_steps(s, q, kv, attn);
    mha_grows(s, q, kv, attn);
    let (s1, y) = b1->Ok_0;
    let b2 = elementwise::layer_scale_last_steps(s1, y, gamma);
    lemma_link(s, s1, b2);
    let (s2, z) = b2->Ok_0;
    let b3 = elementwise::add_to_steps(s2, x, z);
    lemma_link(s, s2, b3);
}

/// A layer of self-attention.
pub proof fn self_attn_grows(s: Seq<Step>, x: GpuTensor, layer: GpuSelfAttnLayer)
    ensures
        grows(s, attention::self_attn_steps(s, x, layer)),
{
    reveal(attention::self_attn_steps);
    let outer = (x.d0 * x.d1) as usize;
    let b1 = attention::normed_steps(s, x, layer.norm1, outer, x.d0, x.d1, x.d2);
    normed_grows(s, x, layer.norm1, outer, x.d0, x.d1, x.d2);
    let (s1, n) = b1->Ok_0;
    let b2 = attention::attention_block_steps(s1, x, n, n, layer.attn, layer.gamma_1);
    attention_block_grows(s1, x, n, n, layer.attn, layer.gamma_1);
    lemma_link(s, s1, b2);
    let (s2, y) = b2->Ok_0;
    let b3 = attention::feed_forward_steps(
        s2,
        y,
        layer.norm2,
        layer.linear1,
        layer.linear1_bias,
        layer.linear2,
        layer.linear2_bias,
        layer.gamma_2,
        outer,
    );
    feed_forward_grows(
        s2,
        y,
        layer.norm2,
        layer.linear1,
        layer.linear1_bias,
        layer.linear2,
        layer.linear2_bias,
        layer.gamma_2,
        outer,
    );
    lemma_link(s, s2, b3);
    let (s3, z) = b3->Ok_0;
    let b4 = attention::norm_over_all_steps(s3, z, layer.norm_out);
    norm_over_all_grows(s3, z, layer.norm_out);
    lemma_link(s, s3, b4);
}

/// A layer of cross-attention.
pub proof fn cross_attn_grows(
    s: Seq<Step>,
    query: GpuTensor,
    cross: GpuTensor,
    layer: GpuCrossAttnLayer,
)
    ensures
        grows(s, attention::cross_attn_steps(s, query, cross, layer)),
{
    reveal(attention::cross_attn_steps);
    let outer = (query.d0 * query.d1) as usize;
    let b1 = attention::normed_steps(s, query, layer.norm1, outer, query.d0, query.d1, query.d2);
    normed_grows(s, query, layer.norm1, outer, query.d0, query.d1, query.d2);
    let (s1, q) = b1->Ok_0;
    let b2 = attention::normed_steps(
        s1,
        cross,
        layer.norm2,
        cross.data.len / query.d2,
        query.d0,
        cross.d1,
        query.d2,
    );
    normed_grows(s1, cross, layer.norm2, cross.data.len / query.d2, query.d0, cross.d1, query.d2);
    lemma_link(s, s1, b2);
    let (s2, kv) = b2->Ok_0;
    let b3 = attention::attention_block_steps(s2, query, q, kv, layer.attn, layer.gamma_1);
    attention_block_grows(s2, query, q, kv, layer.attn, layer.gamma_1);
    lemma_link(s, s2, b3);
    let (s3, y) = b3->Ok_0;
    let b4 = attention::feed_forward_steps(
        s3,
        y,
        layer.norm3,
        layer.linear1,
        layer.linear1_bias,
        layer.linear2,
        layer.linear2_bias,
        layer.gamma_2,
        outer,
    );
    feed_forward_grows(
        s3,
        y,
        layer.norm3,
        layer.linear1,
        layer.linear1_bias,
        layer.linear2,
        layer.linear2_bias,
        layer.gamma_2,
        outer,
    );
    lemma_link(s, s3, b4);
    let (s4, z) = b4->Ok_0;
    let b5 = attention::norm_over_all_steps(s4, z, layer.norm_out);
    norm_over_all_grows(s4, z, layer.norm_out);
    lemma_link(s, s4, b5);
}

/// A change of the number of channels.
pub proof fn channel_resample_grows(s: Seq<Step>, x: GpuTensor, w: GpuConv1dWeight, bias: GpuBias)
    ensures
        grows(s, transformer::channel_resample_4d_steps(s, x, w, bias)),
{
    reveal(transformer::channel_resample_4d_steps);
    let b1 = layout::reshape_bcft_to_bfct_steps(s, x);
    let (s1, rows) = b1->Ok_0;
    let b2 = conv::conv1d_1x1_steps(s1, rows, w, bias);
    conv1d_1x1_grows(s1, rows, w, bias);
    lemma_link(s, s1, b2);
    let (s2, y) = b2->Ok_0;
    let b3 = layout::reshape_bfct_to_bcft_steps(s2, y, x.d0);
    lemma_link(s, s2, b3);
}

/// A change of the number of channels, where there is one.
pub proof fn resample4_grows(
    s: Seq<Step>,
    x: GpuTensor,
    w: Option<GpuConv1dWeight>,
    bias: Option<GpuBias>,
)
    ensures
        grows(s, transformer::resample4_steps(s, x, w, bias)),
{
    if let (Some(w), Some(bias)) = (w, bias) {
        channel_resample_grows(s, x, w, bias);
    }
}

/// A change of the number of channels, where there is one.
pub proof fn resample3_grows(
    s: Seq<Step>,
    x: GpuTensor,
    w: Option<GpuConv1dWeight>,
    bias: Option<GpuBias>,
)
    ensures
        grows(s, transformer::resample3_steps(s, x, w, bias)),
{
    if let (Some(w), Some(bias)) = (w, bias) {
        conv1d_1x1_grows(s, x, w, bias);
    }
}

/// A layer on both sequences.
pub proof fn both_layers_grows(
    s: Seq<Step>,
    f: GpuTensor,
    t: GpuTensor,
    fl: GpuTransformerLayerWeights,
    tl: GpuTransformerLayerWeights,
)
    ensures
        grows(s, transformer::both_layers_steps(s, f, t, fl, tl)),
{
    reveal(transformer::both_layers_steps);
    match (fl, tl) {
        (
            GpuTransformerLayerWeights::SelfAttn(fl),
            GpuTransformerLayerWeights::SelfAttn(tl),
        ) => {
            let b1 = attention::self_attn_steps(s, f, fl);
            self_attn_grows(s, f, fl);
            let (s1, y) = b1->Ok_0;
            let b2 = attention::self_attn_steps(s1, t, tl);
            self_attn_grows(s1, t, tl);
            lemma_link(s, s1, b2);
        },
        (
            GpuTransformerLayerWeights::CrossAttn(fl),
            GpuTransformerLayerWeights::CrossAttn(tl),
        ) => {
            let b1 = attention::cross_attn_steps(s, f, t, fl);
            cross_attn_grows(s, f, t, fl);
            let (s1, y) = b1->Ok_0;
            let b2 = attention::cross_attn_steps(s1, t, f, tl);
            cross_attn_grows(s1, t, f, tl);
            lemma_link(s, s1, b2);
        },
        _ => {},
    }
}

/// Layers from the one at `i` on.
pub proof fn layers_grows(
    s: Seq<Step>,
    f: GpuTensor,
    t: GpuTensor,
    v: Seq<GpuTransformerLayerWeights>,
    w: Seq<GpuTransformerLayerWeights>,
    i: int,
)
    ensures
        grows(s, transformer::layers_steps_from(s, f, t, v, w, i)),
    decreases v.len() - i,
{
    if i < v.len() && i < w.len() {
        let b1 = transformer::both_layers_steps(s, f, t, v[i], w[i]);
        both_layers_grows(s, f, t, v[i], w[i]);
        let (s1, (f1, t1)) = b1->Ok_0;
        layers_grows(s1, f1, t1, v, w, i + 1);
        lemma_link(s, s1, transformer::layers_steps_from(s1, f1, t1, v, w, i + 1));
    }
}

/// The sequences with their embeddings.
pub proof fn embedded_grows(
    s: Seq<Step>,
    f: GpuTensor,
    t: GpuTensor,
    tf: usize,
    t2: usize,
    ct: GpuCrossDomainTransformer,
    freq_pe: GpuTensor,
    time_pe: GpuTensor,
)
    ensures
        grows(s, transformer::embedded_steps(s, f, t, tf, t2, ct, freq_pe, time_pe)),
{
    reveal(transformer::embedded_steps);
    let b1 = attention::normed_steps(s, f, ct.norm_in, tf, 1, tf, ct.norm_in.dim);
    normed_grows(s, f, ct.norm_in, tf, 1, tf, ct.norm_in.dim);
    let (s1, fo) = b1->Ok_0;
    let b2 = attention::normed_steps(s1, t, ct.norm_in_t, t2, 1, t2, ct.norm_in.dim);
    normed_grows(s1, t, ct.norm_in_t, t2, 1, t2, ct.norm_in.dim);
    lemma_link(s, s1, b2);
    let (s2, to) = b2->Ok_0;
    let b3 = elementwise::add_inplace_steps(s2, fo, freq_pe);
    lemma_link(s, s2, b3);
    let (s3, fo2) = b3->Ok_0;
    let b4 = elementwise::add_inplace_steps(s3, to, time_pe);
    lemma_link(s, s3, b4);
}

/// The branches as sequences.
pub proof fn sequences_grows(
    s: Seq<Step>,
    freq: GpuTensor,
    time: GpuTensor,
    ct: GpuCrossDomainTransformer,
)
    ensures
        grows(s, transformer::sequences_steps(s, freq, time, ct)),
{
    reveal(transformer::sequences_steps);
    let b1 = transformer::resample4_steps(s, freq, ct.channel_upsampler, ct.channel_upsampler_bias);
    resample4_grows(s, freq, ct.channel_upsampler, ct.channel_upsampler_bias);
    let (s1, f) = b1->Ok_0;
    let b2 = transformer::resample3_steps(
        s1,
        time,
        ct.channel_upsampler_t,
        ct.channel_upsampler_t_bias,
    );
    resample3_grows(s1, time, ct.channel_upsampler_t, ct.channel_upsampler_t_bias);
    lemma_link(s, s1, b2);
    let (s2, t) = b2->Ok_0;
    let b3 = layout::flatten_bcft_to_btfc_steps(s2, f);
    lemma_link(s, s2, b3);
    let (s3, f2) = b3->Ok_0;
    let b4 = layout::swap_dims_12_3d_steps(s3, t);
    lemma_link(s, s3, b4);
}

/// The sequences as branches.
pub proof fn planes_grows(
    s: Seq<Step>,
    f: GpuTensor,
    t: GpuTensor,
    fr: usize,
    frames: usize,
    ct: GpuCrossDomainTransformer,
)
    ensures
        grows(s, transformer::planes_steps(s, f, t, fr, frames, ct)),
{
    reveal(transformer::planes_steps);
    let b1 = layout::unflatten_btfc_to_bcft_steps(s, f, fr, frames);
    let (s1, f1) = b1->Ok_0;
    let b2 = layout::swap_dims_12_3d_steps(s1, t);
    lemma_link(s, s1, b2);
    let (s2, t1) = b2->Ok_0;
    let b3 = transformer::resample4_steps(
        s2,
        f1,
        ct.channel_downsampler,
        ct.channel_downsampler_bias,
    );
    resample4_grows(s2, f1, ct.channel_downsampler, ct.channel_downsampler_bias);
    lemma_link(s, s2, b3);
    let (s3, f2) = b3->Ok_0;
    let b4 = transformer::resample3_steps(
        s3,
        t1,
        ct.channel_downsampler_t,
        ct.channel_downsampler_t_bias,
    );
    resample3_grows(s3, t1, ct.channel_downsampler_t, ct.channel_downsampler_t_bias);
    lemma_link(s, s3, b4);
}

/// The transformer.
pub proof fn cross_domain_grows(
    s: Seq<Step>,
    freq: GpuTensor,
    time: GpuTensor,
    ct: GpuCrossDomainTransformer,
    freq_pe: GpuTensor,
    time_pe: GpuTensor,
)
    ensures
        grows(s, transformer::cross_domain_steps(s, freq, time, ct, freq_pe, time_pe)),
{
    reveal(transformer::cross_domain_steps);
    let b1 = transformer::sequences_steps(s, freq, time, ct);
    sequences_grows(s, freq, time, ct);
    let (s1, (f1, t1)) = b1->Ok_0;
    let b2 = transformer::embedded_steps(
        s1,
        f1,
        t1,
        (freq.d3 * freq.d2) as usize,
        time.d2,
        ct,
        freq_pe,
        time_pe,
    );
    embedded_grows(s1, f1, t1, (freq.d3 * freq.d2) as usize, time.d2, ct, freq_pe, time_pe);
    lemma_link(s, s1, b2);
    let (s2, (f2, t2)) = b2->Ok_0;
    let b3 = transformer::layers_steps_from(s2, f2, t2, ct.layers@, ct.layers_t@, 0);
    layers_grows(s2, f2, t2, ct.layers@, ct.layers_t@, 0);
    lemma_link(s, s2, b3);
    let (s3, (f3, t3)) = b3->Ok_0;
    let b4 = transformer::planes_steps(s3, f3, t3, freq.d2, freq.d3, ct);
    planes_grows(s3, f3, t3, freq.d2, freq.d3, ct);
    lemma_link(s, s3, b4);
}

/// Layers of the frequency encoder from the one at `i` on.
pub proof fn encode_grows(s: Seq<Step>, outs: Seq<GpuTensor>, v: Seq<GpuHEncLayer>, i: int)
    ensures
        grows(s, forward::encode_steps_from(s, outs, v, i)),
    decreases v.len() - i,
{
    if i < v.len() {
        let b1 = layers::henc_layer_steps(s, outs.last(), v[i]);
        henc_grows(s, outs.last(), v[i]);
        let (s1, t) = b1->Ok_0;
        encode_grows(s1, outs.push(t), v, i + 1);
        lemma_link(s, s1, forward::encode_steps_from(s1, outs.push(t), v, i + 1));
    }
}

/// Layers of the time encoder from the one at `i` on.
pub proof fn encode_time_grows(
    s: Seq<Step>,
    time: GpuTensor,
    outs: Seq<GpuTensor>,
    v: Seq<GpuTEncLayer>,
    n: int,
    i: int,
)
    ensures
        grows(s, forward::encode_time_steps_from(s, time, outs, v, n, i)),
    decreases n - i,
{
    if i < n {
        let x = forward::enters(time, outs, i);
        let b1 = layers::tenc_layer_steps(s, x, v[i]);
        tenc_grows(s, x, v[i]);
        let (s1, t) = b1->Ok_0;
        encode_time_grows(s1, time, outs.push(t), v, n, i + 1);
        lemma_link(s, s1, forward::encode_time_steps_from(s1, time, outs.push(t), v, n, i + 1));
    }
}

/// Layers of the frequency decoder from the one at `i` on.
pub proof fn decode_grows(
    s: Seq<Step>,
    x: GpuTensor,
    outs: Seq<GpuTensor>,
    v: Seq<GpuHDecLayer>,
    i: int,
)
    ensures
        grows(s, forward::decode_steps_from(s, x, outs, v, i)),
    decreases outs.len() - i,
{
    if i < outs.len() {
        let skip = outs[outs.len() - 1 - i];
        let target = forward::freq_target(outs, i);
        let b1 = layers::hdec_layer_steps(s, x, skip, target, v[i]);
        hdec_grows(s, x, skip, target, v[i]);
        let (s1, y) = b1->Ok_0;
        decode_grows(s1, y, outs, v, i + 1);
        lemma_link(s, s1, forward::decode_steps_from(s1, y, outs, v, i + 1));
    }
}

/// Layers of the time decoder from the one at `i` on.
pub proof fn decode_time_grows(
    s: Seq<Step>,
    x: GpuTensor,
    time: GpuTensor,
    outs: Seq<GpuTensor>,
    v: Seq<GpuTDecLayer>,
    i: int,
)
    ensures
        grows(s, forward::decode_time_steps_from(s, x, time, outs, v, i)),
    decreases outs.len() - i,
{
    if i < outs.len() {
        let skip = outs[outs.len() - 1 - i];
        let target = forward::enters(time, outs, outs.len() - 1 - i).d2;
        let b1 = layers::tdec_layer_steps(s, x, skip, target, v[i]);
        tdec_grows(s, x, skip, target, v[i]);
        let (s1, y) = b1->Ok_0;
        decode_time_grows(s1, y, time, outs, v, i + 1);
        lemma_link(s, s1, forward::decode_time_steps_from(s1, y, time, outs, v, i + 1));
    }
}

/// The frequency encoder.
pub proof fn encode_freq_grows(s: Seq<Step>, freq: GpuTensor, m: GpuHTDemucs)
    ensures
        grows(s, forward::encode_freq_steps(s, freq, m)),
{
    let b1 = layers::henc_layer_steps(s, freq, m.encoders@[0]);
    henc_grows(s, freq, m.encoders@[0]);
    let (s1, h1) = b1->Ok_0;
    let b2 = elementwise::add_freq_emb_steps(s1, h1, m.freq_emb, Factor::EmbeddingScale);
    lemma_link(s, s1, b2);
    let (s2, h2) = b2->Ok_0;
    let b3 = forward::encode_steps_from(s2, seq![h2], m.encoders@, 1);
    encode_grows(s2, seq![h2], m.encoders@, 1);
    lemma_link(s, s2, b3);
}

/// Both encoders.
pub proof fn encoders_grows(s: Seq<Step>, freq: GpuTensor, time: GpuTensor, m: GpuHTDemucs)
    ensures
        grows(s, forward::encoders_steps(s, freq, time, m)),
{
    reveal(forward::encoders_steps);
    let b1 = forward::encode_freq_steps(s, freq, m);
    encode_freq_grows(s, freq, m);
    let (s1, fouts) = b1->Ok_0;
    let b2 = forward::encode_time_steps_from(
        s1,
        time,
        seq![],
        m.tencoders@,
        m.encoders@.len() as int,
        0,
    );
    encode_time_grows(s1, time, seq![], m.tencoders@, m.encoders@.len() as int, 0);
    lemma_link(s, s1, b2);
}

/// What comes after the encoders.
pub proof fn rest_grows(
    s: Seq<Step>,
    time: GpuTensor,
    fouts: Seq<GpuTensor>,
    touts: Seq<GpuTensor>,
    freq_pe: GpuTensor,
    time_pe: GpuTensor,
    m: GpuHTDemucs,
)
    ensures
        grows(s, forward::rest_steps(s, time, fouts, touts, freq_pe, time_pe, m)),
{
    reveal(forward::rest_steps);
    let b1 = transformer::cross_domain_steps(
        s,
        fouts.last(),
        touts.last(),
        m.crosstransformer,
        freq_pe,
        time_pe,
    );
    cross_domain_grows(s, fouts.last(), touts.last(), m.crosstransformer, freq_pe, time_pe);
    let (s1, (f, t)) = b1->Ok_0;
    let b2 = forward::decode_steps_from(s1, f, fouts, m.decoders@, 0);
    decode_grows(s1, f, fouts, m.decoders@, 0);
    lemma_link(s, s1, b2);
    let (s2, f2) = b2->Ok_0;
    let b3 = forward::decode_time_steps_from(s2, t, time, touts, m.tdecoders@, 0);
    decode_time_grows(s2, t, time, touts, m.tdecoders@, 0);
    lemma_link(s, s2, b3);
}

/// The tables of positions.
pub proof fn tables_grows(s: Seq<Step>, fouts: Seq<GpuTensor>, touts: Seq<GpuTensor>, d: usize)
    ensures
        grows(s, forward::tables_steps(s, fouts, touts, d)),
{
    reveal(forward::tables_steps);
    let b1 = forward::table_steps(s, 0, (fouts.last().d3 * fouts.last().d2) as usize, d);
    let (s1, f) = b1->Ok_0;
    let b2 = forward::table_steps(s1, 1, touts.last().d2, d);
    lemma_link(s, s1, b2);
}

/// The network.
pub proof fn forward_grows(s: Seq<Step>, freq: GpuTensor, time: GpuTensor, m: GpuHTDemucs)
    ensures
        grows(s, forward::forward_steps(s, freq, time, m)),
{
    let b1 = forward::encoders_steps(s, freq, time, m);
    encoders_grows(s, freq, time, m);
    let (s1, (fouts, touts)) = b1->Ok_0;
    let d = m.crosstransformer.norm_in.dim;
    let b2 = forward::tables_steps(s1, fouts, touts, d);
    tables_grows(s1, fouts, touts, d);
    lemma_link(s, s1, b2);
    let (s2, (fpe, tpe)) = b2->Ok_0;
    let b3 = forward::rest_steps(s2, time, fouts, touts, fpe, tpe, m);
    rest_grows(s2, time, fouts, touts, fpe, tpe, m);
    lemma_link(s, s2, b3);
}

} // verus!
