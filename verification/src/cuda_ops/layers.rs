//! The layers of the encoders and decoders.
use vstd::prelude::*;
use crate::cuda_ops::conv;
use crate::cuda_ops::elementwise;
use crate::cuda_ops::layout;
use crate::error::DemucsError;
use crate::gpu_model;
use crate::gpu_model::GpuDConv;
use crate::gpu_model::GpuDConvLayer;
use crate::gpu_model::GpuHDecLayer;
use crate::gpu_model::GpuHEncLayer;
use crate::gpu_model::GpuTDecLayer;
use crate::gpu_model::GpuTEncLayer;
use crate::gpu_tensor;
use crate::gpu_tensor::Built;
use crate::gpu_tensor::GpuTensor;
use crate::program;
use crate::program::Program;
use crate::program::Step;
use crate::program::LIMIT;
use crate::STRIDE;

verus! {

/// The steps of [`dconv_layer`].
#[verifier::opaque]
pub open spec fn dconv_layer_steps(
    s: Seq<Step>,
    x: GpuTensor,
    l: GpuDConvLayer,
    dilation: usize,
) -> Built<
    GpuTensor,
> {
    match conv::conv1d_k3_dilation_steps(s, x, l.conv1, l.conv1_bias, dilation) {
        Err(e) => Err(e),
        Ok((s, h)) => match elementwise::groupnorm1_steps(s, h, l.norm1) {
            Err(e) => Err(e),
            Ok((s, h)) => match elementwise::gelu_steps(s, h) {
                Err(e) => Err(e),
                Ok((s, h)) => match conv::conv1d_k1_steps(s, h, l.conv2, l.conv2_bias) {
                    Err(e) => Err(e),
                    Ok((s, h)) => match elementwise::groupnorm1_steps(s, h, l.norm2) {
                        Err(e) => Err(e),
                        Ok((s, h)) => match elementwise::glu_channel_steps(s, h) {
                            Err(e) => Err(e),
                            Ok((s, h)) => match elementwise::layer_scale_steps(s, h, l.scale) {
                                Err(e) => Err(e),
                                Ok((s, h)) => elementwise::add_to_steps(s, h, x),
                            },
                        },
                    },
                },
            },
        },
    }
}

/// One residual layer on `[b, c, l]`.
pub fn dconv_layer(p: &mut Program, x: GpuTensor, layer: &GpuDConvLayer, dilation: usize) -> (r: Result<
    GpuTensor,
    DemucsError,
>)
    requires
        program::program_ok(old(p)@),
        gpu_tensor::tensor_ok(old(p)@, x),
        x.rank == 3,
        gpu_model::dconv_layer_ok(old(p)@, *layer),
    ensures
        elementwise::good(old(p)@, dconv_layer_steps(old(p)@, x, *layer, dilation), r, final(p)@),
        r is Ok ==> r->Ok_0.rank == 3,
        r is Ok ==> dilation <= LIMIT,
{
    proof {
        reveal(dconv_layer_steps);
    }
    let h: GpuTensor = conv::conv1d_k3_dilation(p, x, &layer.conv1, &layer.conv1_bias, dilation)?;
    let h: GpuTensor = elementwise::groupnorm1_inplace(p, h, &layer.norm1)?;
    let h: GpuTensor = elementwise::gelu_inplace(p, h)?;
    let h: GpuTensor = conv::conv1d_k1(p, h, &layer.conv2, &layer.conv2_bias)?;
    let h: GpuTensor = elementwise::groupnorm1_inplace(p, h, &layer.norm2)?;
    let h: GpuTensor = elementwise::glu_channel(p, h)?;
    let h: GpuTensor = elementwise::layer_scale_inplace(p, h, &layer.scale)?;
    elementwise::add_to(p, h, x)
}

/// The steps of the layers from `j` on, the first of them with the given dilation.
pub open spec fn dconv_steps_from(
    s: Seq<Step>,
    x: GpuTensor,
    layers: Seq<GpuDConvLayer>,
    j: int,
    dilation: usize,
) -> Built<GpuTensor>
    decreases layers.len() - j,
{
    if j >= layers.len() {
        Ok((s, x))
    } else {
        match dconv_layer_steps(s, x, layers[j], dilation) {
            Err(e) => Err(e),
            Ok((s, x)) => dconv_steps_from(s, x, layers, j + 1, (2 * dilation) as usize),
        }
    }
}

/// The steps of [`dconv`].
pub open spec fn dconv_steps(s: Seq<Step>, x: GpuTensor, d: GpuDConv) -> Built<GpuTensor> {
    dconv_steps_from(s, x, d.layers@, 0, 1)
}

/// A stack of residual layers, the dilation doubling from each to the next.
pub fn dconv(p: &mut Program, x: GpuTensor, stack: &GpuDConv) -> (r: Result<GpuTensor, DemucsError>)
    requires
        program::program_ok(old(p)@),
        gpu_tensor::tensor_ok(old(p)@, x),
        x.rank == 3,
        gpu_model::dconv_ok(old(p)@, *stack),
    ensures
        elementwise::good(old(p)@, dconv_steps(old(p)@, x, *stack), r, final(p)@),
        r is Ok ==> r->Ok_0.rank == 3,
{
    let n: usize = stack.layers.len();
    let mut y: GpuTensor = x;
    let mut dilation: usize = 1;
    let mut j: usize = 0;
    let ghost start = p@;
    while j < n
        invariant
            j <= n,
            n == stack.layers@.len(),
            start == old(p)@,
            dilation <= 2 * LIMIT,
            program::program_ok(p@),
            program::extends(start, p@),
            gpu_model::dconv_ok(start, *stack),
            gpu_tensor::tensor_ok(p@, y),
            y.rank == 3,
            dconv_steps_from(p@, y, stack.layers@, j as int, dilation) == dconv_steps(
                start,
                x,
                *stack,
            ),
        decreases n - j,
    {
        assert(gpu_model::dconv_layer_ok(start, stack.layers@[j as int]));
        match dconv_layer(p, y, &stack.layers[j], dilation) {
            Ok(t) => {
                y = t;
            },
            Err(e) => {
                return Err(e);
            },
        }
        dilation = 2 * dilation;
        j = j + 1;
    }
    Ok(y)
}

/// The steps of [`flat_glu`].
#[verifier::opaque]
pub open spec fn flat_glu_steps(s: Seq<Step>, x: GpuTensor) -> Built<GpuTensor> {
    match gpu_tensor::size2(x.d2, x.d3) {
        None => Err(gpu_tensor::too_large()),
        Some(plane) => match gpu_tensor::as_tensor3(x.data, x.d0, x.d1, plane) {
            Err(e) => Err(e),
            Ok(flat) => elementwise::glu_channel_steps(s, flat),
        },
    }
}

/// Halves the channels of `[b, 2c, f, t]`: `[b, c, f * t]`.
fn flat_glu(p: &mut Program, x: GpuTensor) -> (r: Result<GpuTensor, DemucsError>)
    requires
        program::program_ok(old(p)@),
        gpu_tensor::tensor_ok(old(p)@, x),
        x.rank == 4,
    ensures
        elementwise::good(old(p)@, flat_glu_steps(old(p)@, x), r, final(p)@),
        r is Ok ==> r->Ok_0.rank == 3,
{
    proof {
        reveal(flat_glu_steps);
    }
    let plane: usize = match gpu_tensor::count2(x.d2, x.d3) {
        Some(n) => n,
        None => {
            return Err(gpu_tensor::large());
        },
    };
    let flat: GpuTensor = GpuTensor::new3(x.data, x.d0, x.d1, plane)?;
    elementwise::glu_channel(p, flat)
}

/// The steps of [`dconv_per_frequency`].
#[verifier::opaque]
pub open spec fn dconv_per_frequency_steps(
    s: Seq<Step>,
    x: GpuTensor,
    d: GpuDConv,
) -> Built<GpuTensor> {
    match layout::reshape_bcft_to_bfct_steps(s, x) {
        Err(e) => Err(e),
        Ok((s, rows)) => match dconv_steps(s, rows, d) {
            Err(e) => Err(e),
            Ok((s, y)) => if y.d0 != rows.d0 {
                Err("henc dconv out n mismatch"@)
            } else if y.d1 != x.d1 {
                Err("henc dconv out c mismatch"@)
            } else {
                layout::reshape_bfct_to_bcft_steps(s, y, x.d0)
            },
        },
    }
}

/// Applies the residual layers to each frequency of `[b, c, f, t]`.
fn dconv_per_frequency(p: &mut Program, x: GpuTensor, d: &GpuDConv) -> (r: Result<
    GpuTensor,
    DemucsError,
>)
    requires
        program::program_ok(old(p)@),
        gpu_tensor::tensor_ok(old(p)@, x),
        x.rank == 4,
        gpu_model::dconv_ok(old(p)@, *d),
    ensures
        elementwise::good(old(p)@, dconv_per_frequency_steps(old(p)@, x, *d), r, final(p)@),
        r is Ok ==> r->Ok_0.rank == 4,
{
    proof {
        reveal(dconv_per_frequency_steps);
    }
    let rows: GpuTensor = layout::reshape_bcft_to_bfct(p, x)?;
    let y: GpuTensor = dconv(p, rows, d)?;
    if y.d0 != rows.d0 {
        return Err(DemucsError::Shape("henc dconv out n mismatch".to_owned()));
    }
    if y.d1 != x.d1 {
        return Err(DemucsError::Shape("henc dconv out c mismatch".to_owned()));
    }
    layout::reshape_bfct_to_bcft(p, y, x.d0)
}

/// The steps of [`henc_layer`].
#[verifier::opaque]
pub open spec fn henc_layer_steps(s: Seq<Step>, x: GpuTensor, l: GpuHEncLayer) -> Built<GpuTensor> {
    match conv::conv2d_8x1_s4p2_steps(s, x, l.conv, l.conv_bias) {
        Err(e) => Err(e),
        Ok((s, h)) => match elementwise::gelu_steps(s, h) {
            Err(e) => Err(e),
            Ok((s, h)) => match dconv_per_frequency_steps(s, h, l.dconv) {
                Err(e) => Err(e),
                Ok((s, y)) => match conv::conv2d_1x1_steps(s, y, l.rewrite, l.rewrite_bias) {
                    Err(e) => Err(e),
                    Ok((s, z)) => match flat_glu_steps(s, z) {
                        Err(e) => Err(e),
                        Ok((s, g)) => match gpu_tensor::as_tensor4(g.data, g.d0, g.d1, h.d2, h.d3) {
                            Err(e) => Err(e),
                            Ok(t) => Ok((s, t)),
                        },
                    },
                },
            },
        },
    }
}

/// Layer of the frequency encoder: `[b, c_in, f, t]` to `[b, c_out, f / 4, t]`.
pub fn henc_layer(p: &mut Program, x: GpuTensor, layer: &GpuHEncLayer) -> (r: Result<
    GpuTensor,
    DemucsError,
>)
    requires
        program::program_ok(old(p)@),
        gpu_tensor::tensor_ok(old(p)@, x),
        x.rank == 4,
        gpu_model::henc_ok(old(p)@, *layer),
    ensures
        elementwise::good(old(p)@, henc_layer_steps(old(p)@, x, *layer), r, final(p)@),
        r is Ok ==> r->Ok_0.rank == 4,
{
    proof {
        reveal(henc_layer_steps);
    }
    let h: GpuTensor = conv::conv2d_8x1_s4p2(p, x, &layer.conv, &layer.conv_bias)?;
    let h: GpuTensor = elementwise::gelu_inplace(p, h)?;
    let y: GpuTensor = dconv_per_frequency(p, h, &layer.dconv)?;
    let z: GpuTensor = conv::conv2d_1x1(p, y, &layer.rewrite, &layer.rewrite_bias)?;
    let g: GpuTensor = flat_glu(p, z)?;
    GpuTensor::new4(g.data, g.d0, g.d1, h.d2, h.d3)
}

/// The steps of [`finish4`].
pub open spec fn finish4_steps(
    s: Seq<Step>,
    x: GpuTensor,
    target: usize,
    last: bool,
) -> Built<GpuTensor> {
    match if x.d2 > target {
        layout::trim_h2_steps(s, x, target)
    } else {
        Ok((s, x))
    } {
        Err(e) => Err(e),
        Ok((s, y)) => if last {
            Ok((s, y))
        } else {
            elementwise::gelu_steps(s, y)
        },
    }
}

/// Cuts the frequencies down to `target`, and applies GELU unless the layer is the last.
fn finish4(p: &mut Program, x: GpuTensor, target: usize, last: bool) -> (r: Result<
    GpuTensor,
    DemucsError,
>)
    requires
        program::program_ok(old(p)@),
        gpu_tensor::tensor_ok(old(p)@, x),
        x.rank == 4,
    ensures
        elementwise::good(old(p)@, finish4_steps(old(p)@, x, target, last), r, final(p)@),
        r is Ok ==> r->Ok_0.rank == 4,
{
    let y: GpuTensor = if x.d2 > target {
        layout::trim_h2(p, x, target)?
    } else {
        x
    };
    if last {
        Ok(y)
    } else {
        elementwise::gelu_inplace(p, y)
    }
}

/// The steps of [`finish3`].
pub open spec fn finish3_steps(
    s: Seq<Step>,
    x: GpuTensor,
    target: usize,
    last: bool,
) -> Built<GpuTensor> {
    match if x.d2 > target {
        layout::trim_l_steps(s, x, target)
    } else {
        Ok((s, x))
    } {
        Err(e) => Err(e),
        Ok((s, y)) => if last {
            Ok((s, y))
        } else {
            elementwise::gelu_steps(s, y)
        },
    }
}

/// Cuts the length down to `target`, and applies GELU unless the layer is the last.
fn finish3(p: &mut Program, x: GpuTensor, target: usize, last: bool) -> (r: Result<
    GpuTensor,
    DemucsError,
>)
    requires
        program::program_ok(old(p)@),
        gpu_tensor::tensor_ok(old(p)@, x),
        x.rank == 3,
    ensures
        elementwise::good(old(p)@, finish3_steps(old(p)@, x, target, last), r, final(p)@),
        r is Ok ==> r->Ok_0.rank == 3,
{
    let y: GpuTensor = if x.d2 > target {
        layout::trim_l(p, x, target)?
    } else {
        x
    };
    if last {
        Ok(y)
    } else {
        elementwise::gelu_inplace(p, y)
    }
}

/// The steps of [`dconv_rows`].
#[verifier::opaque]
pub open spec fn dconv_rows_steps(s: Seq<Step>, x: GpuTensor, d: GpuDConv) -> Built<GpuTensor> {
    match layout::reshape_bcft_to_bfct_steps(s, x) {
        Err(e) => Err(e),
        Ok((s, rows)) => match dconv_steps(s, rows, d) {
            Err(e) => Err(e),
            Ok((s, y)) => layout::reshape_bfct_to_bcft_steps(s, y, x.d0),
        },
    }
}

/// As [`dconv_per_frequency`], whatever the number of channels that comes out.
fn dconv_rows(p: &mut Program, x: GpuTensor, d: &GpuDConv) -> (r: Result<GpuTensor, DemucsError>)
    requires
        program::program_ok(old(p)@),
        gpu_tensor::tensor_ok(old(p)@, x),
        x.rank == 4,
        gpu_model::dconv_ok(old(p)@, *d),
    ensures
        elementwise::good(old(p)@, dconv_rows_steps(old(p)@, x, *d), r, final(p)@),
        r is Ok ==> r->Ok_0.rank == 4,
{
    proof {
        reveal(dconv_rows_steps);
    }
    let rows: GpuTensor = layout::reshape_bcft_to_bfct(p, x)?;
    let y: GpuTensor = dconv(p, rows, d)?;
    layout::reshape_bfct_to_bcft(p, y, x.d0)
}

/// The steps of [`hdec_layer`].
#[verifier::opaque]
pub open spec fn hdec_layer_steps(
    s: Seq<Step>,
    x: GpuTensor,
    skip: GpuTensor,
    target: usize,
    l: GpuHDecLayer,
) -> Built<GpuTensor> {
    match elementwise::add_to_steps(s, x, skip) {
        Err(e) => Err(e),
        Ok((s, h)) => match conv::conv2d_3x3_s1p1_steps(s, h, l.rewrite, l.rewrite_bias) {
            Err(e) => Err(e),
            Ok((s, h2)) => match flat_glu_steps(s, h2) {
                Err(e) => Err(e),
                Ok((s, g)) => match gpu_tensor::as_tensor4(g.data, x.d0, h2.d1 / 2, x.d2, x.d3) {
                    Err(e) => Err(e),
                    Ok(h3) => match dconv_rows_steps(s, h3, l.dconv) {
                        Err(e) => Err(e),
                        Ok((s, h4)) => match conv::conv_transpose2d_8x1_s4p2_steps(
                            s,
                            h4,
                            l.conv_tr,
                            l.conv_tr_bias,
                        ) {
                            Err(e) => Err(e),
                            Ok((s, h5)) => finish4_steps(s, h5, target, l.last),
                        },
                    },
                },
            },
        },
    }
}

/// Layer of the frequency decoder: `[b, c, f, t]` with the skip of the same shape, to four
/// times the frequencies, cut down to `freq_target`.
pub fn hdec_layer(p: &mut Program, x: GpuTensor, skip: GpuTensor, freq_target: usize, layer: &GpuHDecLayer) -> (r: Result<
    GpuTensor,
    DemucsError,
>)
    requires
        program::program_ok(old(p)@),
        gpu_tensor::tensor_ok(old(p)@, x),
        gpu_tensor::tensor_ok(old(p)@, skip),
        x.rank == 4,
        gpu_model::hdec_ok(old(p)@, *layer),
    ensures
        elementwise::good(
            old(p)@,
            hdec_layer_steps(old(p)@, x, skip, freq_target, *layer),
            r,
            final(p)@,
        ),
        r is Ok ==> r->Ok_0.rank == 4,
{
    proof {
        reveal(hdec_layer_steps);
    }
    let h: GpuTensor = elementwise::add_to(p, x, skip)?;
    let h2: GpuTensor = conv::conv2d_3x3_s1p1(p, h, &layer.rewrite, &layer.rewrite_bias)?;
    let g: GpuTensor = flat_glu(p, h2)?;
    let h3: GpuTensor = GpuTensor::new4(g.data, x.d0, h2.d1 / 2, x.d2, x.d3)?;
    let h4: GpuTensor = dconv_rows(p, h3, &layer.dconv)?;
    let h5: GpuTensor = conv::conv_transpose2d_8x1_s4p2(
        p,
        h4,
        &layer.conv_tr,
        &layer.conv_tr_bias,
    )?;
    finish4(p, h5, freq_target, layer.last)
}

/// How many positions a length is short of a multiple of the stride.
pub open spec fn lacking(t: usize) -> usize {
    if t % STRIDE == 0 {
        0
    } else {
        (STRIDE - t % STRIDE) as usize
    }
}

/// Filled up, a length is a multiple of the stride, and less than a stride was added.
pub proof fn filled_up_divides(t: usize)
    ensures
        (t + lacking(t)) % (STRIDE as int) == 0,
        lacking(t) < STRIDE,
{
}

/// The steps of [`tenc_layer`].
#[verifier::opaque]
pub open spec fn tenc_layer_steps(s: Seq<Step>, x: GpuTensor, l: GpuTEncLayer) -> Built<GpuTensor> {
    match layout::pad_l_steps(s, x, lacking(x.d2)) {
        Err(e) => Err(e),
        Ok((s, x)) => match conv::conv1d_k8_s4p2_steps(s, x, l.conv, l.conv_bias) {
            Err(e) => Err(e),
            Ok((s, h)) => match elementwise::gelu_steps(s, h) {
                Err(e) => Err(e),
                Ok((s, h)) => match dconv_steps(s, h, l.dconv) {
                    Err(e) => Err(e),
                    Ok((s, h)) => match conv::conv1d_1x1_steps(s, h, l.rewrite, l.rewrite_bias) {
                        Err(e) => Err(e),
                        Ok((s, h)) => elementwise::glu_channel_steps(s, h),
                    },
                },
            },
        },
    }
}

/// Layer of the time encoder: `[b, c_in, t]` to `[b, c_out, t / 4]`, rounded up.
pub fn tenc_layer(p: &mut Program, x: GpuTensor, layer: &GpuTEncLayer) -> (r: Result<
    GpuTensor,
    DemucsError,
>)
    requires
        program::program_ok(old(p)@),
        gpu_tensor::tensor_ok(old(p)@, x),
        x.rank == 3,
        gpu_model::tenc_ok(old(p)@, *layer),
    ensures
        elementwise::good(old(p)@, tenc_layer_steps(old(p)@, x, *layer), r, final(p)@),
        r is Ok ==> r->Ok_0.rank == 3,
{
    proof {
        reveal(tenc_layer_steps);
    }
    let pad: usize = if x.d2 % STRIDE == 0 {
        0
    } else {
        STRIDE - x.d2 % STRIDE
    };
    let x: GpuTensor = layout::pad_l(p, x, pad)?;
    let h: GpuTensor = conv::conv1d_k8_s4p2(p, x, &layer.conv, &layer.conv_bias)?;
    let h: GpuTensor = elementwise::gelu_inplace(p, h)?;
    let h: GpuTensor = dconv(p, h, &layer.dconv)?;
    let h: GpuTensor = conv::conv1d_1x1(p, h, &layer.rewrite, &layer.rewrite_bias)?;
    elementwise::glu_channel(p, h)
}

/// The skip cut down to the length of `x`.
pub open spec fn skip_steps(s: Seq<Step>, x: GpuTensor, skip: GpuTensor) -> Built<GpuTensor> {
    if skip.d2 > x.d2 {
        layout::trim_l_steps(s, skip, x.d2)
    } else {
        Ok((s, skip))
    }
}

/// The steps of [`tdec_layer`].
#[verifier::opaque]
pub open spec fn tdec_layer_steps(
    s: Seq<Step>,
    x: GpuTensor,
    skip: GpuTensor,
    target: usize,
    l: GpuTDecLayer,
) -> Built<GpuTensor> {
    match skip_steps(s, x, skip) {
        Err(e) => Err(e),
        Ok((s, skip)) => match elementwise::add_to_steps(s, x, skip) {
            Err(e) => Err(e),
            Ok((s, h)) => match conv::conv1d_k3_dilation_steps(s, h, l.rewrite, l.rewrite_bias, 1) {
                Err(e) => Err(e),
                Ok((s, h)) => match elementwise::glu_channel_steps(s, h) {
                    Err(e) => Err(e),
                    Ok((s, h)) => match dconv_steps(s, h, l.dconv) {
                        Err(e) => Err(e),
                        Ok((s, h)) => match conv::conv_transpose1d_8_s4p2_steps(
                            s,
                            h,
                            l.conv_tr,
                            l.conv_tr_bias,
                        ) {
                            Err(e) => Err(e),
                            Ok((s, h)) => finish3_steps(s, h, target, l.last),
                        },
                    },
                },
            },
        },
    }
}

/// Layer of the time decoder: `[b, c, t]` with the skip, cut down to its length, to four times
/// the length, cut down to `time_target`.
pub fn tdec_layer(p: &mut Program, x: GpuTensor, skip: GpuTensor, time_target: usize, layer: &GpuTDecLayer) -> (r: Result<
    GpuTensor,
    DemucsError,
>)
    requires
        program::program_ok(old(p)@),
        gpu_tensor::tensor_ok(old(p)@, x),
        gpu_tensor::tensor_ok(old(p)@, skip),
        x.rank == 3,
        skip.rank == 3,
        gpu_model::tdec_ok(old(p)@, *layer),
    ensures
        elementwise::good(
            old(p)@,
            tdec_layer_steps(old(p)@, x, skip, time_target, *layer),
            r,
            final(p)@,
        ),
        r is Ok ==> r->Ok_0.rank == 3,
{
    proof {
        reveal(tdec_layer_steps);
    }
    let skip: GpuTensor = if skip.d2 > x.d2 {
        layout::trim_l(p, skip, x.d2)?
    } else {
        skip
    };
    let h: GpuTensor = elementwise::add_to(p, x, skip)?;
    let h: GpuTensor = conv::conv1d_k3_dilation(p, h, &layer.rewrite, &layer.rewrite_bias, 1)?;
    let h: GpuTensor = elementwise::glu_channel(p, h)?;
    let h: GpuTensor = dconv(p, h, &layer.dconv)?;
    let h: GpuTensor = conv::conv_transpose1d_8_s4p2(p, h, &layer.conv_tr, &layer.conv_tr_bias)?;
    finish3(p, h, time_target, layer.last)
}

} // verus!
