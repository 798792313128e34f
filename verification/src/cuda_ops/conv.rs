//! Convolutions: the input unfolded into patches, then a product with the weights.
use vstd::prelude::*;
use crate::cuda_ops::elementwise;
use crate::cuda_ops::layout;
use crate::cuda_ops::matmul;
use crate::error::DemucsError;
use crate::gpu_model::GpuBias;
use crate::gpu_model::GpuConv1dWeight;
use crate::gpu_model::GpuConv2dWeight;
use crate::gpu_model::GpuConvTranspose1dWeight;
use crate::gpu_model::GpuConvTranspose2dWeight;
use crate::gpu_tensor;
use crate::gpu_tensor::tensor3;
use crate::gpu_tensor::Built;
use crate::gpu_tensor::GpuBuffer;
use crate::gpu_tensor::GpuTensor;
use crate::program;
use crate::program::ints3;
use crate::program::ints4;
use crate::program::ints5;
use crate::program::ints6;
use crate::program::ints8;
use crate::program::Ints;
use crate::program::Kernel;
use crate::program::Program;
use crate::program::Step;
use crate::program::LIMIT;
use crate::text;

verus! {

/// Length of the result of a convolution with a kernel of 8, stride 4 and padding 2.
pub open spec fn quarter(l: int) -> int {
    (l + 2 * 2 - 8) / 4 + 1
}

/// Length of the result of the transpose of such a convolution.
pub open spec fn fourfold(l: int) -> int {
    (l - 1) * 4 + 8 - 1 - 2 * 2 + 1
}

/// The convolution divides a length that is a multiple of 4 by 4, and its transpose gives the
/// length back.
pub proof fn quarter_then_fourfold(l: int)
    requires
        l >= 4,
        l % 4 == 0,
    ensures
        quarter(l) == l / 4,
        fourfold(quarter(l)) == l,
{
}

/// The tensor `[b, c, l, 1]` without its last axis.
pub open spec fn without_last(b: Built<GpuTensor>) -> Built<GpuTensor> {
    match b {
        Ok((s, t)) => Ok((s, tensor3(t.data.id, t.data.len, t.d0, t.d1, t.d2))),
        Err(e) => Err(e),
    }
}

/// The steps of [`unfold_and_project`].
pub open spec fn conv_steps(
    s: Seq<Step>,
    kernel: Kernel,
    x: GpuBuffer,
    ints: Ints,
    taps: usize,
    w: GpuBuffer,
    bias: GpuBuffer,
    b: usize,
    c_in: usize,
    c_out: usize,
    h: usize,
    width: usize,
) -> Built<GpuTensor> {
    match (gpu_tensor::size3(b, h, width), gpu_tensor::size2(c_in, taps)) {
        (Some(rows), Some(patch)) => match matmul::unfold_steps(s, kernel, x, ints, rows, patch) {
            Err(e) => Err(e),
            Ok((s, col)) => matmul::project_steps(
                s,
                col.data,
                w,
                bias,
                patch,
                b,
                c_out,
                h,
                width,
            ),
        },
        _ => Err(gpu_tensor::too_large()),
    }
}

/// Unfolds the input by `kernel` and multiplies the patches, of `taps` elements of each
/// channel, by the weights.
fn unfold_and_project(
    p: &mut Program,
    kernel: Kernel,
    x: GpuBuffer,
    ints: Ints,
    taps: usize,
    w: GpuBuffer,
    bias: GpuBuffer,
    b: usize,
    c_in: usize,
    c_out: usize,
    h: usize,
    width: usize,
) -> (r: Result<GpuTensor, DemucsError>)
    requires
        program::program_ok(old(p)@),
        gpu_tensor::buffer_ok(old(p)@, w),
        gpu_tensor::buffer_ok(old(p)@, bias),
        forall|n: usize|
            n == (b * h * width) * (c_in * taps) && n <= LIMIT && b * h <= LIMIT && b * h * width
                <= LIMIT && c_in * taps <= LIMIT ==> #[trigger] program::launch_ok(
                old(p)@,
                elementwise::launch1(kernel, x, ints, program::Factor::Absent, n),
            ),
    ensures
        elementwise::good(
            old(p)@,
            conv_steps(old(p)@, kernel, x, ints, taps, w, bias, b, c_in, c_out, h, width),
            r,
            final(p)@,
        ),
{
    let rows: usize = match gpu_tensor::count3(b, h, width) {
        Some(n) => n,
        None => {
            return Err(gpu_tensor::large());
        },
    };
    let patch: usize = match gpu_tensor::count2(c_in, taps) {
        Some(n) => n,
        None => {
            return Err(gpu_tensor::large());
        },
    };
    let col: GpuTensor = matmul::unfold(p, kernel, x, ints, rows, patch)?;
    matmul::project(p, col.data, w, bias, patch, b, c_out, h, width)
}

/// The steps of [`conv1d_k1`].
pub open spec fn conv1d_k1_steps(
    s: Seq<Step>,
    x: GpuTensor,
    w: GpuConv1dWeight,
    bias: GpuBias,
) -> Built<GpuTensor> {
    if x.d1 != w.in_ch {
        Err(
            "conv1d_k1: c_in="@ + text::decimal_text(x.d1 as nat) + " != w.in_ch="@
                + text::decimal_text(w.in_ch as nat)
        )
    } else {
        without_last(
            conv_steps(
                s,
                Kernel::Im2col1dK1,
                x.data,
                ints3(x.d0, x.d1, x.d2),
                1,
                w.data,
                bias.data,
                x.d0,
                x.d1,
                w.out_ch,
                x.d2,
                1,
            ),
        )
    }
}

/// Convolution with a kernel of 1: `[b, c_in, l]` to `[b, c_out, l]`.
pub fn conv1d_k1(p: &mut Program, x: GpuTensor, w: &GpuConv1dWeight, bias: &GpuBias) -> (r: Result<
    GpuTensor,
    DemucsError,
>)
    requires
        program::program_ok(old(p)@),
        gpu_tensor::tensor_ok(old(p)@, x),
        x.rank == 3,
        gpu_tensor::buffer_ok(old(p)@, w.data),
        gpu_tensor::buffer_ok(old(p)@, bias.data),
    ensures
        elementwise::good(old(p)@, conv1d_k1_steps(old(p)@, x, *w, *bias), r, final(p)@),
{
    if x.d1 != w.in_ch {
        let m: String = "conv1d_k1: c_in=".to_owned();
        let m: String = text::more_number(m, x.d1);
        let m: String = text::more(m, " != w.in_ch=");
        let m: String = text::more_number(m, w.in_ch);
        return Err(DemucsError::Shape(m));
    }
    proof {
        reveal(program::launch_ok);
        assert((x.d0 * x.d2 * 1) * (x.d1 * 1) == (x.d0 * x.d2) * x.d1);
    }
    let t: GpuTensor = unfold_and_project(
        p,
        Kernel::Im2col1dK1,
        x.data,
        ints3(x.d0, x.d1, x.d2),
        1,
        w.data,
        bias.data,
        x.d0,
        x.d1,
        w.out_ch,
        x.d2,
        1,
    )?;

    proof {
        assert(t.d0 * t.d1 * t.d2 * 1 == t.d0 * t.d1 * t.d2);
    }
    Ok(tensor3(t.data.id, t.data.len, t.d0, t.d1, t.d2))
}

/// The steps of [`conv1d_k3_dilation`].
pub open spec fn conv1d_k3_dilation_steps(
    s: Seq<Step>,
    x: GpuTensor,
    w: GpuConv1dWeight,
    bias: GpuBias,
    dilation: usize,
) -> Built<GpuTensor> {
    if x.d1 != w.in_ch {
        Err(
            "conv1d_k3_dilation: c_in="@ + text::decimal_text(x.d1 as nat) + " != w.in_ch="@
                + text::decimal_text(w.in_ch as nat)
        )
    } else if w.k != 3 {
        Err("conv1d_k3_dilation: w.k="@ + text::decimal_text(w.k as nat) + " != 3"@)
    } else if dilation > LIMIT {
        Err(gpu_tensor::too_large())
    } else {
        without_last(
            conv_steps(
                s,
                Kernel::Im2col1dK3Dilation,
                x.data,
                ints5(x.d0, x.d1, x.d2, x.d2, dilation),
                3,
                w.data,
                bias.data,
                x.d0,
                x.d1,
                w.out_ch,
                x.d2,
                1,
            ),
        )
    }
}

/// Convolution with a dilated kernel of 3 that keeps the length.
pub fn conv1d_k3_dilation(p: &mut Program, x: GpuTensor, w: &GpuConv1dWeight, bias: &GpuBias, dilation: usize) -> (r: Result<
    GpuTensor,
    DemucsError,
>)
    requires
        program::program_ok(old(p)@),
        gpu_tensor::tensor_ok(old(p)@, x),
        x.rank == 3,
        gpu_tensor::buffer_ok(old(p)@, w.data),
        gpu_tensor::buffer_ok(old(p)@, bias.data),
    ensures
        elementwise::good(
            old(p)@,
            conv1d_k3_dilation_steps(old(p)@, x, *w, *bias, dilation),
            r,
            final(p)@,
        ),
{
    if x.d1 != w.in_ch {
        let m: String = "conv1d_k3_dilation: c_in=".to_owned();
        let m: String = text::more_number(m, x.d1);
        let m: String = text::more(m, " != w.in_ch=");
        let m: String = text::more_number(m, w.in_ch);
        return Err(DemucsError::Shape(m));
    }
    if w.k != 3 {
        let m: String = "conv1d_k3_dilation: w.k=".to_owned();
        let m: String = text::more_number(m, w.k);
        let m: String = text::more(m, " != 3");
        return Err(DemucsError::Shape(m));
    }
    if dilation > LIMIT {
        return Err(gpu_tensor::large());
    }
    proof {
        reveal(program::launch_ok);
        assert((x.d0 * x.d2 * 1) * (x.d1 * 3) == (x.d0 * x.d2) * (x.d1 * 3));
    }
    let t: GpuTensor = unfold_and_project(
        p,
        Kernel::Im2col1dK3Dilation,
        x.data,
        ints5(x.d0, x.d1, x.d2, x.d2, dilation),
        3,
        w.data,
        bias.data,
        x.d0,
        x.d1,
        w.out_ch,
        x.d2,
        1,
    )?;

    proof {
        assert(t.d0 * t.d1 * t.d2 * 1 == t.d0 * t.d1 * t.d2);
    }
    Ok(tensor3(t.data.id, t.data.len, t.d0, t.d1, t.d2))
}

/// The steps of [`conv1d_k8_s4p2`].
pub open spec fn conv1d_k8_s4p2_steps(
    s: Seq<Step>,
    x: GpuTensor,
    w: GpuConv1dWeight,
    bias: GpuBias,
) -> Built<GpuTensor> {
    if x.d1 != w.in_ch {
        Err(
            "conv1d_k8_s4p2: c_in="@ + text::decimal_text(x.d1 as nat) + " != w.in_ch="@
                + text::decimal_text(w.in_ch as nat)
        )
    } else if w.k != 8 {
        Err("conv1d_k8_s4p2: w.k="@ + text::decimal_text(w.k as nat) + " != 8"@)
    } else if x.d2 < 4 {
        Err(gpu_tensor::too_short())
    } else {
        without_last(
            conv_steps(
                s,
                Kernel::Im2col8S4P21d,
                x.data,
                ints4(x.d0, x.d1, x.d2, quarter(x.d2 as int) as usize),
                8,
                w.data,
                bias.data,
                x.d0,
                x.d1,
                w.out_ch,
                quarter(x.d2 as int) as usize,
                1,
            ),
        )
    }
}

/// Convolution with a kernel of 8, stride 4 and padding 2.
pub fn conv1d_k8_s4p2(p: &mut Program, x: GpuTensor, w: &GpuConv1dWeight, bias: &GpuBias) -> (r: Result<
    GpuTensor,
    DemucsError,
>)
    requires
        program::program_ok(old(p)@),
        gpu_tensor::tensor_ok(old(p)@, x),
        x.rank == 3,
        gpu_tensor::buffer_ok(old(p)@, w.data),
        gpu_tensor::buffer_ok(old(p)@, bias.data),
    ensures
        elementwise::good(old(p)@, conv1d_k8_s4p2_steps(old(p)@, x, *w, *bias), r, final(p)@),
{
    if x.d1 != w.in_ch {
        let m: String = "conv1d_k8_s4p2: c_in=".to_owned();
        let m: String = text::more_number(m, x.d1);
        let m: String = text::more(m, " != w.in_ch=");
        let m: String = text::more_number(m, w.in_ch);
        return Err(DemucsError::Shape(m));
    }
    if w.k != 8 {
        let m: String = "conv1d_k8_s4p2: w.k=".to_owned();
        let m: String = text::more_number(m, w.k);
        let m: String = text::more(m, " != 8");
        return Err(DemucsError::Shape(m));
    }
    if x.d2 < 4 {
        return Err(gpu_tensor::short());
    }
    let l_out: usize = (x.d2 + 4 - 8) / 4 + 1;
    proof {
        reveal(program::launch_ok);
        assert((x.d0 * l_out * 1) * (x.d1 * 8) == (x.d0 * l_out) * (x.d1 * 8));
    }
    let t: GpuTensor = unfold_and_project(
        p,
        Kernel::Im2col8S4P21d,
        x.data,
        ints4(x.d0, x.d1, x.d2, l_out),
        8,
        w.data,
        bias.data,
        x.d0,
        x.d1,
        w.out_ch,
        l_out,
        1,
    )?;

    proof {
        assert(t.d0 * t.d1 * t.d2 * 1 == t.d0 * t.d1 * t.d2);
    }
    Ok(tensor3(t.data.id, t.data.len, t.d0, t.d1, t.d2))
}

/// The steps of [`conv2d_8x1_s4p2`].
pub open spec fn conv2d_8x1_s4p2_steps(
    s: Seq<Step>,
    x: GpuTensor,
    w: GpuConv2dWeight,
    bias: GpuBias,
) -> Built<GpuTensor> {
    if x.d1 != w.in_ch || w.kh != 8 || w.kw != 1 {
        Err(
            "conv2d_8x1_s4p2: shape mismatch (c_in="@ + text::decimal_text(x.d1 as nat) + " w.in="@
                + text::decimal_text(w.in_ch as nat) + ", kh="@ + text::decimal_text(w.kh as nat)
                + " kw="@ + text::decimal_text(w.kw as nat) + ")"@
        )
    } else if x.d2 < 4 || x.d3 == 0 {
        Err(gpu_tensor::too_short())
    } else if gpu_tensor::size2(quarter(x.d2 as int) as usize, x.d3) is None {
        Err(gpu_tensor::too_large())
    } else {
        conv_steps(
            s,
            Kernel::Im2col8x1S4P2,
            x.data,
            ints6(x.d0, x.d1, x.d2, x.d3, (quarter(x.d2 as int) * x.d3) as usize, x.d3),
            8,
            w.data,
            bias.data,
            x.d0,
            x.d1,
            w.out_ch,
            quarter(x.d2 as int) as usize,
            x.d3,
        )
    }
}

/// Convolution with a kernel of 8 by 1, stride 4 and padding 2 along the first axis.
pub fn conv2d_8x1_s4p2(p: &mut Program, x: GpuTensor, w: &GpuConv2dWeight, bias: &GpuBias) -> (r: Result<
    GpuTensor,
    DemucsError,
>)
    requires
        program::program_ok(old(p)@),
        gpu_tensor::tensor_ok(old(p)@, x),
        x.rank == 4,
        gpu_tensor::buffer_ok(old(p)@, w.data),
        gpu_tensor::buffer_ok(old(p)@, bias.data),
    ensures
        elementwise::good(old(p)@, conv2d_8x1_s4p2_steps(old(p)@, x, *w, *bias), r, final(p)@),
{
    if x.d1 != w.in_ch || w.kh != 8 || w.kw != 1 {
        let m: String = "conv2d_8x1_s4p2: shape mismatch (c_in=".to_owned();
        let m: String = text::more_number(m, x.d1);
        let m: String = text::more(m, " w.in=");
        let m: String = text::more_number(m, w.in_ch);
        let m: String = text::more(m, ", kh=");
        let m: String = text::more_number(m, w.kh);
        let m: String = text::more(m, " kw=");
        let m: String = text::more_number(m, w.kw);
        let m: String = text::more(m, ")");
        return Err(DemucsError::Shape(m));
    }
    if x.d2 < 4 || x.d3 == 0 {
        return Err(gpu_tensor::short());
    }
    let h_out: usize = (x.d2 + 4 - 8) / 4 + 1;
    let spatial: usize = match gpu_tensor::count2(h_out, x.d3) {
        Some(n) => n,
        None => {
            return Err(gpu_tensor::large());
        },
    };
    proof {
        reveal(program::launch_ok);
        assert(x.d0 * (h_out * x.d3) == x.d0 * h_out * x.d3) by (nonlinear_arith);
    }
    let t: GpuTensor = unfold_and_project(
        p,
        Kernel::Im2col8x1S4P2,
        x.data,
        ints6(x.d0, x.d1, x.d2, x.d3, spatial, x.d3),
        8,
        w.data,
        bias.data,
        x.d0,
        x.d1,
        w.out_ch,
        h_out,
        x.d3,
    )?;

    Ok(t)
}

/// The steps of [`conv2d_3x3_s1p1`].
pub open spec fn conv2d_3x3_s1p1_steps(
    s: Seq<Step>,
    x: GpuTensor,
    w: GpuConv2dWeight,
    bias: GpuBias,
) -> Built<GpuTensor> {
    if x.d1 != w.in_ch || w.kh != 3 || w.kw != 3 {
        Err("conv2d_3x3_s1p1: shape mismatch"@)
    } else {
        conv_steps(
            s,
            Kernel::Im2col3x3S1P1,
            x.data,
            ints6(x.d0, x.d1, x.d2, x.d3, x.d2, x.d3),
            9,
            w.data,
            bias.data,
            x.d0,
            x.d1,
            w.out_ch,
            x.d2,
            x.d3,
        )
    }
}

/// Convolution with a kernel of 3 by 3 and padding 1.
pub fn conv2d_3x3_s1p1(p: &mut Program, x: GpuTensor, w: &GpuConv2dWeight, bias: &GpuBias) -> (r: Result<
    GpuTensor,
    DemucsError,
>)
    requires
        program::program_ok(old(p)@),
        gpu_tensor::tensor_ok(old(p)@, x),
        x.rank == 4,
        gpu_tensor::buffer_ok(old(p)@, w.data),
        gpu_tensor::buffer_ok(old(p)@, bias.data),
    ensures
        elementwise::good(old(p)@, conv2d_3x3_s1p1_steps(old(p)@, x, *w, *bias), r, final(p)@),
{
    if x.d1 != w.in_ch || w.kh != 3 || w.kw != 3 {
        let m: String = "conv2d_3x3_s1p1: shape mismatch".to_owned();
        return Err(DemucsError::Shape(m));
    }
    proof {
        reveal(program::launch_ok);
    }
    let t: GpuTensor = unfold_and_project(
        p,
        Kernel::Im2col3x3S1P1,
        x.data,
        ints6(x.d0, x.d1, x.d2, x.d3, x.d2, x.d3),
        9,
        w.data,
        bias.data,
        x.d0,
        x.d1,
        w.out_ch,
        x.d2,
        x.d3,
    )?;

    Ok(t)
}

/// The steps of [`conv_transpose2d_8x1_s4p2`].
pub open spec fn conv_transpose2d_8x1_s4p2_steps(
    s: Seq<Step>,
    x: GpuTensor,
    w: GpuConvTranspose2dWeight,
    bias: GpuBias,
) -> Built<GpuTensor> {
    if x.d1 != w.in_ch || w.kh != 8 || w.kw != 1 {
        Err(
            "conv_transpose2d_8x1_s4p2: shape mismatch (c_in="@ + text::decimal_text(x.d1 as nat)
                + " w.in="@ + text::decimal_text(w.in_ch as nat) + ", kh="@
                + text::decimal_text(w.kh as nat) + " kw="@ + text::decimal_text(w.kw as nat) + ")"@
        )
    } else if x.d2 > LIMIT / 4 {
        Err(gpu_tensor::too_large())
    } else {
        conv_steps(
            s,
            Kernel::Im2colConvTranspose8x1S4P2,
            x.data,
            ints8(x.d0, x.d1, x.d2, x.d3, fourfold(x.d2 as int) as usize, x.d3, 2, 4),
            8,
            w.data,
            bias.data,
            x.d0,
            x.d1,
            w.out_ch,
            fourfold(x.d2 as int) as usize,
            x.d3,
        )
    }
}

/// Transpose of the convolution with a kernel of 8 by 1, stride 4 and padding 2.
pub fn conv_transpose2d_8x1_s4p2(p: &mut Program, x: GpuTensor, w: &GpuConvTranspose2dWeight, bias: &GpuBias) -> (r: Result<
    GpuTensor,
    DemucsError,
>)
    requires
        program::program_ok(old(p)@),
        gpu_tensor::tensor_ok(old(p)@, x),
        x.rank == 4,
        gpu_tensor::buffer_ok(old(p)@, w.data),
        gpu_tensor::buffer_ok(old(p)@, bias.data),
    ensures
        elementwise::good(
            old(p)@,
            conv_transpose2d_8x1_s4p2_steps(old(p)@, x, *w, *bias),
            r,
            final(p)@,
        ),
{
    if x.d1 != w.in_ch || w.kh != 8 || w.kw != 1 {
        let m: String = "conv_transpose2d_8x1_s4p2: shape mismatch (c_in=".to_owned();
        let m: String = text::more_number(m, x.d1);
        let m: String = text::more(m, " w.in=");
        let m: String = text::more_number(m, w.in_ch);
        let m: String = text::more(m, ", kh=");
        let m: String = text::more_number(m, w.kh);
        let m: String = text::more(m, " kw=");
        let m: String = text::more_number(m, w.kw);
        let m: String = text::more(m, ")");
        return Err(DemucsError::Shape(m));
    }
    if x.d2 > LIMIT / 4 {
        return Err(gpu_tensor::large());
    }
    let h_out: usize = 4 * x.d2;
    proof {
        reveal(program::launch_ok);
    }
    let t: GpuTensor = unfold_and_project(
        p,
        Kernel::Im2colConvTranspose8x1S4P2,
        x.data,
        ints8(x.d0, x.d1, x.d2, x.d3, h_out, x.d3, 2, 4),
        8,
        w.data,
        bias.data,
        x.d0,
        x.d1,
        w.out_ch,
        h_out,
        x.d3,
    )?;

    Ok(t)
}

/// The steps of [`conv_transpose1d_8_s4p2`].
pub open spec fn conv_transpose1d_8_s4p2_steps(
    s: Seq<Step>,
    x: GpuTensor,
    w: GpuConvTranspose1dWeight,
    bias: GpuBias,
) -> Built<GpuTensor> {
    if x.d1 != w.in_ch || w.k != 8 {
        Err(
            "conv_transpose1d_8_s4p2: shape mismatch (c_in="@ + text::decimal_text(x.d1 as nat)
                + " w.in="@ + text::decimal_text(w.in_ch as nat) + ", k="@
                + text::decimal_text(w.k as nat) + ")"@
        )
    } else if x.d2 > LIMIT / 4 {
        Err(gpu_tensor::too_large())
    } else {
        without_last(
            conv_steps(
                s,
                Kernel::Im2colConvTranspose8S4P21d,
                x.data,
                ints6(x.d0, x.d1, x.d2, fourfold(x.d2 as int) as usize, 2, 4),
                8,
                w.data,
                bias.data,
                x.d0,
                x.d1,
                w.out_ch,
                fourfold(x.d2 as int) as usize,
                1,
            ),
        )
    }
}

/// Transpose of the convolution with a kernel of 8, stride 4 and padding 2.
pub fn conv_transpose1d_8_s4p2(p: &mut Program, x: GpuTensor, w: &GpuConvTranspose1dWeight, bias: &GpuBias) -> (r: Result<
    GpuTensor,
    DemucsError,
>)
    requires
        program::program_ok(old(p)@),
        gpu_tensor::tensor_ok(old(p)@, x),
        x.rank == 3,
        gpu_tensor::buffer_ok(old(p)@, w.data),
        gpu_tensor::buffer_ok(old(p)@, bias.data),
    ensures
        elementwise::good(
            old(p)@,
            conv_transpose1d_8_s4p2_steps(old(p)@, x, *w, *bias),
            r,
            final(p)@,
        ),
{
    if x.d1 != w.in_ch || w.k != 8 {
        let m: String = "conv_transpose1d_8_s4p2: shape mismatch (c_in=".to_owned();
        let m: String = text::more_number(m, x.d1);
        let m: String = text::more(m, " w.in=");
        let m: String = text::more_number(m, w.in_ch);
        let m: String = text::more(m, ", k=");
        let m: String = text::more_number(m, w.k);
        let m: String = text::more(m, ")");
        return Err(DemucsError::Shape(m));
    }
    if x.d2 > LIMIT / 4 {
        return Err(gpu_tensor::large());
    }
    let l_out: usize = 4 * x.d2;
    proof {
        reveal(program::launch_ok);
        assert((x.d0 * l_out * 1) * (x.d1 * 8) == (x.d0 * l_out) * (x.d1 * 8));
    }
    let t: GpuTensor = unfold_and_project(
        p,
        Kernel::Im2colConvTranspose8S4P21d,
        x.data,
        ints6(x.d0, x.d1, x.d2, l_out, 2, 4),
        8,
        w.data,
        bias.data,
        x.d0,
        x.d1,
        w.out_ch,
        l_out,
        1,
    )?;

    proof {
        assert(t.d0 * t.d1 * t.d2 * 1 == t.d0 * t.d1 * t.d2);
    }
    Ok(tensor3(t.data.id, t.data.len, t.d0, t.d1, t.d2))
}

/// The steps of [`conv2d_1x1`].
pub open spec fn conv2d_1x1_steps(
    s: Seq<Step>,
    x: GpuTensor,
    w: GpuConv2dWeight,
    bias: GpuBias,
) -> Built<
    GpuTensor,
> {
    if x.d1 != w.in_ch || w.kh != 1 || w.kw != 1 {
        Err("conv2d_1x1: shape mismatch"@)
    } else {
        match layout::transpose_bchw_to_bhwc_steps(s, x) {
            Err(e) => Err(e),
            Ok((s, rows)) => matmul::project_steps(
                s,
                rows.data,
                w.data,
                bias.data,
                x.d1,
                x.d0,
                w.out_ch,
                x.d2,
                x.d3,
            ),
        }
    }
}

/// Convolution with a kernel of 1 by 1: a product over the channels.
pub fn conv2d_1x1(p: &mut Program, x: GpuTensor, w: &GpuConv2dWeight, bias: &GpuBias) -> (r: Result<
    GpuTensor,
    DemucsError,
>)
    requires
        program::program_ok(old(p)@),
        gpu_tensor::tensor_ok(old(p)@, x),
        x.rank == 4,
        gpu_tensor::buffer_ok(old(p)@, w.data),
        gpu_tensor::buffer_ok(old(p)@, bias.data),
    ensures
        elementwise::good(old(p)@, conv2d_1x1_steps(old(p)@, x, *w, *bias), r, final(p)@),
{
    if x.d1 != w.in_ch || w.kh != 1 || w.kw != 1 {
        return Err(DemucsError::Shape("conv2d_1x1: shape mismatch".to_owned()));
    }
    let rows: GpuTensor = layout::transpose_bchw_to_bhwc(p, x)?;
    matmul::project(p, rows.data, w.data, bias.data, x.d1, x.d0, w.out_ch, x.d2, x.d3)
}

/// The steps of [`conv1d_1x1`].
pub open spec fn conv1d_1x1_steps(
    s: Seq<Step>,
    x: GpuTensor,
    w: GpuConv1dWeight,
    bias: GpuBias,
) -> Built<
    GpuTensor,
> {
    if x.d1 != w.in_ch || w.k != 1 {
        Err(
            "conv1d_1x1: shape mismatch (k="@ + text::decimal_text(w.k as nat) + " c_in="@
                + text::decimal_text(x.d1 as nat) + ")"@,
        )
    } else {
        match gpu_tensor::size2(x.d0, x.d2) {
            None => Err(gpu_tensor::too_large()),
            Some(n) => match layout::swap_dims_12_3d_steps(s, x) {
                Err(e) => Err(e),
                Ok((s, rows)) => match matmul::gemm_steps(s, rows.data, w.data, n, w.out_ch, x.d1) {
                    Err(e) => Err(e),
                    Ok((s, g)) => match matmul::add_bias_steps(s, g, bias.data) {
                        Err(e) => Err(e),
                        Ok((s, y)) => match gpu_tensor::as_tensor3(y.data, x.d0, x.d2, w.out_ch) {
                            Err(e) => Err(e),
                            Ok(t) => layout::swap_dims_12_3d_steps(s, t),
                        },
                    },
                },
            },
        }
    }
}

/// Convolution with a kernel of 1, as a product over the channels.
pub fn conv1d_1x1(p: &mut Program, x: GpuTensor, w: &GpuConv1dWeight, bias: &GpuBias) -> (r: Result<
    GpuTensor,
    DemucsError,
>)
    requires
        program::program_ok(old(p)@),
        gpu_tensor::tensor_ok(old(p)@, x),
        x.rank == 3,
        gpu_tensor::buffer_ok(old(p)@, w.data),
        gpu_tensor::buffer_ok(old(p)@, bias.data),
    ensures
        elementwise::good(old(p)@, conv1d_1x1_steps(old(p)@, x, *w, *bias), r, final(p)@),
{
    if x.d1 != w.in_ch || w.k != 1 {
        let m: String = text::more_number("conv1d_1x1: shape mismatch (k=".to_owned(), w.k);
        let m: String = text::more_number(text::more(m, " c_in="), x.d1);
        return Err(DemucsError::Shape(text::more(m, ")")));
    }
    let n: usize = match gpu_tensor::count2(x.d0, x.d2) {
        Some(n) => n,
        None => {
            return Err(gpu_tensor::large());
        },
    };
    let rows: GpuTensor = layout::swap_dims_12_3d(p, x)?;
    let g: GpuTensor = matmul::gemm_f16(p, rows.data, w.data, n, w.out_ch, x.d1)?;
    let y: GpuTensor = matmul::add_bias(p, g, bias.data)?;
    let t: GpuTensor = GpuTensor::new3(y.data, x.d0, x.d2, w.out_ch)?;
    layout::swap_dims_12_3d(p, t)
}

} // verus!
