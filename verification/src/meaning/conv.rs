//! Convolutions on the device.
use vstd::prelude::*;
use crate::arith;
use crate::arith::Arith;
use crate::cuda_ops::conv as gpu_conv;
use crate::cuda_ops::elementwise;
use crate::cuda_ops::layout as gpu_layout;
use crate::cuda_ops::matmul as gpu_matmul;
use crate::gpu_model::GpuBias;
use crate::gpu_model::GpuConv1dWeight;
use crate::gpu_model::GpuConv2dWeight;
use crate::gpu_model::GpuConvTranspose1dWeight;
use crate::gpu_model::GpuConvTranspose2dWeight;
use crate::gpu_tensor;
use crate::gpu_tensor::GpuTensor;
use crate::index;
use crate::meaning;
use crate::meaning::matmul;
use crate::meaning::operators;
use crate::meaning::weights;
use crate::model::Conv1dWeight;
use crate::model::Conv2dWeight;
use crate::ops_cpu::attention;
use crate::ops_cpu::conv;
use crate::ops_cpu::layout;
use crate::program;
use crate::program::Kernel;
use crate::program::Step;

verus! {

/// The convolution with one tap is the one of the processor.
pub proof fn conv1d_k1_means<A: Arith>(
    a: &A,
    whole: Seq<Step>,
    v: Seq<Seq<A::T>>,
    s: Seq<Step>,
    x: GpuTensor,
    g: GpuConv1dWeight,
    gb: GpuBias,
    w: &Conv1dWeight<A::T>,
    b: Seq<A::T>,
)
    requires
        meaning::unrounded(a),
        meaning::runs(a, whole, v, gpu_conv::conv1d_k1_steps(s, x, g, gb)),
        meaning::holds(v, x),
        x.rank == 3,
        weights::holds_conv1d(v, g, *w),
        weights::holds_bias(v, gb, b),
        w.out_ch > 0,
        w.k == 1,
    ensures
        meaning::went(whole, v, s, gpu_conv::conv1d_k1_steps(s, x, g, gb)),
        ({
            let r = gpu_conv::conv1d_k1_steps(s, x, g, gb)->Ok_0.1;
            &&& r.rank == 3
            &&& meaning::axes3(r) == conv::conv1d_shape(meaning::axes3(x), w, 0, 1, 1)
            &&& conv::is_conv1d(
                a,
                meaning::at(v, x),
                meaning::axes3(x),
                w,
                b,
                0,
                1,
                1,
                meaning::at(v, r),
            )
        }),
{
    reveal(conv::is_conv1d);
    let ah = conv::forward_axis(x.d2, 0, 1, 1, 1);
    let aw = conv::unit_axis();
    assert(x.d0 > 0 && x.d1 > 0 && x.d2 > 0) by (nonlinear_arith)
        requires
            x.d0 * x.d1 * x.d2 > 0,
    ;
    assert(ah.k * aw.k == 1) by (nonlinear_arith)
        requires
            ah.k == 1,
            aw.k == 1,
    ;
    let kernel = Kernel::Im2col1dK1;
    let ints = program::ints3(x.d0, x.d1, x.d2);
    assert(matmul::unfolds(
        a,
        kernel,
        x.data,
        ints,
        meaning::at(v, x),
        x.d0 as int,
        x.d1 as int,
        ah,
        aw,
    )) by {
        reveal(meaning::kernel_means);
    }
    matmul::conv_means(
        a,
        whole,
        v,
        s,
        kernel,
        x.data,
        ints,
        1,
        g.data,
        gb.data,
        x.d0,
        x.d1,
        g.out_ch,
        ah,
        aw,
    );
    let t = gpu_conv::conv_steps(
        s,
        kernel,
        x.data,
        ints,
        1,
        g.data,
        gb.data,
        x.d0,
        x.d1,
        g.out_ch,
        ah.n_out,
        aw.n_out,
    )->Ok_0.1;
    assert(x.d1 * ah.k * aw.k == w.in_ch * w.k);
    matmul::conv_turned(
        a,
        meaning::at(v, x),
        x.d0 as int,
        x.d1 as int,
        ah,
        aw,
        w.out_ch as int,
        w.data@,
        v[g.data.id as int],
        b,
        meaning::at(v, t),
    );
}

/// The dilated convolution with three taps is the one of the processor.
pub proof fn conv1d_k3_dilation_means<A: Arith>(
    a: &A,
    whole: Seq<Step>,
    v: Seq<Seq<A::T>>,
    s: Seq<Step>,
    x: GpuTensor,
    g: GpuConv1dWeight,
    gb: GpuBias,
    dilation: usize,
    w: &Conv1dWeight<A::T>,
    b: Seq<A::T>,
)
    requires
        meaning::unrounded(a),
        meaning::runs(a, whole, v, gpu_conv::conv1d_k3_dilation_steps(s, x, g, gb, dilation)),
        meaning::holds(v, x),
        x.rank == 3,
        weights::holds_conv1d(v, g, *w),
        weights::holds_bias(v, gb, b),
        w.out_ch > 0,
    ensures
        meaning::went(whole, v, s, gpu_conv::conv1d_k3_dilation_steps(s, x, g, gb, dilation)),
        ({
            let r = gpu_conv::conv1d_k3_dilation_steps(s, x, g, gb, dilation)->Ok_0.1;
            &&& r.rank == 3
            &&& meaning::axes3(r) == conv::conv1d_shape(meaning::axes3(x), w, dilation, 1, dilation)
            &&& conv::is_conv1d(
                a,
                meaning::at(v, x),
                meaning::axes3(x),
                w,
                b,
                dilation,
                1,
                dilation,
                meaning::at(v, r),
            )
        }),
{
    reveal(conv::is_conv1d);
    let ah = conv::forward_axis(x.d2, dilation, 3, 1, dilation);
    let aw = conv::unit_axis();
    assert(x.d0 > 0 && x.d1 > 0 && x.d2 > 0) by (nonlinear_arith)
        requires
            x.d0 * x.d1 * x.d2 > 0,
    ;
    assert(ah.k * aw.k == 3) by (nonlinear_arith)
        requires
            ah.k == 3,
            aw.k == 1,
    ;
    let kernel = Kernel::Im2col1dK3Dilation;
    let ints = program::ints5(x.d0, x.d1, x.d2, x.d2, dilation);
    assert(matmul::unfolds(
        a,
        kernel,
        x.data,
        ints,
        meaning::at(v, x),
        x.d0 as int,
        x.d1 as int,
        ah,
        aw,
    )) by {
        reveal(meaning::kernel_means);
    }
    matmul::conv_means(
        a,
        whole,
        v,
        s,
        kernel,
        x.data,
        ints,
        3,
        g.data,
        gb.data,
        x.d0,
        x.d1,
        g.out_ch,
        ah,
        aw,
    );
    let t = gpu_conv::conv_steps(
        s,
        kernel,
        x.data,
        ints,
        3,
        g.data,
        gb.data,
        x.d0,
        x.d1,
        g.out_ch,
        ah.n_out,
        aw.n_out,
    )->Ok_0.1;
    assert(x.d1 * ah.k * aw.k == w.in_ch * w.k);
    matmul::conv_turned(
        a,
        meaning::at(v, x),
        x.d0 as int,
        x.d1 as int,
        ah,
        aw,
        w.out_ch as int,
        w.data@,
        v[g.data.id as int],
        b,
        meaning::at(v, t),
    );
}

/// The strided convolution of the time encoder is the one of the processor.
pub proof fn conv1d_k8_s4p2_means<A: Arith>(
    a: &A,
    whole: Seq<Step>,
    v: Seq<Seq<A::T>>,
    s: Seq<Step>,
    x: GpuTensor,
    g: GpuConv1dWeight,
    gb: GpuBias,
    w: &Conv1dWeight<A::T>,
    b: Seq<A::T>,
)
    requires
        meaning::unrounded(a),
        meaning::runs(a, whole, v, gpu_conv::conv1d_k8_s4p2_steps(s, x, g, gb)),
        meaning::holds(v, x),
        x.rank == 3,
        weights::holds_conv1d(v, g, *w),
        weights::holds_bias(v, gb, b),
        w.out_ch > 0,
    ensures
        meaning::went(whole, v, s, gpu_conv::conv1d_k8_s4p2_steps(s, x, g, gb)),
        ({
            let r = gpu_conv::conv1d_k8_s4p2_steps(s, x, g, gb)->Ok_0.1;
            &&& r.rank == 3
            &&& meaning::axes3(r) == conv::conv1d_shape(meaning::axes3(x), w, 2, 4, 1)
            &&& conv::is_conv1d(
                a,
                meaning::at(v, x),
                meaning::axes3(x),
                w,
                b,
                2,
                4,
                1,
                meaning::at(v, r),
            )
        }),
{
    reveal(conv::is_conv1d);
    let ah = conv::forward_axis(x.d2, 2, 8, 4, 1);
    let aw = conv::unit_axis();
    assert(x.d0 > 0 && x.d1 > 0 && x.d2 > 0) by (nonlinear_arith)
        requires
            x.d0 * x.d1 * x.d2 > 0,
    ;
    assert(ah.k * aw.k == 8) by (nonlinear_arith)
        requires
            ah.k == 8,
            aw.k == 1,
    ;
    let kernel = Kernel::Im2col8S4P21d;
    let ints = program::ints4(x.d0, x.d1, x.d2, gpu_conv::quarter(x.d2 as int) as usize);
    assert(matmul::unfolds(
        a,
        kernel,
        x.data,
        ints,
        meaning::at(v, x),
        x.d0 as int,
        x.d1 as int,
        ah,
        aw,
    )) by {
        reveal(meaning::kernel_means);
    }
    matmul::conv_means(
        a,
        whole,
        v,
        s,
        kernel,
        x.data,
        ints,
        8,
        g.data,
        gb.data,
        x.d0,
        x.d1,
        g.out_ch,
        ah,
        aw,
    );
    let t = gpu_conv::conv_steps(
        s,
        kernel,
        x.data,
        ints,
        8,
        g.data,
        gb.data,
        x.d0,
        x.d1,
        g.out_ch,
        ah.n_out,
        aw.n_out,
    )->Ok_0.1;
    assert(x.d1 * ah.k * aw.k == w.in_ch * w.k);
    matmul::conv_turned(
        a,
        meaning::at(v, x),
        x.d0 as int,
        x.d1 as int,
        ah,
        aw,
        w.out_ch as int,
        w.data@,
        v[g.data.id as int],
        b,
        meaning::at(v, t),
    );
}

/// The strided convolution of the frequency encoder is the one of the processor.
pub proof fn conv2d_8x1_s4p2_means<A: Arith>(
    a: &A,
    whole: Seq<Step>,
    v: Seq<Seq<A::T>>,
    s: Seq<Step>,
    x: GpuTensor,
    g: GpuConv2dWeight,
    gb: GpuBias,
    w: &Conv2dWeight<A::T>,
    b: Seq<A::T>,
)
    requires
        meaning::unrounded(a),
        meaning::runs(a, whole, v, gpu_conv::conv2d_8x1_s4p2_steps(s, x, g, gb)),
        meaning::holds(v, x),
        x.rank == 4,
        weights::holds_conv2d(v, g, *w),
        weights::holds_bias(v, gb, b),
        w.out_ch > 0,
    ensures
        meaning::went(whole, v, s, gpu_conv::conv2d_8x1_s4p2_steps(s, x, g, gb)),
        ({
            let r = gpu_conv::conv2d_8x1_s4p2_steps(s, x, g, gb)->Ok_0.1;
            &&& r.rank == 4
            &&& meaning::axes4(r) == conv::conv2d_shape(meaning::axes4(x), w, 2, 0, 4, 1)
            &&& conv::is_conv2d(
                a,
                meaning::at(v, x),
                meaning::axes4(x),
                w,
                b,
                2,
                0,
                4,
                1,
                meaning::at(v, r),
            )
        }),
{
    reveal(conv::is_conv2d);
    let ah = conv::forward_axis(x.d2, 2, 8, 4, 1);
    let aw = conv::forward_axis(x.d3, 0, 1, 1, 1);
    assert(x.d0 > 0 && x.d1 > 0 && x.d2 > 0 && x.d3 > 0) by (nonlinear_arith)
        requires
            x.d0 * x.d1 * x.d2 * x.d3 > 0,
    ;
    assert(ah.n_out * x.d3 / x.d3 as int == ah.n_out) by {
        vstd::arithmetic::div_mod::lemma_div_by_multiple(ah.n_out as int, x.d3 as int);
    }
    assert(ah.k * aw.k == 8) by (nonlinear_arith)
        requires
            ah.k == 8,
            aw.k == 1,
    ;
    let kernel = Kernel::Im2col8x1S4P2;
    let ints = program::ints6(
        x.d0,
        x.d1,
        x.d2,
        x.d3,
        (gpu_conv::quarter(x.d2 as int) * x.d3) as usize,
        x.d3,
    );
    assert(matmul::unfolds(
        a,
        kernel,
        x.data,
        ints,
        meaning::at(v, x),
        x.d0 as int,
        x.d1 as int,
        ah,
        aw,
    )) by {
        reveal(meaning::kernel_means);
    }
    matmul::conv_means(
        a,
        whole,
        v,
        s,
        kernel,
        x.data,
        ints,
        8,
        g.data,
        gb.data,
        x.d0,
        x.d1,
        g.out_ch,
        ah,
        aw,
    );
    let t = gpu_conv::conv_steps(
        s,
        kernel,
        x.data,
        ints,
        8,
        g.data,
        gb.data,
        x.d0,
        x.d1,
        g.out_ch,
        ah.n_out,
        aw.n_out,
    )->Ok_0.1;
    assert(x.d1 * ah.k * aw.k == w.in_ch * w.kh * w.kw);
    matmul::conv_turned(
        a,
        meaning::at(v, x),
        x.d0 as int,
        x.d1 as int,
        ah,
        aw,
        w.out_ch as int,
        w.data@,
        v[g.data.id as int],
        b,
        meaning::at(v, t),
    );
}

/// The convolution with three by three taps is the one of the processor.
pub proof fn conv2d_3x3_s1p1_means<A: Arith>(
    a: &A,
    whole: Seq<Step>,
    v: Seq<Seq<A::T>>,
    s: Seq<Step>,
    x: GpuTensor,
    g: GpuConv2dWeight,
    gb: GpuBias,
    w: &Conv2dWeight<A::T>,
    b: Seq<A::T>,
)
    requires
        meaning::unrounded(a),
        meaning::runs(a, whole, v, gpu_conv::conv2d_3x3_s1p1_steps(s, x, g, gb)),
        meaning::holds(v, x),
        x.rank == 4,
        weights::holds_conv2d(v, g, *w),
        weights::holds_bias(v, gb, b),
        w.out_ch > 0,
    ensures
        meaning::went(whole, v, s, gpu_conv::conv2d_3x3_s1p1_steps(s, x, g, gb)),
        ({
            let r = gpu_conv::conv2d_3x3_s1p1_steps(s, x, g, gb)->Ok_0.1;
            &&& r.rank == 4
            &&& meaning::axes4(r) == conv::conv2d_shape(meaning::axes4(x), w, 1, 1, 1, 1)
            &&& conv::is_conv2d(
                a,
                meaning::at(v, x),
                meaning::axes4(x),
                w,
                b,
                1,
                1,
                1,
                1,
                meaning::at(v, r),
            )
        }),
{
    reveal(conv::is_conv2d);
    let ah = conv::forward_axis(x.d2, 1, 3, 1, 1);
    let aw = conv::forward_axis(x.d3, 1, 3, 1, 1);
    assert(x.d0 > 0 && x.d1 > 0 && x.d2 > 0 && x.d3 > 0) by (nonlinear_arith)
        requires
            x.d0 * x.d1 * x.d2 * x.d3 > 0,
    ;
    assert(ah.k * aw.k == 9) by (nonlinear_arith)
        requires
            ah.k == 3,
            aw.k == 3,
    ;
    let kernel = Kernel::Im2col3x3S1P1;
    let ints = program::ints6(x.d0, x.d1, x.d2, x.d3, x.d2, x.d3);
    assert(matmul::unfolds(
        a,
        kernel,
        x.data,
        ints,
        meaning::at(v, x),
        x.d0 as int,
        x.d1 as int,
        ah,
        aw,
    )) by {
        reveal(meaning::kernel_means);
    }
    matmul::conv_means(
        a,
        whole,
        v,
        s,
        kernel,
        x.data,
        ints,
        9,
        g.data,
        gb.data,
        x.d0,
        x.d1,
        g.out_ch,
        ah,
        aw,
    );
    let t = gpu_conv::conv_steps(
        s,
        kernel,
        x.data,
        ints,
        9,
        g.data,
        gb.data,
        x.d0,
        x.d1,
        g.out_ch,
        ah.n_out,
        aw.n_out,
    )->Ok_0.1;
    assert(x.d1 * ah.k * aw.k == w.in_ch * w.kh * w.kw);
    matmul::conv_turned(
        a,
        meaning::at(v, x),
        x.d0 as int,
        x.d1 as int,
        ah,
        aw,
        w.out_ch as int,
        w.data@,
        v[g.data.id as int],
        b,
        meaning::at(v, t),
    );
}

/// The transposed convolution of the frequency decoder is the one of the processor.
pub proof fn conv_transpose2d_8x1_s4p2_means<A: Arith>(
    a: &A,
    whole: Seq<Step>,
    v: Seq<Seq<A::T>>,
    s: Seq<Step>,
    x: GpuTensor,
    g: GpuConvTranspose2dWeight,
    gb: GpuBias,
    w: &Conv2dWeight<A::T>,
    b: Seq<A::T>,
)
    requires
        meaning::runs(a, whole, v, gpu_conv::conv_transpose2d_8x1_s4p2_steps(s, x, g, gb)),
        meaning::holds(v, x),
        x.rank == 4,
        weights::holds_conv_tr2d(v, g, *w),
        weights::holds_bias(v, gb, b),
        w.out_ch > 0,
    ensures
        meaning::went(whole, v, s, gpu_conv::conv_transpose2d_8x1_s4p2_steps(s, x, g, gb)),
        ({
            let r = gpu_conv::conv_transpose2d_8x1_s4p2_steps(s, x, g, gb)->Ok_0.1;
            &&& r.rank == 4
            &&& meaning::axes4(r) == conv::conv_transpose2d_shape(meaning::axes4(x), w, 2, 0, 4, 1)
            &&& conv::is_conv_transpose2d(
                a,
                meaning::at(v, x),
                meaning::axes4(x),
                w,
                b,
                2,
                0,
                4,
                1,
                meaning::at(v, r),
            )
        }),
{
    reveal(conv::is_conv_transpose2d);
    let ah = conv::transposed_axis(x.d2, 2, 8, 4);
    let aw = conv::transposed_axis(x.d3, 0, 1, 1);
    assert(x.d0 > 0 && x.d1 > 0 && x.d2 > 0 && x.d3 > 0) by (nonlinear_arith)
        requires
            x.d0 * x.d1 * x.d2 * x.d3 > 0,
    ;
    assert(ah.k * aw.k == 8) by (nonlinear_arith)
        requires
            ah.k == 8,
            aw.k == 1,
    ;
    let kernel = Kernel::Im2colConvTranspose8x1S4P2;
    let ints = program::ints8(
        x.d0,
        x.d1,
        x.d2,
        x.d3,
        gpu_conv::fourfold(x.d2 as int) as usize,
        x.d3,
        2,
        4,
    );
    assert(matmul::unfolds(
        a,
        kernel,
        x.data,
        ints,
        meaning::at(v, x),
        x.d0 as int,
        x.d1 as int,
        ah,
        aw,
    )) by {
        reveal(meaning::kernel_means);
    }
    matmul::conv_means(
        a,
        whole,
        v,
        s,
        kernel,
        x.data,
        ints,
        8,
        g.data,
        gb.data,
        x.d0,
        x.d1,
        g.out_ch,
        ah,
        aw,
    );
}

/// The transposed convolution of the time decoder is the one of the processor.
pub proof fn conv_transpose1d_8_s4p2_means<A: Arith>(
    a: &A,
    whole: Seq<Step>,
    v: Seq<Seq<A::T>>,
    s: Seq<Step>,
    x: GpuTensor,
    g: GpuConvTranspose1dWeight,
    gb: GpuBias,
    w: &Conv1dWeight<A::T>,
    b: Seq<A::T>,
)
    requires
        meaning::runs(a, whole, v, gpu_conv::conv_transpose1d_8_s4p2_steps(s, x, g, gb)),
        meaning::holds(v, x),
        x.rank == 3,
        weights::holds_conv_tr1d(v, g, *w),
        weights::holds_bias(v, gb, b),
        w.out_ch > 0,
    ensures
        meaning::went(whole, v, s, gpu_conv::conv_transpose1d_8_s4p2_steps(s, x, g, gb)),
        ({
            let r = gpu_conv::conv_transpose1d_8_s4p2_steps(s, x, g, gb)->Ok_0.1;
            &&& r.rank == 3
            &&& meaning::axes3(r) == conv::conv_transpose1d_shape(meaning::axes3(x), w, 2, 4)
            &&& conv::is_conv_transpose1d(
                a,
                meaning::at(v, x),
                meaning::axes3(x),
                w,
                b,
                2,
                4,
                meaning::at(v, r),
            )
        }),
{
    reveal(conv::is_conv_transpose1d);
    let ah = conv::transposed_axis(x.d2, 2, 8, 4);
    let aw = conv::unit_axis();
    assert(x.d0 > 0 && x.d1 > 0 && x.d2 > 0) by (nonlinear_arith)
        requires
            x.d0 * x.d1 * x.d2 > 0,
    ;
    assert(ah.k * aw.k == 8) by (nonlinear_arith)
        requires
            ah.k == 8,
            aw.k == 1,
    ;
    let kernel = Kernel::Im2colConvTranspose8S4P21d;
    let ints = program::ints6(
        x.d0,
        x.d1,
        x.d2,
        gpu_conv::fourfold(x.d2 as int) as usize,
        2,
        4,
    );
    assert(matmul::unfolds(
        a,
        kernel,
        x.data,
        ints,
        meaning::at(v, x),
        x.d0 as int,
        x.d1 as int,
        ah,
        aw,
    )) by {
        reveal(meaning::kernel_means);
    }
    matmul::conv_means(
        a,
        whole,
        v,
        s,
        kernel,
        x.data,
        ints,
        8,
        g.data,
        gb.data,
        x.d0,
        x.d1,
        g.out_ch,
        ah,
        aw,
    );
}

/// With one tap, the patches are the channels of each position.
proof fn lemma_one_tap<T>(x: Seq<T>, b: int, c: int, h: usize, w: usize, z: T)
    requires
        0 <= b,
        0 <= c,
        0 < h < usize::MAX,
        0 < w < usize::MAX,
    ensures
        conv::unfolded(
            x,
            b,
            c,
            conv::forward_axis(h, 0, 1, 1, 1),
            conv::forward_axis(w, 0, 1, 1, 1),
            z,
        ) == layout::swapped(x, b, c, h * w, 1),
{
    let ah = conv::forward_axis(h, 0, 1, 1, 1);
    let aw = conv::forward_axis(w, 0, 1, 1, 1);
    let area = h * w;
    let u = conv::unfolded(x, b, c, ah, aw, z);
    let r = layout::swapped(x, b, c, area, 1);
    assert(ah.n_out == h && aw.n_out == w);
    assert(c * ah.k * aw.k == c) by (nonlinear_arith)
        requires
            ah.k == 1,
            aw.k == 1,
    ;
    assert(b * h * w * c == b * area * c * 1) by (nonlinear_arith)
        requires
            area == h * w,
    ;
    assert forall|p: int| 0 <= p < u.len() implies #[trigger] u[p] == r[p] by {
        index::lemma_unquad(p, b, h as int, w as int, c);
        let bi = p / c / w as int / h as int;
        let oh = p / c / w as int % h as int;
        let ow = p / c % w as int;
        let ci = p % c;
        let q = index::pos2(oh, ow, w as int);
        index::lemma_pair(oh, ow, h as int, w as int);
        layout::swapped_element(x, b, c, area, 1, bi, ci, q, 0);
        assert(p == index::pos4(bi, q, ci, 0, area, c, 1)) by (nonlinear_arith)
            requires
                p == ((bi * h + oh) * w + ow) * c + ci,
                index::pos4(bi, q, ci, 0, area, c, 1) == ((bi * area + q) * c + ci) * 1 + 0,
                area == h * w,
                q == oh * w + ow,
        ;
        assert(index::pos4(bi, ci, q, 0, c, area, 1) == index::pos4(
            bi,
            ci,
            oh,
            ow,
            c,
            h as int,
            w as int,
        )) by (nonlinear_arith)
            requires
                index::pos4(bi, ci, q, 0, c, area, 1) == ((bi * c + ci) * area + q) * 1 + 0,
                index::pos4(bi, ci, oh, ow, c, h as int, w as int) == ((bi * c + ci) * h + oh) * w
                    + ow,
                area == h * w,
                q == oh * w + ow,
        ;
    }
    assert(u =~= r);
}

/// The convolution with one by one taps is the one of the processor.
pub proof fn conv2d_1x1_means<A: Arith>(
    a: &A,
    whole: Seq<Step>,
    v: Seq<Seq<A::T>>,
    s: Seq<Step>,
    x: GpuTensor,
    g: GpuConv2dWeight,
    gb: GpuBias,
    w: &Conv2dWeight<A::T>,
    b: Seq<A::T>,
)
    requires
        meaning::unrounded(a),
        meaning::has_zero(a),
        meaning::runs(a, whole, v, gpu_conv::conv2d_1x1_steps(s, x, g, gb)),
        meaning::holds(v, x),
        x.rank == 4,
        weights::holds_conv2d(v, g, *w),
        weights::holds_bias(v, gb, b),
        w.out_ch > 0,
    ensures
        meaning::went(whole, v, s, gpu_conv::conv2d_1x1_steps(s, x, g, gb)),
        ({
            let r = gpu_conv::conv2d_1x1_steps(s, x, g, gb)->Ok_0.1;
            &&& r.rank == 4
            &&& meaning::axes4(r) == conv::conv2d_shape(meaning::axes4(x), w, 0, 0, 1, 1)
            &&& conv::is_conv2d(
                a,
                meaning::at(v, x),
                meaning::axes4(x),
                w,
                b,
                0,
                0,
                1,
                1,
                meaning::at(v, r),
            )
        }),
{
    reveal(conv::is_conv2d);
    let z = choose|z: A::T| #[trigger] arith::is_zero(a, z);
    let ah = conv::forward_axis(x.d2, 0, 1, 1, 1);
    let aw = conv::forward_axis(x.d3, 0, 1, 1, 1);
    assert(x.d0 > 0 && x.d1 > 0 && x.d2 > 0 && x.d3 > 0) by (nonlinear_arith)
        requires
            x.d0 * x.d1 * x.d2 * x.d3 > 0,
    ;
    let (s1, rows) = gpu_layout::transpose_bchw_to_bhwc_steps(s, x)->Ok_0;
    let built = gpu_matmul::project_steps(
        s1,
        rows.data,
        g.data,
        gb.data,
        x.d1,
        x.d0,
        g.out_ch,
        x.d2,
        x.d3,
    );
    let (one, p) = matmul::project_means(
        a,
        whole,
        v,
        s1,
        rows.data,
        g.data,
        gb.data,
        x.d1,
        x.d0,
        g.out_ch,
        x.d2,
        x.d3,
    );
    operators::bchw_to_bhwc_means(a, whole, v, s, x);
    lemma_one_tap(meaning::at(v, x), x.d0 as int, x.d1 as int, x.d2, x.d3, z);
    assert(x.d1 * ah.k * aw.k == w.in_ch * w.kh * w.kw);
    assert(x.d1 * ah.k * aw.k == x.d1) by (nonlinear_arith)
        requires
            ah.k == 1,
            aw.k == 1,
    ;
    matmul::lemma_turned(
        a,
        x.d0 * x.d2 * x.d3,
        w.out_ch as int,
        x.d1 as int,
        meaning::at(v, rows),
        w.data@,
        v[g.data.id as int],
        one,
        p,
    );
    assert(arith::is_zero(a, z));
    assert(arith::is_ratio(a, 1, 1, one));
    assert(conv::is_conv(
        a,
        meaning::at(v, x),
        x.d0 as int,
        x.d1 as int,
        ah,
        aw,
        w.out_ch as int,
        w.data@,
        false,
        b,
        meaning::at(v, built->Ok_0.1),
    ));
}

/// The convolution with one tap as a linear layer is the one of the processor.
pub proof fn conv1d_1x1_means<A: Arith>(
    a: &A,
    whole: Seq<Step>,
    v: Seq<Seq<A::T>>,
    s: Seq<Step>,
    x: GpuTensor,
    g: GpuConv1dWeight,
    gb: GpuBias,
    w: &Conv1dWeight<A::T>,
    b: Seq<A::T>,
)
    requires
        meaning::unrounded(a),
        meaning::has_zero(a),
        meaning::runs(a, whole, v, gpu_conv::conv1d_1x1_steps(s, x, g, gb)),
        meaning::holds(v, x),
        x.rank == 3,
        weights::holds_conv1d(v, g, *w),
        weights::holds_bias(v, gb, b),
        w.out_ch > 0,
    ensures
        meaning::went(whole, v, s, gpu_conv::conv1d_1x1_steps(s, x, g, gb)),
        ({
            let r = gpu_conv::conv1d_1x1_steps(s, x, g, gb)->Ok_0.1;
            &&& r.rank == 3
            &&& meaning::axes3(r) == conv::conv1d_shape(meaning::axes3(x), w, 0, 1, 1)
            &&& conv::is_conv1d(
                a,
                meaning::at(v, x),
                meaning::axes3(x),
                w,
                b,
                0,
                1,
                1,
                meaning::at(v, r),
            )
        }),
{
    reveal(conv::is_conv1d);
    let z = choose|z: A::T| #[trigger] arith::is_zero(a, z);
    let ah = conv::forward_axis(x.d2, 0, 1, 1, 1);
    let aw = conv::unit_axis();
    let c = g.out_ch;
    assert(x.d0 > 0 && x.d1 > 0 && x.d2 > 0) by (nonlinear_arith)
        requires
            x.d0 * x.d1 * x.d2 > 0,
    ;
    assert(x.d0 * x.d2 > 0) by (nonlinear_arith)
        requires
            x.d0 > 0,
            x.d2 > 0,
    ;
    let n = (x.d0 * x.d2) as usize;
    let (s1, rows) = gpu_layout::swap_dims_12_3d_steps(s, x)->Ok_0;
    let (s2, product) = gpu_matmul::gemm_steps(s1, rows.data, g.data, n, c, x.d1)->Ok_0;
    let (s3, sum) = gpu_matmul::add_bias_steps(s2, product, gb.data)->Ok_0;
    let t = gpu_tensor::as_tensor3(sum.data, x.d0, x.d2, c)->Ok_0;
    let built = gpu_layout::swap_dims_12_3d_steps(s3, t);
    let l = elementwise::launch2(
        Kernel::AddBiasInplace,
        product.data,
        gb.data,
        program::ints2(product.d0, product.d1),
        product.data.len,
    );
    assert(program::extends(s3, built->Ok_0.0));
    assert(program::extends(s3, whole));
    meaning::lemma_step(a, whole, v, s2, Step::Launch(l));
    let (one, p) = matmul::gemm_means(a, whole, v, s1, rows.data, g.data, n, c, x.d1);
    operators::swap_dims_means(a, whole, v, s, x);
    operators::launched_means(a, whole, v, s2, l, product);
    operators::swap_dims_means(a, whole, v, s3, t);
    lemma_one_tap(meaning::at(v, x), x.d0 as int, x.d1 as int, x.d2, 1, z);
    assert(x.d1 * ah.k * aw.k == w.in_ch * w.k);
    assert(x.d1 * ah.k * aw.k == x.d1) by (nonlinear_arith)
        requires
            ah.k == 1,
            aw.k == 1,
    ;
    assert(x.d2 * 1 == x.d2);
    assert(x.d0 * x.d2 * 1 == n);
    matmul::lemma_turned(
        a,
        n as int,
        w.out_ch as int,
        x.d1 as int,
        meaning::at(v, rows),
        w.data@,
        v[g.data.id as int],
        one,
        p,
    );
    let y = meaning::at(v, sum);
    let out = meaning::at(v, built->Ok_0.1);
    assert(meaning::is_bias_added(a, meaning::at(v, product), c as int, b, y)) by {
        reveal(meaning::kernel_means);
        let data = meaning::at(v, product);
        assert(data.take(product.data.len as int) =~= data);
    }
    lemma_planes(a, p, x.d0 as int, c as int, x.d2 as int, meaning::at(v, product), b, y, out);
    assert(arith::is_zero(a, z));
    assert(arith::is_ratio(a, 1, 1, one));
    assert(conv::is_conv(
        a,
        meaning::at(v, x),
        x.d0 as int,
        x.d1 as int,
        ah,
        aw,
        w.out_ch as int,
        w.data@,
        false,
        b,
        out,
    ));
}

/// Rows with a bias, brought into planes.
proof fn lemma_planes<A: Arith>(
    a: &A,
    p: A::Product,
    b: int,
    c: int,
    t: int,
    g: Seq<A::T>,
    bias: Seq<A::T>,
    y: Seq<A::T>,
    out: Seq<A::T>,
)
    requires
        0 <= b,
        0 <= c,
        0 <= t,
        attention::is_entries(a, p, b * t, c, g),
        meaning::is_bias_added(a, g, c, bias, y),
        out == layout::swapped(y, b, t, c, 1),
    ensures
        conv::is_biased_planes(a, p, b, c, t, bias, out),
{
    reveal(attention::is_entries);
    assert(b * c * t * 1 == b * c * t);
    assert forall|i: int| 0 <= i < out.len() implies conv::is_biased_entry(
        a,
        p,
        index::pos2(i / t / c, i % t, t),
        i / t % c,
        bias[i / t % c],
        #[trigger] out[i],
    ) by {
        index::lemma_untriple(i, b, c, t);
        let row = index::pos2(i / t / c, i % t, t);
        index::lemma_pair(i / t / c, i % t, b, t);
        index::lemma_pair(row, i / t % c, b * t, c);
        let q = index::pos2(row, i / t % c, c);
        assert(index::pos4(i / 1 / t / c, i / 1 % t, i / 1 / t % c, i % 1, t, c, 1) == q);
        assert(out[i] == y[q]);
        assert(arith::is_entry(a, p, q / c, q % c, g[q]));
        assert(arith::is_sum(a, g[q], bias[q % c], y[q]));
    }
}

} // verus!
