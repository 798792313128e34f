//! The operators of the device that start a single kernel.
use vstd::prelude::*;
use crate::arith;
use crate::arith::Arith;
use crate::cuda_ops::elementwise;
use crate::cuda_ops::layout;
use crate::gpu_model::GpuFreqEmb;
use crate::gpu_model::GpuGroupNorm1;
use crate::gpu_model::GpuLayerNorm1;
use crate::gpu_model::GpuLayerScale;
use crate::gpu_tensor;
use crate::gpu_tensor::GpuTensor;
use crate::index;
use crate::meaning;
use crate::meaning::growth;
use crate::ops_cpu::elementwise as cpu_elementwise;
use crate::ops_cpu::layout as cpu_layout;
use crate::ops_cpu::norm;
use crate::ops_cpu::standardize;
use crate::program;
use crate::program::Factor;
use crate::program::Kernel;
use crate::program::Launch;
use crate::program::Step;

verus! {

/// What a kernel that was just started made.
pub proof fn launched_means<A: Arith>(
    a: &A,
    whole: Seq<Step>,
    v: Seq<Seq<A::T>>,
    s: Seq<Step>,
    l: Launch,
    t: GpuTensor,
)
    requires
        meaning::runs(a, whole, v, elementwise::launched(s, l, t)),
        gpu_tensor::shape_ok(t),
        t.data.len == l.len,
        l.len > 0,
    ensures
        meaning::went(whole, v, s, elementwise::launched(s, l, t)),
        meaning::kernel_means(
            a,
            l,
            v[l.x as int],
            v[l.y as int],
            v[l.z as int],
            meaning::at(v, elementwise::launched(s, l, t)->Ok_0.1),
        ),
{
    meaning::lemma_step(a, whole, v, s, Step::Launch(l));
}

/// GELU is the one of the processor.
pub proof fn gelu_means<A: Arith>(
    a: &A,
    whole: Seq<Step>,
    v: Seq<Seq<A::T>>,
    s: Seq<Step>,
    x: GpuTensor,
)
    requires
        meaning::runs(a, whole, v, elementwise::gelu_steps(s, x)),
        meaning::holds(v, x),
    ensures
        meaning::went(whole, v, s, elementwise::gelu_steps(s, x)),
        ({
            let r = elementwise::gelu_steps(s, x)->Ok_0.1;
            &&& r == gpu_tensor::moved(x, r.data.id)
            &&& cpu_elementwise::is_gelu(a, meaning::at(v, x), meaning::at(v, r))
        }),
{
    let l = elementwise::launch1(
        Kernel::Gelu,
        x.data,
        program::ints1(x.data.len),
        Factor::Absent,
        x.data.len,
    );
    launched_means(a, whole, v, s, l, x);
    reveal(meaning::kernel_means);
    assert(meaning::at(v, x).take(x.data.len as int) =~= meaning::at(v, x));
}

/// The scales of the channels are those of the processor.
pub proof fn layer_scale_means<A: Arith>(
    a: &A,
    whole: Seq<Step>,
    v: Seq<Seq<A::T>>,
    s: Seq<Step>,
    x: GpuTensor,
    scale: GpuLayerScale,
)
    requires
        meaning::runs(a, whole, v, elementwise::layer_scale_steps(s, x, scale)),
        meaning::holds(v, x),
    ensures
        meaning::went(whole, v, s, elementwise::layer_scale_steps(s, x, scale)),
        ({
            let r = elementwise::layer_scale_steps(s, x, scale)->Ok_0.1;
            &&& r == gpu_tensor::moved(x, r.data.id)
            &&& cpu_elementwise::is_scaled(
                a,
                meaning::at(v, x),
                x.d1 as int,
                x.d2 as int,
                v[scale.scale.id as int],
                meaning::at(v, r),
            )
        }),
{
    let l = elementwise::launch2(
        Kernel::LayerScale,
        x.data,
        scale.scale,
        program::ints3(x.d0, x.d1, x.d2),
        x.data.len,
    );
    launched_means(a, whole, v, s, l, x);
    reveal(meaning::kernel_means);
    assert(meaning::at(v, x).take(x.data.len as int) =~= meaning::at(v, x));
}

/// The scales of the features are those of the processor.
pub proof fn layer_scale_last_means<A: Arith>(
    a: &A,
    whole: Seq<Step>,
    v: Seq<Seq<A::T>>,
    s: Seq<Step>,
    x: GpuTensor,
    scale: GpuLayerScale,
)
    requires
        meaning::runs(a, whole, v, elementwise::layer_scale_last_steps(s, x, scale)),
        meaning::holds(v, x),
    ensures
        meaning::went(whole, v, s, elementwise::layer_scale_last_steps(s, x, scale)),
        ({
            let r = elementwise::layer_scale_last_steps(s, x, scale)->Ok_0.1;
            &&& r == gpu_tensor::moved(x, r.data.id)
            &&& cpu_elementwise::is_scaled(
                a,
                meaning::at(v, x),
                elementwise::last_axis(x) as int,
                1,
                v[scale.scale.id as int],
                meaning::at(v, r),
            )
        }),
{
    let l = elementwise::launch2(
        Kernel::LayerScaleLast,
        x.data,
        scale.scale,
        program::ints2(x.data.len, elementwise::last_axis(x)),
        x.data.len,
    );
    launched_means(a, whole, v, s, l, x);
    reveal(meaning::kernel_means);
    assert(meaning::at(v, x).take(x.data.len as int) =~= meaning::at(v, x));
}

/// A sum is the one of the processor.
pub proof fn add_to_means<A: Arith>(
    a: &A,
    whole: Seq<Step>,
    v: Seq<Seq<A::T>>,
    s: Seq<Step>,
    x: GpuTensor,
    y: GpuTensor,
)
    requires
        meaning::runs(a, whole, v, elementwise::add_to_steps(s, x, y)),
        meaning::holds(v, x),
    ensures
        meaning::went(whole, v, s, elementwise::add_to_steps(s, x, y)),
        ({
            let r = elementwise::add_to_steps(s, x, y)->Ok_0.1;
            &&& r == gpu_tensor::moved(x, r.data.id)
            &&& cpu_elementwise::is_added(
                a,
                meaning::at(v, x),
                meaning::at(v, y),
                meaning::at(v, r),
            )
        }),
{
    let l = elementwise::launch2(
        Kernel::AddTo,
        x.data,
        y.data,
        program::ints1(x.data.len),
        x.data.len,
    );
    launched_means(a, whole, v, s, l, x);
    reveal(meaning::kernel_means);
    assert(meaning::at(v, x).take(x.data.len as int) =~= meaning::at(v, x));
}

/// A sum in place is the one of the processor.
pub proof fn add_inplace_means<A: Arith>(
    a: &A,
    whole: Seq<Step>,
    v: Seq<Seq<A::T>>,
    s: Seq<Step>,
    x: GpuTensor,
    y: GpuTensor,
)
    requires
        meaning::runs(a, whole, v, elementwise::add_inplace_steps(s, x, y)),
        meaning::holds(v, x),
    ensures
        meaning::went(whole, v, s, elementwise::add_inplace_steps(s, x, y)),
        ({
            let r = elementwise::add_inplace_steps(s, x, y)->Ok_0.1;
            &&& r == gpu_tensor::moved(x, r.data.id)
            &&& cpu_elementwise::is_added(
                a,
                meaning::at(v, x),
                meaning::at(v, y),
                meaning::at(v, r),
            )
        }),
{
    let l = elementwise::launch2(
        Kernel::AddInplace,
        x.data,
        y.data,
        program::ints1(x.data.len),
        x.data.len,
    );
    launched_means(a, whole, v, s, l, x);
    reveal(meaning::kernel_means);
    assert(meaning::at(v, x).take(x.data.len as int) =~= meaning::at(v, x));
}

/// The norm of each batch is the one of the processor.
pub proof fn groupnorm1_means<A: Arith>(
    a: &A,
    whole: Seq<Step>,
    v: Seq<Seq<A::T>>,
    s: Seq<Step>,
    x: GpuTensor,
    gn: GpuGroupNorm1,
)
    requires
        meaning::runs(a, whole, v, elementwise::groupnorm1_steps(s, x, gn)),
        meaning::holds(v, x),
    ensures
        meaning::went(whole, v, s, elementwise::groupnorm1_steps(s, x, gn)),
        ({
            let r = elementwise::groupnorm1_steps(s, x, gn)->Ok_0.1;
            &&& r == gpu_tensor::moved(x, r.data.id)
            &&& norm::is_run_normalized(
                a,
                meaning::at(v, x),
                x.d1 as int,
                x.d2 as int,
                v[gn.gamma.id as int],
                v[gn.beta.id as int],
                meaning::at(v, r),
            )
        }),
{
    let l = elementwise::launch3(
        Kernel::GroupNorm1,
        x.data,
        gn.gamma,
        gn.beta,
        program::ints3(x.d0, x.d1, x.d2),
        Factor::Epsilon,
        x.data.len,
    );
    launched_means(a, whole, v, s, l, x);
    reveal(meaning::kernel_means);
    assert(meaning::at(v, x).take(x.data.len as int) =~= meaning::at(v, x));
}

/// The norm of each row is the one of the processor.
pub proof fn layer_norm_means<A: Arith>(
    a: &A,
    whole: Seq<Step>,
    v: Seq<Seq<A::T>>,
    s: Seq<Step>,
    x: GpuTensor,
    ln: GpuLayerNorm1,
    outer: usize,
    last: usize,
)
    requires
        meaning::runs(a, whole, v, elementwise::layer_norm_steps(s, x, ln, outer, last)),
        meaning::holds(v, x),
        x.data.len == outer * last,
    ensures
        meaning::went(whole, v, s, elementwise::layer_norm_steps(s, x, ln, outer, last)),
        ({
            let r = elementwise::layer_norm_steps(s, x, ln, outer, last)->Ok_0.1;
            &&& r == gpu_tensor::tensor2(r.data.id, x.data.len, outer, last)
            &&& norm::is_run_normalized(
                a,
                meaning::at(v, x),
                last as int,
                1,
                v[ln.gamma.id as int],
                v[ln.beta.id as int],
                meaning::at(v, r),
            )
        }),
{
    let l = elementwise::launch3(
        Kernel::LayerNorm,
        x.data,
        ln.gamma,
        ln.beta,
        program::ints2(last, outer),
        Factor::Epsilon,
        x.data.len,
    );
    launched_means(a, whole, v, s, l, gpu_tensor::tensor2(0, x.data.len, outer, last));
    reveal(meaning::kernel_means);
    assert(meaning::at(v, x).take(x.data.len as int) =~= meaning::at(v, x));
}

/// The gates are those of the processor.
pub proof fn glu_channel_means<A: Arith>(
    a: &A,
    whole: Seq<Step>,
    v: Seq<Seq<A::T>>,
    s: Seq<Step>,
    x: GpuTensor,
)
    requires
        meaning::runs(a, whole, v, elementwise::glu_channel_steps(s, x)),
        meaning::holds(v, x),
        x.rank == 3,
    ensures
        meaning::went(whole, v, s, elementwise::glu_channel_steps(s, x)),
        ({
            let r = elementwise::glu_channel_steps(s, x)->Ok_0.1;
            &&& r.rank == 3
            &&& r.d0 == x.d0
            &&& r.d1 == x.d1 / 2
            &&& r.d2 == x.d2
            &&& x.d1 % 2 == 0
            &&& cpu_elementwise::is_glu(
                a,
                meaning::at(v, x),
                x.d0 as int,
                x.d1 as int / 2,
                x.d2 as int,
                meaning::at(v, r),
            )
        }),
{
    assert(x.d0 * (x.d1 / 2) * x.d2 > 0) by (nonlinear_arith)
        requires
            x.d0 * x.d1 * x.d2 > 0,
            x.d1 % 2 == 0,
    ;
    let l = elementwise::launch1(
        Kernel::GluChannel,
        x.data,
        program::ints3(x.d0, x.d1 / 2, x.d2),
        Factor::Absent,
        (x.d0 * (x.d1 / 2) * x.d2) as usize,
    );
    launched_means(
        a,
        whole,
        v,
        s,
        l,
        gpu_tensor::tensor3(0, (x.d0 * (x.d1 / 2) * x.d2) as usize, x.d0, x.d1 / 2, x.d2),
    );
    reveal(meaning::kernel_means);
}

/// The embedding is the one of the processor.
pub proof fn add_freq_emb_means<A: Arith>(
    a: &A,
    whole: Seq<Step>,
    v: Seq<Seq<A::T>>,
    s: Seq<Step>,
    x: GpuTensor,
    emb: GpuFreqEmb,
    scale: Factor,
)
    requires
        meaning::runs(a, whole, v, elementwise::add_freq_emb_steps(s, x, emb, scale)),
        meaning::holds(v, x),
        x.rank == 4,
    ensures
        meaning::went(whole, v, s, elementwise::add_freq_emb_steps(s, x, emb, scale)),
        ({
            let r = elementwise::add_freq_emb_steps(s, x, emb, scale)->Ok_0.1;
            &&& r == gpu_tensor::moved(x, r.data.id)
            &&& meaning::is_embedding_added(
                a,
                meaning::at(v, x),
                x.d1 as int,
                x.d2 as int,
                x.d3 as int,
                v[emb.data.id as int],
                scale,
                meaning::at(v, r),
            )
        }),
{
    assert(x.d0 > 0 && x.d1 > 0 && x.d2 > 0 && x.d3 > 0) by (nonlinear_arith)
        requires
            x.d0 * x.d1 * x.d2 * x.d3 > 0,
    ;
    assert(meaning::at(v, x).take(x.data.len as int) =~= meaning::at(v, x));
    let l = Launch {
        kernel: Kernel::AddFreqEmb,
        reads: 2,
        x: x.data.id,
        y: emb.data.id,
        z: 0,
        ints: program::ints4(x.d0, x.d1, x.d2, x.d3),
        factor: scale,
        len: x.data.len,
    };
    launched_means(a, whole, v, s, l, x);
    reveal(meaning::kernel_means);
}

/// The softmax is taken of the scaled rows.
pub proof fn softmax_means<A: Arith>(
    a: &A,
    whole: Seq<Step>,
    v: Seq<Seq<A::T>>,
    s: Seq<Step>,
    x: GpuTensor,
    scale: Factor,
)
    requires
        meaning::runs(a, whole, v, elementwise::softmax_steps(s, x, scale)),
        meaning::holds(v, x),
    ensures
        meaning::went(whole, v, s, elementwise::softmax_steps(s, x, scale)),
        ({
            let r = elementwise::softmax_steps(s, x, scale)->Ok_0.1;
            &&& r == gpu_tensor::moved(x, r.data.id)
            &&& meaning::is_scaled_softmax(
                a,
                meaning::at(v, x),
                x.d2 as int,
                scale,
                meaning::at(v, r),
            )
        }),
{
    let l = elementwise::launch1(
        Kernel::SoftmaxScaled,
        x.data,
        program::ints3(x.d0, x.d1, x.d2),
        scale,
        x.data.len,
    );
    launched_means(a, whole, v, s, l, x);
    reveal(meaning::kernel_means);
    assert(meaning::at(v, x).take(x.data.len as int) =~= meaning::at(v, x));
}

/// The last two axes change places.
pub proof fn swap_dims_means<A: Arith>(
    a: &A,
    whole: Seq<Step>,
    v: Seq<Seq<A::T>>,
    s: Seq<Step>,
    x: GpuTensor,
)
    requires
        meaning::runs(a, whole, v, layout::swap_dims_12_3d_steps(s, x)),
        meaning::holds(v, x),
        x.rank == 3,
    ensures
        meaning::went(whole, v, s, layout::swap_dims_12_3d_steps(s, x)),
        ({
            let r = layout::swap_dims_12_3d_steps(s, x)->Ok_0.1;
            &&& r == gpu_tensor::tensor3(r.data.id, x.data.len, x.d0, x.d2, x.d1)
            &&& meaning::at(v, r) == cpu_layout::swapped(
                meaning::at(v, x),
                x.d0 as int,
                x.d1 as int,
                x.d2 as int,
                1,
            )
        }),
{
    assert(x.d0 * x.d2 * x.d1 == x.d0 * x.d1 * x.d2) by (nonlinear_arith);
    let l = elementwise::launch1(
        Kernel::SwapDims123d,
        x.data,
        program::ints3(x.d0, x.d1, x.d2),
        Factor::Absent,
        x.data.len,
    );
    launched_means(a, whole, v, s, l, gpu_tensor::tensor3(0, x.data.len, x.d0, x.d2, x.d1));
    reveal(meaning::kernel_means);
}

/// The last two axes of each head change places.
pub proof fn bhsd_to_bhds_means<A: Arith>(
    a: &A,
    whole: Seq<Step>,
    v: Seq<Seq<A::T>>,
    s: Seq<Step>,
    x: GpuTensor,
)
    requires
        meaning::runs(a, whole, v, layout::permute_bhsd_to_bhds_steps(s, x)),
        meaning::holds(v, x),
        x.rank == 3,
    ensures
        meaning::went(whole, v, s, layout::permute_bhsd_to_bhds_steps(s, x)),
        ({
            let r = layout::permute_bhsd_to_bhds_steps(s, x)->Ok_0.1;
            &&& r == gpu_tensor::tensor3(r.data.id, x.data.len, x.d0, x.d2, x.d1)
            &&& meaning::at(v, r) == cpu_layout::swapped(
                meaning::at(v, x),
                x.d0 as int,
                x.d1 as int,
                x.d2 as int,
                1,
            )
        }),
{
    assert(x.d0 * x.d2 * x.d1 == x.d0 * x.d1 * x.d2) by (nonlinear_arith);
    let l = elementwise::launch1(
        Kernel::PermuteBhsdToBhds,
        x.data,
        program::ints3(x.d0, x.d1, x.d2),
        Factor::Absent,
        x.data.len,
    );
    launched_means(a, whole, v, s, l, gpu_tensor::tensor3(0, x.data.len, x.d0, x.d2, x.d1));
    reveal(meaning::kernel_means);
}

/// The channels go to the end.
pub proof fn bchw_to_bhwc_means<A: Arith>(
    a: &A,
    whole: Seq<Step>,
    v: Seq<Seq<A::T>>,
    s: Seq<Step>,
    x: GpuTensor,
)
    requires
        meaning::runs(a, whole, v, layout::transpose_bchw_to_bhwc_steps(s, x)),
        meaning::holds(v, x),
        x.rank == 4,
    ensures
        meaning::went(whole, v, s, layout::transpose_bchw_to_bhwc_steps(s, x)),
        ({
            let r = layout::transpose_bchw_to_bhwc_steps(s, x)->Ok_0.1;
            &&& r == gpu_tensor::tensor4(r.data.id, x.data.len, x.d0, x.d2, x.d3, x.d1)
            &&& meaning::at(v, r) == cpu_layout::swapped(
                meaning::at(v, x),
                x.d0 as int,
                x.d1 as int,
                x.d2 * x.d3,
                1,
            )
        }),
{
    assert(x.d0 * x.d2 * x.d3 * x.d1 == x.d0 * x.d1 * x.d2 * x.d3) by (nonlinear_arith);
    let l = elementwise::launch1(
        Kernel::TransposeBchwToBhwc,
        x.data,
        program::ints4(x.d0, x.d1, x.d2, x.d3),
        Factor::Absent,
        x.data.len,
    );
    launched_means(a, whole, v, s, l, gpu_tensor::tensor4(0, x.data.len, x.d0, x.d2, x.d3, x.d1));
    reveal(meaning::kernel_means);
}

/// The heads are taken apart.
pub proof fn bsd_to_bhsd_means<A: Arith>(
    a: &A,
    whole: Seq<Step>,
    v: Seq<Seq<A::T>>,
    s: Seq<Step>,
    x: GpuTensor,
    h: usize,
    d_head: usize,
)
    requires
        meaning::runs(a, whole, v, layout::permute_bsd_to_bhsd_steps(s, x, h, d_head)),
        meaning::holds(v, x),
        x.rank == 3,
    ensures
        meaning::went(whole, v, s, layout::permute_bsd_to_bhsd_steps(s, x, h, d_head)),
        ({
            let r = layout::permute_bsd_to_bhsd_steps(s, x, h, d_head)->Ok_0.1;
            &&& x.d2 == h * d_head
            &&& r == gpu_tensor::tensor3(r.data.id, x.data.len, (x.d0 * h) as usize, x.d1, d_head)
            &&& r.d0 == x.d0 * h
            &&& meaning::at(v, r) == cpu_layout::swapped(
                meaning::at(v, x),
                x.d0 as int,
                x.d1 as int,
                h as int,
                d_head as int,
            )
        }),
{
    assert(x.d0 * h * x.d1 * d_head == x.d0 * x.d1 * (h * d_head)) by (nonlinear_arith);
    let l = elementwise::launch1(
        Kernel::PermuteBsdToBhsd,
        x.data,
        program::ints5(x.d0, x.d1, x.d2, h, d_head),
        Factor::Absent,
        x.data.len,
    );
    launched_means(
        a,
        whole,
        v,
        s,
        l,
        gpu_tensor::tensor3(0, x.data.len, (x.d0 * h) as usize, x.d1, d_head),
    );
    reveal(meaning::kernel_means);
}

/// The heads are put together.
pub proof fn bhsd_to_bsd_means<A: Arith>(
    a: &A,
    whole: Seq<Step>,
    v: Seq<Seq<A::T>>,
    s: Seq<Step>,
    x: GpuTensor,
    b: usize,
)
    requires
        meaning::runs(a, whole, v, layout::permute_bhsd_to_bsd_steps(s, x, b)),
        meaning::holds(v, x),
        x.rank == 3,
    ensures
        meaning::went(whole, v, s, layout::permute_bhsd_to_bsd_steps(s, x, b)),
        ({
            let r = layout::permute_bhsd_to_bsd_steps(s, x, b)->Ok_0.1;
            &&& b > 0
            &&& x.d0 == b * (x.d0 / b)
            &&& r == gpu_tensor::tensor3(r.data.id, x.data.len, b, x.d1, (x.d0 / b * x.d2) as usize)
            &&& r.d2 == x.d0 / b * x.d2
            &&& meaning::at(v, r) == cpu_layout::swapped(
                meaning::at(v, x),
                b as int,
                x.d0 as int / b as int,
                x.d1 as int,
                x.d2 as int,
            )
        }),
{
    vstd::arithmetic::div_mod::lemma_fundamental_div_mod(x.d0 as int, b as int);
    let h = x.d0 as int / b as int;
    assert(b * x.d1 * (h * x.d2) == (b * h) * x.d1 * x.d2) by (nonlinear_arith);
    assert(b <= b * h) by (nonlinear_arith)
        requires
            b >= 0,
            (b * h) * x.d1 * x.d2 > 0,
    ;
    let l = elementwise::launch1(
        Kernel::PermuteBhsdToBsd,
        x.data,
        program::ints4(b, x.d1, x.d0 / b, x.d2),
        Factor::Absent,
        x.data.len,
    );
    launched_means(
        a,
        whole,
        v,
        s,
        l,
        gpu_tensor::tensor3(0, x.data.len, b, x.d1, (x.d0 / b * x.d2) as usize),
    );
    reveal(meaning::kernel_means);
}

/// The frequencies go before the channels.
pub proof fn bcft_to_bfct_means<A: Arith>(
    a: &A,
    whole: Seq<Step>,
    v: Seq<Seq<A::T>>,
    s: Seq<Step>,
    x: GpuTensor,
)
    requires
        meaning::runs(a, whole, v, layout::reshape_bcft_to_bfct_steps(s, x)),
        meaning::holds(v, x),
        x.rank == 4,
    ensures
        meaning::went(whole, v, s, layout::reshape_bcft_to_bfct_steps(s, x)),
        ({
            let r = layout::reshape_bcft_to_bfct_steps(s, x)->Ok_0.1;
            &&& r == gpu_tensor::tensor3(r.data.id, x.data.len, (x.d0 * x.d2) as usize, x.d1, x.d3)
            &&& r.d0 == x.d0 * x.d2
            &&& meaning::at(v, r) == cpu_layout::swapped(
                meaning::at(v, x),
                x.d0 as int,
                x.d1 as int,
                x.d2 as int,
                x.d3 as int,
            )
        }),
{
    assert(x.d0 * x.d2 * x.d1 * x.d3 == x.d0 * x.d1 * x.d2 * x.d3) by (nonlinear_arith);
    let l = elementwise::launch1(
        Kernel::ReshapeBcftToBfct,
        x.data,
        program::ints4(x.d0, x.d1, x.d2, x.d3),
        Factor::Absent,
        x.data.len,
    );
    launched_means(
        a,
        whole,
        v,
        s,
        l,
        gpu_tensor::tensor3(0, x.data.len, (x.d0 * x.d2) as usize, x.d1, x.d3),
    );
    reveal(meaning::kernel_means);
}

/// The frequencies go back behind the channels.
pub proof fn bfct_to_bcft_means<A: Arith>(
    a: &A,
    whole: Seq<Step>,
    v: Seq<Seq<A::T>>,
    s: Seq<Step>,
    x: GpuTensor,
    b: usize,
    f: usize,
)
    requires
        meaning::runs(a, whole, v, layout::reshape_bfct_to_bcft_steps(s, x, b)),
        meaning::holds(v, x),
        x.rank == 3,
        b > 0,
        x.d0 == b * f,
    ensures
        meaning::went(whole, v, s, layout::reshape_bfct_to_bcft_steps(s, x, b)),
        ({
            let r = layout::reshape_bfct_to_bcft_steps(s, x, b)->Ok_0.1;
            &&& r == gpu_tensor::tensor4(r.data.id, x.data.len, b, x.d1, f, x.d2)
            &&& meaning::at(v, r) == cpu_layout::swapped(
                meaning::at(v, x),
                b as int,
                f as int,
                x.d1 as int,
                x.d2 as int,
            )
        }),
{
    assert(b * f == f * b) by (nonlinear_arith);
    vstd::arithmetic::div_mod::lemma_fundamental_div_mod_converse(
        x.d0 as int,
        b as int,
        f as int,
        0,
    );
    assert(b * x.d1 * f * x.d2 == (b * f) * x.d1 * x.d2) by (nonlinear_arith);
    let l = elementwise::launch1(
        Kernel::ReshapeBfctToBcft,
        x.data,
        program::ints4(b, x.d1, f, x.d2),
        Factor::Absent,
        x.data.len,
    );
    launched_means(a, whole, v, s, l, gpu_tensor::tensor4(0, x.data.len, b, x.d1, f, x.d2));
    reveal(meaning::kernel_means);
}

/// The axes are turned around.
pub proof fn flatten_means<A: Arith>(
    a: &A,
    whole: Seq<Step>,
    v: Seq<Seq<A::T>>,
    s: Seq<Step>,
    x: GpuTensor,
)
    requires
        meaning::runs(a, whole, v, layout::flatten_bcft_to_btfc_steps(s, x)),
        meaning::holds(v, x),
        x.rank == 4,
    ensures
        meaning::went(whole, v, s, layout::flatten_bcft_to_btfc_steps(s, x)),
        ({
            let r = layout::flatten_bcft_to_btfc_steps(s, x)->Ok_0.1;
            &&& r == gpu_tensor::tensor3(r.data.id, x.data.len, x.d0, (x.d3 * x.d2) as usize, x.d1)
            &&& r.d1 == x.d3 * x.d2
            &&& meaning::at(v, r) == meaning::turned(
                meaning::at(v, x),
                x.d0 as int,
                x.d1 as int,
                x.d2 as int,
                x.d3 as int,
            )
        }),
{
    assert(x.d0 * (x.d3 * x.d2) * x.d1 == x.d0 * x.d1 * x.d2 * x.d3) by (nonlinear_arith);
    let l = elementwise::launch1(
        Kernel::FlattenBcftToBtfc,
        x.data,
        program::ints4(x.d0, x.d1, x.d2, x.d3),
        Factor::Absent,
        x.data.len,
    );
    launched_means(
        a,
        whole,
        v,
        s,
        l,
        gpu_tensor::tensor3(0, x.data.len, x.d0, (x.d3 * x.d2) as usize, x.d1),
    );
    reveal(meaning::kernel_means);
}

/// The axes are turned back.
pub proof fn unflatten_means<A: Arith>(
    a: &A,
    whole: Seq<Step>,
    v: Seq<Seq<A::T>>,
    s: Seq<Step>,
    x: GpuTensor,
    f: usize,
    t: usize,
)
    requires
        meaning::runs(a, whole, v, layout::unflatten_btfc_to_bcft_steps(s, x, f, t)),
        meaning::holds(v, x),
        x.rank == 3,
        x.d1 == t * f,
    ensures
        meaning::went(whole, v, s, layout::unflatten_btfc_to_bcft_steps(s, x, f, t)),
        ({
            let r = layout::unflatten_btfc_to_bcft_steps(s, x, f, t)->Ok_0.1;
            &&& r == gpu_tensor::tensor4(r.data.id, x.data.len, x.d0, x.d2, f, t)
            &&& meaning::at(v, r) == meaning::turned(
                meaning::at(v, x),
                x.d0 as int,
                t as int,
                f as int,
                x.d2 as int,
            )
        }),
{
    assert(x.d0 * x.d2 * f * t == x.d0 * (t * f) * x.d2) by (nonlinear_arith);
    let l = elementwise::launch1(
        Kernel::UnflattenBtfcToBcft,
        x.data,
        program::ints4(x.d0, x.d2, f, t),
        Factor::Absent,
        x.data.len,
    );
    launched_means(a, whole, v, s, l, gpu_tensor::tensor4(0, x.data.len, x.d0, x.d2, f, t));
    reveal(meaning::kernel_means);
}

/// Rows are cut off as on the processor.
pub proof fn trim_h2_means<A: Arith>(
    a: &A,
    whole: Seq<Step>,
    v: Seq<Seq<A::T>>,
    s: Seq<Step>,
    x: GpuTensor,
    target: usize,
)
    requires
        meaning::runs(a, whole, v, layout::trim_h2_steps(s, x, target)),
        meaning::holds(v, x),
        x.rank == 4,
        target > 0,
    ensures
        meaning::went(whole, v, s, layout::trim_h2_steps(s, x, target)),
        ({
            let r = layout::trim_h2_steps(s, x, target)->Ok_0.1;
            &&& target <= x.d2
            &&& r == gpu_tensor::tensor4(r.data.id, r.data.len, x.d0, x.d1, target, x.d3)
            &&& meaning::at(v, r) == cpu_layout::trimmed(
                meaning::at(v, x),
                x.d0 * x.d1,
                x.d2 as int,
                x.d3 as int,
                target as int,
            )
        }),
{
    assert(x.d0 * x.d1 * target * x.d3 > 0) by (nonlinear_arith)
        requires
            x.d0 * x.d1 * x.d2 * x.d3 > 0,
            target > 0,
    ;
    let l = elementwise::launch1(
        Kernel::TrimH2,
        x.data,
        program::ints5(x.d0, x.d1, x.d2, target, x.d3),
        Factor::Absent,
        (x.d0 * x.d1 * target * x.d3) as usize,
    );
    launched_means(
        a,
        whole,
        v,
        s,
        l,
        gpu_tensor::tensor4(0, (x.d0 * x.d1 * target * x.d3) as usize, x.d0, x.d1, target, x.d3),
    );
    reveal(meaning::kernel_means);
}

/// Ends of rows are cut off as on the processor.
pub proof fn trim_l_means<A: Arith>(
    a: &A,
    whole: Seq<Step>,
    v: Seq<Seq<A::T>>,
    s: Seq<Step>,
    x: GpuTensor,
    target: usize,
)
    requires
        meaning::runs(a, whole, v, layout::trim_l_steps(s, x, target)),
        meaning::holds(v, x),
        x.rank == 3,
        target > 0,
    ensures
        meaning::went(whole, v, s, layout::trim_l_steps(s, x, target)),
        ({
            let r = layout::trim_l_steps(s, x, target)->Ok_0.1;
            &&& target <= x.d2
            &&& r == gpu_tensor::tensor3(r.data.id, r.data.len, x.d0, x.d1, target)
            &&& meaning::at(v, r) == cpu_layout::trimmed(
                meaning::at(v, x),
                x.d0 * x.d1,
                x.d2 as int,
                1,
                target as int,
            )
        }),
{
    assert(x.d0 * x.d1 * target > 0) by (nonlinear_arith)
        requires
            x.d0 * x.d1 * x.d2 > 0,
            target > 0,
    ;
    let l = elementwise::launch1(
        Kernel::TrimL,
        x.data,
        program::ints4(x.d0, x.d1, x.d2, target),
        Factor::Absent,
        (x.d0 * x.d1 * target) as usize,
    );
    launched_means(
        a,
        whole,
        v,
        s,
        l,
        gpu_tensor::tensor3(0, (x.d0 * x.d1 * target) as usize, x.d0, x.d1, target),
    );
    reveal(meaning::kernel_means);
}

/// Rows are filled up with zeros as on the processor.
pub proof fn pad_l_means<A: Arith>(
    a: &A,
    whole: Seq<Step>,
    v: Seq<Seq<A::T>>,
    s: Seq<Step>,
    x: GpuTensor,
    pad: usize,
) -> (zero: A::T)
    requires
        meaning::runs(a, whole, v, layout::pad_l_steps(s, x, pad)),
        meaning::holds(v, x),
        x.rank == 3,
        meaning::has_zero(a),
        x.d2 + pad <= usize::MAX,
    ensures
        meaning::went(whole, v, s, layout::pad_l_steps(s, x, pad)),
        arith::is_zero(a, zero),
        ({
            let r = layout::pad_l_steps(s, x, pad)->Ok_0.1;
            &&& r.rank == 3
            &&& r.d0 == x.d0
            &&& r.d1 == x.d1
            &&& r.d2 == x.d2 + pad
            &&& meaning::at(v, r) == cpu_layout::padded(
                meaning::at(v, x),
                x.d0 * x.d1,
                x.d2 as int,
                x.d2 + pad,
                zero,
            )
        }),
{
    let len = (x.d2 + pad) as usize;
    if pad == 0 {
        let z = choose|z: A::T| #[trigger] arith::is_zero(a, z);
        let y = meaning::at(v, x);
        let rows = x.d0 * x.d1;
        assert forall|p: int| 0 <= p < y.len() implies cpu_layout::padded(
            y,
            rows,
            x.d2 as int,
            x.d2 as int,
            z,
        )[p] == y[p] by {
            index::lemma_unpair(p, rows, x.d2 as int);
        }
        assert(cpu_layout::padded(y, rows, x.d2 as int, x.d2 as int, z) =~= y);
        z
    } else {
        let n = (x.d0 * x.d1 * len) as usize;
        assert(x.d0 * x.d1 * len > 0) by (nonlinear_arith)
            requires
                x.d0 * x.d1 * x.d2 > 0,
                len >= x.d2,
        ;
        let l = elementwise::launch1(
            Kernel::ZeroPadRight,
            x.data,
            program::ints5(x.d0, x.d1, x.d2, len, pad),
            Factor::Absent,
            n,
        );
        launched_means(a, whole, v, s, l, gpu_tensor::tensor3(0, n, x.d0, x.d1, len));
        reveal(meaning::kernel_means);
        let out = meaning::at(v, layout::pad_l_steps(s, x, pad)->Ok_0.1);
        choose|zero: A::T| #[trigger]
            arith::is_zero(a, zero) && out == cpu_layout::padded(
                meaning::at(v, x),
                x.d0 * x.d1,
                x.d2 as int,
                len as int,
                zero,
            )
    }
}

/// Standardizing is the one of the processor.
pub proof fn norm_freq_means<A: Arith>(
    a: &A,
    whole: Seq<Step>,
    v: Seq<Seq<A::T>>,
    s: Seq<Step>,
    x: GpuTensor,
    mean: GpuTensor,
    std: GpuTensor,
)
    requires
        meaning::runs(
            a,
            whole,
            v,
            elementwise::per_batch_steps(s, Kernel::NormFreq, Factor::Epsilon, x, mean, std),
        ),
        meaning::holds(v, x),
        x.rank == 4,
    ensures
        meaning::went(
            whole,
            v,
            s,
            elementwise::per_batch_steps(s, Kernel::NormFreq, Factor::Epsilon, x, mean, std),
        ),
        ({
            let r = elementwise::per_batch_steps(
                s,
                Kernel::NormFreq,
                Factor::Epsilon,
                x,
                mean,
                std,
            )->Ok_0.1;
            &&& r == gpu_tensor::moved(x, r.data.id)
            &&& standardize::is_standardized(
                a,
                meaning::at(v, x),
                x.d0 as int,
                standardize::per_batch4(meaning::axes4(x)),
                meaning::at(v, mean),
                meaning::at(v, std),
                meaning::at(v, r),
            )
        }),
{
    let n = (x.d1 * x.d2 * x.d3) as usize;
    let l = elementwise::launch3(
        Kernel::NormFreq,
        x.data,
        mean.data,
        std.data,
        program::ints2(x.d0, n),
        Factor::Epsilon,
        x.data.len,
    );
    launched_means(a, whole, v, s, l, x);
    reveal(meaning::kernel_means);
    let data = meaning::at(v, x);
    assert(data.take(x.data.len as int) =~= data);
    reveal(standardize::is_standardized);
    assert forall|u: A::T, m: A::T, d: A::T, r: A::T| #[trigger]
        meaning::is_normed_value(a, u, m, d, Factor::Epsilon, r)
        implies standardize::is_standardized_value(a, u, m, d, r) by {}
}

/// Restoring is the one of the processor.
pub proof fn denorm_freq_means<A: Arith>(
    a: &A,
    whole: Seq<Step>,
    v: Seq<Seq<A::T>>,
    s: Seq<Step>,
    x: GpuTensor,
    mean: GpuTensor,
    std: GpuTensor,
)
    requires
        meaning::runs(
            a,
            whole,
            v,
            elementwise::per_batch_steps(s, Kernel::DenormFreq, Factor::Absent, x, mean, std),
        ),
        meaning::holds(v, x),
        x.rank == 4,
    ensures
        meaning::went(
            whole,
            v,
            s,
            elementwise::per_batch_steps(s, Kernel::DenormFreq, Factor::Absent, x, mean, std),
        ),
        ({
            let r = elementwise::per_batch_steps(
                s,
                Kernel::DenormFreq,
                Factor::Absent,
                x,
                mean,
                std,
            )->Ok_0.1;
            &&& r == gpu_tensor::moved(x, r.data.id)
            &&& standardize::is_restored(
                a,
                meaning::at(v, x),
                x.d0 as int,
                standardize::per_batch4(meaning::axes4(x)),
                meaning::at(v, mean),
                meaning::at(v, std),
                meaning::at(v, r),
            )
        }),
{
    let n = (x.d1 * x.d2 * x.d3) as usize;
    let l = elementwise::launch3(
        Kernel::DenormFreq,
        x.data,
        mean.data,
        std.data,
        program::ints2(x.d0, n),
        Factor::Absent,
        x.data.len,
    );
    launched_means(a, whole, v, s, l, x);
    reveal(meaning::kernel_means);
    let data = meaning::at(v, x);
    assert(data.take(x.data.len as int) =~= data);
}

/// `[b, c, f, t]` comes out as `[b, t, c, f]`.
pub proof fn bcft_to_btcf_means<A: Arith>(
    a: &A,
    whole: Seq<Step>,
    v: Seq<Seq<A::T>>,
    s: Seq<Step>,
    x: GpuTensor,
)
    requires
        meaning::runs(a, whole, v, layout::permute_bcft_to_btcf_steps(s, x)),
        meaning::holds(v, x),
        x.rank == 4,
    ensures
        meaning::went(whole, v, s, layout::permute_bcft_to_btcf_steps(s, x)),
        ({
            let r = layout::permute_bcft_to_btcf_steps(s, x)->Ok_0.1;
            &&& r == gpu_tensor::tensor4(r.data.id, x.data.len, x.d0, x.d3, x.d1, x.d2)
            &&& meaning::at(v, r) == cpu_layout::swapped(
                meaning::at(v, x),
                x.d0 as int,
                x.d1 * x.d2,
                x.d3 as int,
                1,
            )
        }),
{
    let l = elementwise::launch1(
        Kernel::PermuteBcftToBtcf,
        x.data,
        program::ints4(x.d0, x.d1, x.d2, x.d3),
        Factor::Absent,
        x.data.len,
    );
    assert(x.d0 * x.d3 * x.d1 * x.d2 == x.d0 * x.d1 * x.d2 * x.d3) by (nonlinear_arith);
    launched_means(a, whole, v, s, l, gpu_tensor::tensor4(0, x.data.len, x.d0, x.d3, x.d1, x.d2));
    reveal(meaning::kernel_means);
}

/// `[b, h, w, c]` comes out as `[b, c, h, w]`.
pub proof fn bhwc_to_bchw_means<A: Arith>(
    a: &A,
    whole: Seq<Step>,
    v: Seq<Seq<A::T>>,
    s: Seq<Step>,
    x: GpuTensor,
)
    requires
        meaning::runs(a, whole, v, layout::transpose_bhwc_to_bchw_steps(s, x)),
        meaning::holds(v, x),
        x.rank == 4,
    ensures
        meaning::went(whole, v, s, layout::transpose_bhwc_to_bchw_steps(s, x)),
        ({
            let r = layout::transpose_bhwc_to_bchw_steps(s, x)->Ok_0.1;
            &&& r == gpu_tensor::tensor4(r.data.id, x.data.len, x.d0, x.d3, x.d1, x.d2)
            &&& meaning::at(v, r) == cpu_layout::swapped(
                meaning::at(v, x),
                x.d0 as int,
                x.d1 * x.d2,
                x.d3 as int,
                1,
            )
        }),
{
    let l = elementwise::launch1(
        Kernel::TransposeBhwcToBchw,
        x.data,
        program::ints4(x.d0, x.d3, x.d1, x.d2),
        Factor::Absent,
        x.data.len,
    );
    assert(x.d0 * x.d3 * x.d1 * x.d2 == x.d0 * x.d1 * x.d2 * x.d3) by (nonlinear_arith);
    launched_means(a, whole, v, s, l, gpu_tensor::tensor4(0, x.data.len, x.d0, x.d3, x.d1, x.d2));
    reveal(meaning::kernel_means);
}

/// Channels that went last and came back are where they were.
pub proof fn channels_come_back<A: Arith>(
    a: &A,
    whole: Seq<Step>,
    v: Seq<Seq<A::T>>,
    s: Seq<Step>,
    x: GpuTensor,
    s1: Seq<Step>,
    y: GpuTensor,
)
    requires
        layout::transpose_bchw_to_bhwc_steps(s, x) == Ok::<_, Seq<char>>((s1, y)),
        meaning::runs(a, whole, v, layout::transpose_bhwc_to_bchw_steps(s1, y)),
        meaning::holds(v, x),
        x.rank == 4,
    ensures
        ({
            let r = layout::transpose_bhwc_to_bchw_steps(s1, y)->Ok_0.1;
            &&& r == gpu_tensor::moved(x, r.data.id)
            &&& meaning::at(v, r) == meaning::at(v, x)
        }),
{
    let b2 = layout::transpose_bhwc_to_bchw_steps(s1, y);
    assert(program::extends(s1, b2->Ok_0.0));
    growth::lemma_inside(s1, b2->Ok_0.0, whole);
    bchw_to_bhwc_means(a, whole, v, s, x);
    bhwc_to_bchw_means(a, whole, v, s1, y);
    assert(x.d0 * x.d1 * (x.d2 * x.d3) * 1 == x.d0 * x.d1 * x.d2 * x.d3) by (nonlinear_arith);
    index::lemma_extent(x.d2 as int, x.d3 as int);
    cpu_layout::swapped_twice(meaning::at(v, x), x.d0 as int, x.d1 as int, x.d2 * x.d3, 1);
}

/// Turning twice gives the tensor back.
pub proof fn turned_twice<T>(x: Seq<T>, b: int, c: int, f: int, t: int)
    requires
        0 <= b,
        0 <= c,
        0 <= f,
        0 <= t,
        x.len() == b * c * f * t,
    ensures
        meaning::turned(meaning::turned(x, b, c, f, t), b, t, f, c) == x,
{
    let y = meaning::turned(x, b, c, f, t);
    let z = meaning::turned(y, b, t, f, c);
    assert(b * c * f * t == b * t * f * c) by (nonlinear_arith);
    assert forall|p: int| 0 <= p < x.len() implies #[trigger] z[p] == x[p] by {
        index::lemma_unquad(p, b, c, f, t);
        let h = p / t / f / c;
        let i = p / t / f % c;
        let j = p / t % f;
        let k = p % t;
        index::lemma_quad(h, k, j, i, b, t, f, c);
    }
    assert(z =~= x);
}

/// In the sequence that `[b, c, f, t]` is flattened into, the place for time `k` and frequency
/// `j` holds the channels of that time and frequency.
pub proof fn turned_element<T>(
    x: Seq<T>,
    b: int,
    c: int,
    f: int,
    t: int,
    h: int,
    i: int,
    j: int,
    k: int,
)
    requires
        0 <= h < b,
        0 <= i < c,
        0 <= j < f,
        0 <= k < t,
    ensures
        meaning::turned(x, b, c, f, t)[index::pos3(h, k * f + j, i, t * f, c)] == x[index::pos4(
            h,
            i,
            j,
            k,
            c,
            f,
            t,
        )],
{
    index::lemma_quad(h, k, j, i, b, t, f, c);
    assert(index::pos3(h, k * f + j, i, t * f, c) == index::pos4(h, k, j, i, t, f, c)) by {
        assert(h * (t * f) + (k * f + j) == (h * t + k) * f + j) by (nonlinear_arith);
    }
}

/// What was flattened into a sequence can be brought back.
pub proof fn flattened_can_come_back(s: Seq<Step>, x: GpuTensor, s1: Seq<Step>, y: GpuTensor)
    requires
        layout::flatten_bcft_to_btfc_steps(s, x) == Ok::<_, Seq<char>>((s1, y)),
        gpu_tensor::size4(x.d0, x.d1, x.d2, x.d3) == Some(x.data.len),
    ensures
        layout::unflatten_btfc_to_bcft_steps(s1, y, x.d2, x.d3) is Ok,
{
}

/// What was flattened into a sequence comes back as it was.
pub proof fn flattened_comes_back<A: Arith>(
    a: &A,
    whole: Seq<Step>,
    v: Seq<Seq<A::T>>,
    s: Seq<Step>,
    x: GpuTensor,
    s1: Seq<Step>,
    y: GpuTensor,
)
    requires
        layout::flatten_bcft_to_btfc_steps(s, x) == Ok::<_, Seq<char>>((s1, y)),
        meaning::runs(a, whole, v, layout::unflatten_btfc_to_bcft_steps(s1, y, x.d2, x.d3)),
        meaning::holds(v, x),
        x.rank == 4,
    ensures
        ({
            let r = layout::unflatten_btfc_to_bcft_steps(s1, y, x.d2, x.d3)->Ok_0.1;
            &&& r == gpu_tensor::moved(x, r.data.id)
            &&& meaning::at(v, r) == meaning::at(v, x)
        }),
{
    let b2 = layout::unflatten_btfc_to_bcft_steps(s1, y, x.d2, x.d3);
    assert(program::extends(s1, b2->Ok_0.0));
    growth::lemma_inside(s1, b2->Ok_0.0, whole);
    flatten_means(a, whole, v, s, x);
    unflatten_means(a, whole, v, s1, y, x.d2, x.d3);
    turned_twice(meaning::at(v, x), x.d0 as int, x.d1 as int, x.d2 as int, x.d3 as int);
}

/// The plane that `copy_per_head` writes is the one that it reads, and the rest stays.
pub proof fn copy_per_head_means<A: Arith>(
    a: &A,
    whole: Seq<Step>,
    v: Seq<Seq<A::T>>,
    s: Seq<Step>,
    out: GpuTensor,
    x: GpuTensor,
    bh: usize,
    rows: usize,
    d_head: usize,
)
    requires
        meaning::runs(a, whole, v, layout::copy_per_head_steps(s, out, x, bh, rows, d_head)),
        meaning::holds(v, out),
        meaning::holds(v, x),
        rows > 0,
        d_head > 0,
    ensures
        meaning::went(whole, v, s, layout::copy_per_head_steps(s, out, x, bh, rows, d_head)),
        ({
            let r = layout::copy_per_head_steps(s, out, x, bh, rows, d_head)->Ok_0.1;
            let n = rows * d_head;
            &&& r == gpu_tensor::moved(out, r.data.id)
            &&& meaning::at(v, r).take(n) == norm::run(meaning::at(v, x), bh as int, n)
            &&& meaning::at(v, r).skip(n) == meaning::at(v, out).skip(n)
        }),
{
    let n = rows * d_head;
    assert(n > 0) by (nonlinear_arith)
        requires
            n == rows * d_head,
            rows > 0,
            d_head > 0,
    ;
    let l = elementwise::launch2(
        Kernel::CopyPerHead,
        out.data,
        x.data,
        program::ints3(bh, rows, d_head),
        out.data.len,
    );
    launched_means(a, whole, v, s, l, out);
    reveal(meaning::kernel_means);
    let r = meaning::at(v, layout::copy_per_head_steps(s, out, x, bh, rows, d_head)->Ok_0.1);
    assert((bh + 1) * n == bh * n + n && 0 <= bh * n) by (nonlinear_arith)
        requires
            n > 0,
    ;
    assert(r.take(n) =~= norm::run(meaning::at(v, x), bh as int, n));
    assert(r.skip(n) =~= meaning::at(v, out).skip(n));
}

/// The plane that `scatter_per_head` writes is the one that it reads, and the rest stays.
pub proof fn scatter_per_head_means<A: Arith>(
    a: &A,
    whole: Seq<Step>,
    v: Seq<Seq<A::T>>,
    s: Seq<Step>,
    out: GpuTensor,
    x: GpuTensor,
    bh: usize,
    rows: usize,
    d_head: usize,
)
    requires
        meaning::runs(a, whole, v, layout::scatter_per_head_steps(s, out, x, bh, rows, d_head)),
        meaning::holds(v, out),
        meaning::holds(v, x),
        rows > 0,
        d_head > 0,
    ensures
        meaning::went(whole, v, s, layout::scatter_per_head_steps(s, out, x, bh, rows, d_head)),
        ({
            let r = layout::scatter_per_head_steps(s, out, x, bh, rows, d_head)->Ok_0.1;
            let n = rows * d_head;
            &&& r == gpu_tensor::moved(out, r.data.id)
            &&& norm::run(meaning::at(v, r), bh as int, n) == meaning::at(v, x).take(n)
            &&& meaning::at(v, r).take(bh * n) == meaning::at(v, out).take(bh * n)
            &&& meaning::at(v, r).skip((bh + 1) * n) == meaning::at(v, out).skip((bh + 1) * n)
        }),
{
    let n = rows * d_head;
    assert(n > 0) by (nonlinear_arith)
        requires
            n == rows * d_head,
            rows > 0,
            d_head > 0,
    ;
    let l = elementwise::launch2(
        Kernel::ScatterPerHead,
        out.data,
        x.data,
        program::ints3(bh, rows, d_head),
        out.data.len,
    );
    launched_means(a, whole, v, s, l, out);
    reveal(meaning::kernel_means);
    let r = meaning::at(v, layout::scatter_per_head_steps(s, out, x, bh, rows, d_head)->Ok_0.1);
    assert((bh + 1) * n == bh * n + n && 0 <= bh * n) by (nonlinear_arith)
        requires
            n > 0,
    ;
    assert(norm::run(r, bh as int, n) =~= meaning::at(v, x).take(n));
    assert(r.take(bh * n) =~= meaning::at(v, out).take(bh * n));
    assert(r.skip((bh + 1) * n) =~= meaning::at(v, out).skip((bh + 1) * n));
}

} // verus!
