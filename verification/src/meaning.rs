//! What the programs for the graphics device mean.
//!
//! Each kernel is given a meaning in the terms in which the operators of the processor are
//! described. The laws of this module say that the programs which the operators of the device
//! write do what the operators of the processor do, on a device that computes with the same
//! numbers.
use vstd::prelude::*;
use crate::arith;
use crate::arith::Arith;
use crate::arith::Gemm;
use crate::gpu_tensor;
use crate::gpu_tensor::Built;
use crate::gpu_tensor::GpuTensor;
use crate::index;
use crate::ops_cpu::attention as cpu_attention;
use crate::ops_cpu::conv as cpu_conv;
use crate::ops_cpu::conv::Axis;
use crate::ops_cpu::elementwise;
use crate::ops_cpu::layout;
use crate::ops_cpu::norm;
use crate::ops_cpu::softmax;
use crate::ops_cpu::standardize;
use crate::program;
use crate::program::BatchedGemmCall;
use crate::program::Factor;
use crate::program::GemmCall;
use crate::program::Kernel;
use crate::program::Launch;
use crate::program::Step;

pub mod attention;
pub mod conv;
pub mod engine;
pub mod forward;
pub mod growth;
pub mod layers;
pub mod matmul;
pub mod operators;
pub mod transformer;
pub mod uploads;
pub mod weights;

verus! {

/// Element by element the sum of `x` and the bias, which is repeated for each row.
pub open spec fn is_bias_added<A: Arith>(
    a: &A,
    x: Seq<A::T>,
    n: int,
    bias: Seq<A::T>,
    out: Seq<A::T>,
) -> bool {
    &&& out.len() == x.len()
    &&& forall|i: int| 0 <= i < x.len() ==> arith::is_sum(a, x[i], bias[i % n], #[trigger] out[i])
}

/// The rows `(b, pos)` and columns `c` of `x` laid out as `[b, c, pos]`, with the bias of each
/// column added.
pub open spec fn is_plane_added<A: Arith>(
    a: &A,
    x: Seq<A::T>,
    b: int,
    c: int,
    area: int,
    bias: Seq<A::T>,
    out: Seq<A::T>,
) -> bool {
    &&& out.len() == b * c * area
    &&& forall|i: int|
        0 <= i < out.len() ==> arith::is_sum(
            a,
            x[index::pos2(index::pos2(i / area / c, i % area, area), i / area % c, c)],
            bias[i / area % c],
            #[trigger] out[i],
        )
}

/// The softmax of each run of `n` elements of `x` times the factor.
pub open spec fn is_scaled_softmax<A: Arith>(
    a: &A,
    x: Seq<A::T>,
    n: int,
    f: Factor,
    out: Seq<A::T>,
) -> bool {
    exists|r: A::T, w: Seq<A::T>|
        {
            &&& #[trigger] program::is_factor(a, f, r)
            &&& w.len() == x.len()
            &&& forall|i: int| 0 <= i < x.len() ==> arith::is_product(a, x[i], r, #[trigger] w[i])
            &&& #[trigger] softmax::is_run_softmax(a, w, n, out)
        }
}

/// `r` may be `v` and the number `f` times `e`.
pub open spec fn is_scaled_sum<A: Arith>(a: &A, v: A::T, e: A::T, f: Factor, r: A::T) -> bool {
    exists|s: A::T, p: A::T|
        {
            &&& #[trigger] program::is_factor(a, f, s)
            &&& #[trigger] arith::is_product(a, e, s, p)
            &&& arith::is_sum(a, v, p, r)
        }
}

/// The number `f` times the embedding `[fr, c]` added to every batch and frame of
/// `[b, c, fr, t]`.
pub open spec fn is_embedding_added<A: Arith>(
    a: &A,
    x: Seq<A::T>,
    c: int,
    fr: int,
    t: int,
    emb: Seq<A::T>,
    f: Factor,
    out: Seq<A::T>,
) -> bool {
    &&& out.len() == x.len()
    &&& forall|i: int|
        0 <= i < x.len() ==> is_scaled_sum(
            a,
            x[i],
            emb[index::pos2(i / t % fr, i / t / fr % c, c)],
            f,
            #[trigger] out[i],
        )
}

/// `r` may be `v` less the mean `m`, over the deviation `d` and the number `f`.
pub open spec fn is_normed_value<A: Arith>(
    a: &A,
    v: A::T,
    m: A::T,
    d: A::T,
    f: Factor,
    r: A::T,
) -> bool {
    exists|eps: A::T, s: A::T, e: A::T|
        {
            &&& #[trigger] program::is_factor(a, f, eps)
            &&& #[trigger] arith::is_sum(a, d, eps, s)
            &&& #[trigger] arith::is_difference(a, v, m, e)
            &&& arith::is_quotient(a, e, s, r)
        }
}

/// Each of `b` batches of `n` elements less its mean, over its deviation and the number `f`.
pub open spec fn is_normed<A: Arith>(
    a: &A,
    x: Seq<A::T>,
    b: int,
    n: int,
    mean: Seq<A::T>,
    std: Seq<A::T>,
    f: Factor,
    out: Seq<A::T>,
) -> bool {
    &&& out.len() == x.len()
    &&& forall|i: int|
        0 <= i < x.len() ==> if i < b * n {
            is_normed_value(a, x[i], mean[i / n], std[i / n], f, #[trigger] out[i])
        } else {
            out[i] == x[i]
        }
}

/// The patches of `x` in rows, with zeros outside of it.
pub open spec fn is_unfolded<A: Arith>(
    a: &A,
    x: Seq<A::T>,
    b: int,
    c: int,
    ah: Axis,
    aw: Axis,
    out: Seq<A::T>,
) -> bool {
    exists|z: A::T| #[trigger] arith::is_zero(a, z) && out == cpu_conv::unfolded(x, b, c, ah, aw, z)
}

/// The tensor `[b, c, f, t]` in the order `[b, t, f, c]`.
pub open spec fn turned<T>(x: Seq<T>, b: int, c: int, f: int, t: int) -> Seq<T> {
    Seq::new(
        (b * t * f * c) as nat,
        |p: int| x[index::pos4(p / c / f / t, p % c, p / c % f, p / c / f % t, c, f, t)],
    )
}

/// An axis that is unfolded by `k` taps.
pub open spec fn axis(
    n_in: usize,
    n_out: usize,
    k: usize,
    stride: usize,
    pad: usize,
    dilation: usize,
) -> Axis {
    Axis { n_in, n_out, k, stride, pad, dilation, transposed: false }
}

/// An axis that is unfolded by `k` taps, backwards.
pub open spec fn back_axis(n_in: usize, n_out: usize, k: usize, stride: usize, pad: usize) -> Axis {
    Axis { n_in, n_out, k, stride, pad, dilation: 1, transposed: true }
}

/// `out` is what a kernel that is started with the integers `i` makes of the values `x`, `y`
/// and `z`.
#[verifier::opaque]
pub open spec fn kernel_means<A: Arith>(
    a: &A,
    l: Launch,
    x: Seq<A::T>,
    y: Seq<A::T>,
    z: Seq<A::T>,
    out: Seq<A::T>,
) -> bool {
    let i = l.ints;
    let n = l.len as int;
    match l.kernel {
        Kernel::GroupNorm1 => norm::is_run_normalized(
            a,
            x.take(n),
            i.b as int,
            i.c as int,
            y,
            z,
            out,
        ),
        Kernel::GluChannel => elementwise::is_glu(a, x, i.a as int, i.b as int, i.c as int, out),
        Kernel::LayerScale => elementwise::is_scaled(a, x.take(n), i.b as int, i.c as int, y, out),
        Kernel::LayerScaleLast => elementwise::is_scaled(a, x.take(n), i.b as int, 1, y, out),
        Kernel::AddBiasInplace => is_bias_added(a, x.take(n), i.b as int, y, out),
        Kernel::AddTo => elementwise::is_added(a, x.take(n), y, out),
        Kernel::AddInplace => elementwise::is_added(a, x.take(n), y, out),
        Kernel::AddFreqEmb => is_embedding_added(
            a,
            x.take(n),
            i.b as int,
            i.c as int,
            i.d as int,
            y,
            l.factor,
            out,
        ),
        Kernel::SoftmaxScaled => is_scaled_softmax(a, x.take(n), i.c as int, l.factor, out),
        Kernel::DenormFreq => standardize::is_restored(
            a,
            x.take(n),
            i.a as int,
            i.b as int,
            y,
            z,
            out,
        ),
        Kernel::NormFreq => is_normed(
            a,
            x.take(n),
            i.a as int,
            i.b as int,
            y,
            z,
            l.factor,
            out,
        ),
        Kernel::LayerNorm => norm::is_run_normalized(a, x.take(n), i.a as int, 1, y, z, out),
        Kernel::SwapDims123d => out == layout::swapped(x, i.a as int, i.b as int, i.c as int, 1),
        Kernel::PermuteBcftToBtcf => out == layout::swapped(
            x,
            i.a as int,
            i.b * i.c,
            i.d as int,
            1,
        ),
        Kernel::Gelu => elementwise::is_gelu(a, x.take(n), out),
        Kernel::Im2col8x1S4P2 => is_unfolded(
            a,
            x,
            i.a as int,
            i.b as int,
            axis(i.c, (i.e / i.f) as usize, 8, 4, 2, 1),
            axis(i.d, i.f, 1, 1, 0, 1),
            out,
        ),
        Kernel::Im2col8S4P21d => is_unfolded(
            a,
            x,
            i.a as int,
            i.b as int,
            axis(i.c, i.d, 8, 4, 2, 1),
            axis(1, 1, 1, 1, 0, 1),
            out,
        ),
        Kernel::Im2col3x3S1P1 => is_unfolded(
            a,
            x,
            i.a as int,
            i.b as int,
            axis(i.c, i.e, 3, 1, 1, 1),
            axis(i.d, i.f, 3, 1, 1, 1),
            out,
        ),
        Kernel::Im2col1dK3Dilation => is_unfolded(
            a,
            x,
            i.a as int,
            i.b as int,
            axis(i.c, i.d, 3, 1, i.e, i.e),
            axis(1, 1, 1, 1, 0, 1),
            out,
        ),
        Kernel::Im2col1dK1 => is_unfolded(
            a,
            x,
            i.a as int,
            i.b as int,
            axis(i.c, i.c, 1, 1, 0, 1),
            axis(1, 1, 1, 1, 0, 1),
            out,
        ),
        Kernel::Im2colConvTranspose8x1S4P2 => is_unfolded(
            a,
            x,
            i.a as int,
            i.b as int,
            back_axis(i.c, i.e, 8, i.h, i.g),
            back_axis(i.d, i.f, 1, 1, 0),
            out,
        ),
        Kernel::Im2colConvTranspose8S4P21d => is_unfolded(
            a,
            x,
            i.a as int,
            i.b as int,
            back_axis(i.c, i.d, 8, i.f, i.e),
            axis(1, 1, 1, 1, 0, 1),
            out,
        ),
        Kernel::Conv2dPostprocess => is_plane_added(
            a,
            x,
            i.a as int,
            i.b as int,
            i.c * i.d,
            y,
            out,
        ),
        Kernel::TrimH2 => out == layout::trimmed(x, i.a * i.b, i.c as int, i.e as int, i.d as int),
        Kernel::TrimL => out == layout::trimmed(x, i.a * i.b, i.c as int, 1, i.d as int),
        Kernel::ZeroPadRight => exists|zero: A::T| #[trigger]
            arith::is_zero(a, zero) && out == layout::padded(
                x,
                i.a * i.b,
                i.c as int,
                i.d as int,
                zero,
            ),
        Kernel::ReshapeBcftToBfct => out == layout::swapped(
            x,
            i.a as int,
            i.b as int,
            i.c as int,
            i.d as int,
        ),
        Kernel::ReshapeBfctToBcft => out == layout::swapped(
            x,
            i.a as int,
            i.c as int,
            i.b as int,
            i.d as int,
        ),
        Kernel::TransposeBchwToBhwc => out == layout::swapped(
            x,
            i.a as int,
            i.b as int,
            i.c * i.d,
            1,
        ),
        Kernel::TransposeBhwcToBchw => out == layout::swapped(
            x,
            i.a as int,
            i.c * i.d,
            i.b as int,
            1,
        ),
        Kernel::PermuteBsdToBhsd => out == layout::swapped(
            x,
            i.a as int,
            i.b as int,
            i.d as int,
            i.e as int,
        ),
        Kernel::PermuteBhsdToBsd => out == layout::swapped(
            x,
            i.a as int,
            i.c as int,
            i.b as int,
            i.d as int,
        ),
        Kernel::PermuteBhsdToBhds => out == layout::swapped(
            x,
            i.a as int,
            i.b as int,
            i.c as int,
            1,
        ),
        Kernel::CopyPerHead => out == y.subrange(
            i.a * (i.b * i.c),
            (i.a + 1) * (i.b * i.c),
        ) + x.skip(
            i.b * i.c,
        ),
        Kernel::ScatterPerHead => out == x.take(i.a * (i.b * i.c)) + y.take(i.b * i.c) + x.skip(
            (i.a + 1) * (i.b * i.c),
        ),
        Kernel::FlattenBcftToBtfc => out == turned(
            x,
            i.a as int,
            i.b as int,
            i.c as int,
            i.d as int,
        ),
        Kernel::UnflattenBtfcToBcft => out == turned(
            x,
            i.a as int,
            i.d as int,
            i.c as int,
            i.b as int,
        ),
        Kernel::ConvertToSingle => out == x.take(n),
        // No operator starts these.
        Kernel::Noop => true,
        Kernel::AddPe => true,
        Kernel::SwapDims124d => true,
        Kernel::Transpose => true,
        Kernel::GeluBias => true,
    }
}

/// The product of matrices stored by columns as one of matrices stored by rows: the operands
/// change places.
pub open spec fn by_rows(g: GemmCall) -> Gemm {
    Gemm {
        m: g.n,
        n: g.m,
        k: g.k,
        lhs_cs: 1,
        lhs_rs: g.ldb,
        rhs_cs: 1,
        rhs_rs: g.lda,
    }
}

/// `out` holds the elements of a product of matrices.
pub open spec fn product_means<A: Arith>(
    a: &A,
    g: GemmCall,
    first: Seq<A::T>,
    second: Seq<A::T>,
    out: Seq<A::T>,
) -> bool {
    exists|one: A::T, p: A::Product|
        {
            &&& #[trigger] arith::is_ratio(a, 1, 1, one)
            &&& #[trigger] arith::is_gemm(a, by_rows(g), second, first, one, p)
            &&& cpu_attention::is_entries(a, p, g.n as int, g.m as int, out)
        }
}

/// `out` holds the elements of a batch of products of matrices.
pub open spec fn products_mean<A: Arith>(
    a: &A,
    g: BatchedGemmCall,
    first: Seq<A::T>,
    second: Seq<A::T>,
    out: Seq<A::T>,
) -> bool {
    forall|k: int|
        0 <= k < g.batch ==> product_means(
            a,
            g.gemm,
            first.subrange(k * g.stride_a, (k + 1) * g.stride_a),
            second.subrange(k * g.stride_b, (k + 1) * g.stride_b),
            #[trigger] out.subrange(k * g.stride_c, (k + 1) * g.stride_c),
        )
}

/// `out` is what a step makes, where the values made before are among `v`.
pub open spec fn step_means<A: Arith>(a: &A, s: Step, v: Seq<Seq<A::T>>, out: Seq<A::T>) -> bool {
    match s {
        Step::Launch(l) => kernel_means(a, l, v[l.x as int], v[l.y as int], v[l.z as int], out),
        Step::Gemm(g) => product_means(a, g, v[g.first as int], v[g.second as int], out),
        Step::BatchedGemm(g) => products_mean(
            a,
            g,
            v[g.gemm.first as int],
            v[g.gemm.second as int],
            out,
        ),
        // What comes from the host is not made by the program.
        Step::Upload { slot, len } => true,
        Step::Table { slot, len } => true,
        Step::Input { slot, len } => true,
    }
}

/// `v` are the values that a program makes.
#[verifier::opaque]
pub open spec fn is_trace<A: Arith>(a: &A, s: Seq<Step>, v: Seq<Seq<A::T>>) -> bool {
    &&& s.len() <= usize::MAX
    &&& v.len() == s.len()
    &&& forall|i: int| 0 <= i < v.len() ==> (#[trigger] v[i]).len() == program::step_len(s[i])
    &&& forall|i: int| 0 <= i < v.len() ==> step_means(a, s[i], v, #[trigger] v[i])
}

/// The tensor is among the values, and not empty.
pub open spec fn holds<T>(v: Seq<Seq<T>>, t: GpuTensor) -> bool {
    &&& gpu_tensor::shape_ok(t)
    &&& t.data.id < v.len()
    &&& v[t.data.id as int].len() == t.data.len
    &&& t.data.len > 0
}

/// The contents of a tensor.
pub open spec fn at<T>(v: Seq<Seq<T>>, t: GpuTensor) -> Seq<T> {
    v[t.data.id as int]
}

/// The axes of a tensor of three.
pub open spec fn axes3(t: GpuTensor) -> [usize; 3] {
    [t.d0, t.d1, t.d2]
}

/// The axes of a tensor of four.
pub open spec fn axes4(t: GpuTensor) -> [usize; 4] {
    [t.d0, t.d1, t.d2, t.d3]
}

/// Two products are of the same matrices, however these are stored.
pub open spec fn same_matrices<T>(
    g: Gemm,
    lhs: Seq<T>,
    rhs: Seq<T>,
    h: Gemm,
    lhs2: Seq<T>,
    rhs2: Seq<T>,
) -> bool {
    &&& g.m == h.m
    &&& g.n == h.n
    &&& g.k == h.k
    &&& forall|i: int, q: int|
        0 <= i < g.m && 0 <= q < g.k ==> #[trigger] lhs[i * g.lhs_rs + q * g.lhs_cs] == lhs2[i
            * h.lhs_rs + q * h.lhs_cs]
    &&& forall|q: int, j: int|
        0 <= q < g.k && 0 <= j < g.n ==> #[trigger] rhs[q * g.rhs_rs + j * g.rhs_cs] == rhs2[q
            * h.rhs_rs + j * h.rhs_cs]
}

/// A product of matrices depends on the matrices alone, not on how they are stored, and one
/// that is scaled holds what scaling its elements afterwards gives. This is so of numbers that
/// are not rounded.
pub open spec fn unrounded<A: Arith>(a: &A) -> bool {
    &&& forall|g: Gemm, lhs: Seq<A::T>, rhs: Seq<A::T>, scale: A::T, p: A::Product, h: Gemm, lhs2: Seq<
        A::T,
    >, rhs2: Seq<A::T>|
        #[trigger] arith::is_gemm(a, g, lhs, rhs, scale, p) && #[trigger] same_matrices(
            g,
            lhs,
            rhs,
            h,
            lhs2,
            rhs2,
        ) ==> arith::is_gemm(a, h, lhs2, rhs2, scale, p)
    &&& forall|g: Gemm, lhs: Seq<A::T>, rhs: Seq<A::T>, one: A::T, p: A::Product, f: A::T|
        #[trigger] arith::is_gemm(a, g, lhs, rhs, one, p) && #[trigger] is_factor_value(a, f)
            && arith::is_ratio(a, 1, 1, one) ==> exists|q: A::Product| #[trigger]
            arith::is_gemm(a, g, lhs, rhs, f, q) && forall|i: int, j: int, e: A::T, r: A::T|
                #![trigger arith::is_entry(a, p, i, j, e), arith::is_product(a, e, f, r)]
                arith::is_entry(a, p, i, j, e) && arith::is_product(a, e, f, r)
                    ==> arith::is_entry(a, q, i, j, r)
}

/// There is a zero.
pub open spec fn has_zero<A: Arith>(a: &A) -> bool {
    exists|z: A::T| #[trigger] arith::is_zero(a, z)
}

/// `f` is a number that a kernel scales by.
pub open spec fn is_factor_value<A: Arith>(a: &A, f: A::T) -> bool {
    exists|n: usize| program::is_factor(a, Factor::InverseRoot(n), f)
}

/// An operator that wrote `b` into the program whose values are `v`.
pub open spec fn runs<A: Arith, R>(
    a: &A,
    whole: Seq<Step>,
    v: Seq<Seq<A::T>>,
    b: Built<R>,
) -> bool {
    &&& is_trace(a, whole, v)
    &&& b is Ok
    &&& program::extends(b->Ok_0.0, whole)
}

/// The operator went on from the program `s`, and its result is among the values.
pub open spec fn went<T>(
    whole: Seq<Step>,
    v: Seq<Seq<T>>,
    s: Seq<Step>,
    b: Built<GpuTensor>,
) -> bool {
    &&& program::extends(s, b->Ok_0.0)
    &&& program::extends(s, whole)
    &&& holds(v, b->Ok_0.1)
}

/// The step after those of `s` made what it means, and its value has the length that it says.
pub proof fn lemma_step<A: Arith>(
    a: &A,
    whole: Seq<Step>,
    v: Seq<Seq<A::T>>,
    s: Seq<Step>,
    step: Step,
)
    requires
        is_trace(a, whole, v),
        program::extends(s.push(step), whole),
    ensures
        s.len() < v.len(),
        s.len() < usize::MAX,
        v[s.len() as int].len() == program::step_len(step),
        step_means(a, step, v, v[s.len() as int]),
        program::extends(s, whole),
{
    reveal(is_trace);
    let t = s.push(step);
    assert(whole[s.len() as int] == t[s.len() as int]);
    let value = v[s.len() as int];
    assert forall|i: int| 0 <= i < s.len() implies #[trigger] whole[i] == s[i] by {
        assert(whole[i] == t[i]);
    }
}

} // verus!
