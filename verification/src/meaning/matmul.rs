//! Products of matrices on the device, and what is made of them.
use vstd::prelude::*;
use crate::arith;
use crate::arith::Arith;
use crate::cuda_ops::conv as gpu_conv;
use crate::cuda_ops::elementwise;
use crate::cuda_ops::matmul;
use crate::gpu_model::GpuBias;
use crate::gpu_model::GpuWeight2D;
use crate::gpu_tensor;
use crate::gpu_tensor::GpuBuffer;
use crate::gpu_tensor::GpuTensor;
use crate::index;
use crate::meaning;
use crate::meaning::operators;
use crate::ops_cpu::attention;
use crate::ops_cpu::conv;
use crate::ops_cpu::conv::Axis;
use crate::program;
use crate::program::Factor;
use crate::program::Ints;
use crate::program::Kernel;
use crate::program::Step;

verus! {

/// The matrix `[m, n]` in `x` is in `y` transposed.
pub open spec fn is_turned<T>(x: Seq<T>, m: int, n: int, y: Seq<T>) -> bool {
    forall|i: int, j: int|
        #![trigger x[i * n + j]]
        #![trigger y[j * m + i]]
        0 <= i < m && 0 <= j < n ==> x[i * n + j] == y[j * m + i]
}

/// A product of row-major matrices on the device.
pub proof fn gemm_means<A: Arith>(
    a: &A,
    whole: Seq<Step>,
    v: Seq<Seq<A::T>>,
    s: Seq<Step>,
    x: GpuBuffer,
    w: GpuBuffer,
    m: usize,
    n: usize,
    k: usize,
) -> (r: (A::T, A::Product))
    requires
        meaning::runs(a, whole, v, matmul::gemm_steps(s, x, w, m, n, k)),
        m > 0,
        n > 0,
    ensures
        meaning::went(whole, v, s, matmul::gemm_steps(s, x, w, m, n, k)),
        arith::is_ratio(a, 1, 1, r.0),
        arith::is_gemm(
            a,
            conv::conv_gemm(m as int, n as int, k as int, true),
            v[x.id as int],
            v[w.id as int],
            r.0,
            r.1,
        ),
        ({
            let t = matmul::gemm_steps(s, x, w, m, n, k)->Ok_0.1;
            &&& t == gpu_tensor::tensor2(t.data.id, t.data.len, m, n)
            &&& attention::is_entries(a, r.1, m as int, n as int, meaning::at(v, t))
        }),
{
    let g = matmul::row_major(x, w, m, n, k);
    meaning::lemma_step(a, whole, v, s, Step::Gemm(g));
    assert(m * n > 0) by (nonlinear_arith)
        requires
            m > 0,
            n > 0,
    ;
    assert(m * n == n * m) by (nonlinear_arith);
    let out = v[s.len() as int];
    assert(meaning::by_rows(g) == conv::conv_gemm(m as int, n as int, k as int, true));
    choose|one: A::T, p: A::Product|
        {
            &&& #[trigger] arith::is_ratio(a, 1, 1, one)
            &&& #[trigger] arith::is_gemm(
                a,
                meaning::by_rows(g),
                v[g.second as int],
                v[g.first as int],
                one,
                p,
            )
            &&& attention::is_entries(a, p, g.n as int, g.m as int, out)
        }
}

/// A product with a transposed matrix is the same, however the matrix is stored.
pub proof fn lemma_turned<A: Arith>(
    a: &A,
    rows: int,
    c_out: int,
    patch: int,
    x: Seq<A::T>,
    w: Seq<A::T>,
    wt: Seq<A::T>,
    one: A::T,
    p: A::Product,
)
    requires
        meaning::unrounded(a),
        0 <= rows <= usize::MAX,
        0 <= c_out <= usize::MAX,
        0 <= patch <= usize::MAX,
        is_turned(w, c_out, patch, wt),
        arith::is_gemm(a, conv::conv_gemm(rows, c_out, patch, true), x, wt, one, p),
    ensures
        arith::is_gemm(a, conv::conv_gemm(rows, c_out, patch, false), x, w, one, p),
{
    let g = conv::conv_gemm(rows, c_out, patch, true);
    let h = conv::conv_gemm(rows, c_out, patch, false);
    assert forall|q: int, j: int| 0 <= q < g.k && 0 <= j < g.n implies #[trigger] wt[q * g.rhs_rs + j
        * g.rhs_cs] == w[q * h.rhs_rs + j * h.rhs_cs] by {
        assert(w[j * patch + q] == wt[q * c_out + j]);
    }
    assert(meaning::same_matrices(g, x, wt, h, x, w));
}

/// A linear layer is the one of the processor.
pub proof fn linear_means<A: Arith>(
    a: &A,
    whole: Seq<Step>,
    v: Seq<Seq<A::T>>,
    s: Seq<Step>,
    x: GpuTensor,
    w: GpuWeight2D,
    bias: GpuBias,
    rows: usize,
    data: Seq<A::T>,
)
    requires
        meaning::unrounded(a),
        meaning::runs(a, whole, v, matmul::linear_steps(s, x, w, bias)),
        meaning::holds(v, x),
        x.data.len == rows * w.rows,
        w.cols > 0,
        is_turned(data, w.cols as int, w.rows as int, v[w.data.id as int]),
    ensures
        meaning::went(whole, v, s, matmul::linear_steps(s, x, w, bias)),
        ({
            let r = matmul::linear_steps(s, x, w, bias)->Ok_0.1;
            &&& r == gpu_tensor::tensor2(r.data.id, r.data.len, rows, w.cols)
            &&& attention::is_linear(
                a,
                meaning::at(v, x),
                rows as int,
                w.rows as int,
                data,
                w.cols as int,
                v[bias.data.id as int],
                meaning::at(v, r),
            )
        }),
{
    vstd::arithmetic::div_mod::lemma_fundamental_div_mod_converse(
        x.data.len as int,
        w.rows as int,
        rows as int,
        0,
    );
    assert(rows > 0) by (nonlinear_arith)
        requires
            rows * w.rows > 0,
            rows >= 0,
    ;
    let g = matmul::gemm_steps(s, x.data, w.data, rows, w.cols, w.rows);
    let (s1, t) = g->Ok_0;
    let l = elementwise::launch2(
        Kernel::AddBiasInplace,
        t.data,
        bias.data,
        program::ints2(t.d0, t.d1),
        t.data.len,
    );
    meaning::lemma_step(a, whole, v, s1, Step::Launch(l));
    let (one, p) = gemm_means(a, whole, v, s, x.data, w.data, rows, w.cols, w.rows);
    operators::launched_means(a, whole, v, s1, l, t);
    reveal(meaning::kernel_means);
    let y = meaning::at(v, t);
    let out = v[s1.len() as int];
    assert(y.take(t.data.len as int) =~= y);
    lemma_turned(
        a,
        rows as int,
        w.cols as int,
        w.rows as int,
        meaning::at(v, x),
        data,
        v[w.data.id as int],
        one,
        p,
    );
    reveal(attention::is_entries);
    reveal(attention::is_linear);
    assert forall|i: int| 0 <= i < out.len() implies conv::is_biased_entry(
        a,
        p,
        i / w.cols as int,
        i % w.cols as int,
        v[bias.data.id as int][i % w.cols as int],
        #[trigger] out[i],
    ) by {
        assert(arith::is_entry(a, p, i / w.cols as int, i % w.cols as int, y[i]));
    }
    assert(attention::is_biased_rows(
        a,
        p,
        rows as int,
        w.cols as int,
        v[bias.data.id as int],
        out,
    ));
}

/// Patches multiplied by weights, with a bias and in planes: a convolution of the processor
/// whose weights are stored by input.
pub proof fn project_means<A: Arith>(
    a: &A,
    whole: Seq<Step>,
    v: Seq<Seq<A::T>>,
    s: Seq<Step>,
    col: GpuBuffer,
    w: GpuBuffer,
    bias: GpuBuffer,
    patch: usize,
    b: usize,
    c_out: usize,
    h: usize,
    width: usize,
) -> (r: (A::T, A::Product))
    requires
        meaning::runs(
            a,
            whole,
            v,
            matmul::project_steps(s, col, w, bias, patch, b, c_out, h, width),
        ),
        b > 0,
        h > 0,
        width > 0,
        c_out > 0,
    ensures
        meaning::went(
            whole,
            v,
            s,
            matmul::project_steps(s, col, w, bias, patch, b, c_out, h, width),
        ),
        arith::is_ratio(a, 1, 1, r.0),
        arith::is_gemm(
            a,
            conv::conv_gemm(b * h * width, c_out as int, patch as int, true),
            v[col.id as int],
            v[w.id as int],
            r.0,
            r.1,
        ),
        ({
            let t = matmul::project_steps(s, col, w, bias, patch, b, c_out, h, width)->Ok_0.1;
            &&& t == gpu_tensor::tensor4(t.data.id, t.data.len, b, c_out, h, width)
            &&& conv::is_biased_planes(
                a,
                r.1,
                b as int,
                c_out as int,
                h * width,
                v[bias.id as int],
                meaning::at(v, t),
            )
        }),
{
    let rows = (b * h * width) as usize;
    assert(b * h * width > 0) by (nonlinear_arith)
        requires
            b > 0,
            h > 0,
            width > 0,
    ;
    assert(b * c_out * h * width > 0) by (nonlinear_arith)
        requires
            b > 0,
            h > 0,
            width > 0,
            c_out > 0,
    ;
    assert(b * c_out * h * width == b * c_out * (h * width)) by (nonlinear_arith);
    let area = h * width;
    assert(b * h * width == b * area) by (nonlinear_arith)
        requires
            area == h * width,
    ;
    let n = (b * c_out * h * width) as usize;
    let (s1, g) = matmul::gemm_steps(s, col, w, rows, c_out, patch)->Ok_0;
    let l = elementwise::launch2(
        Kernel::Conv2dPostprocess,
        g.data,
        bias,
        program::ints5(b, c_out, h, width, 0),
        n,
    );
    let shape = gpu_tensor::tensor4(0, n, b, c_out, h, width);
    operators::launched_means(a, whole, v, s1, l, shape);
    let (one, p) = gemm_means(a, whole, v, s, col, w, rows, c_out, patch);
    reveal(meaning::kernel_means);
    let y = meaning::at(v, g);
    let out = meaning::at(v, elementwise::launched(s1, l, shape)->Ok_0.1);
    reveal(attention::is_entries);
    assert forall|i: int| 0 <= i < out.len() implies conv::is_biased_entry(
        a,
        p,
        index::pos2(i / area / c_out as int, i % area, area),
        i / area % c_out as int,
        v[bias.id as int][i / area % c_out as int],
        #[trigger] out[i],
    ) by {
        index::lemma_untriple(i, b as int, c_out as int, area);
        let row = index::pos2(i / area / c_out as int, i % area, area);
        index::lemma_pair(i / area / c_out as int, i % area, b as int, area);
        index::lemma_pair(row, i / area % c_out as int, b * area, c_out as int);
        let q = index::pos2(row, i / area % c_out as int, c_out as int);
        assert(arith::is_entry(a, p, q / c_out as int, q % c_out as int, y[q]));
    }
    (one, p)
}

/// A kernel that is started with the integers brings the patches of `data` into rows.
pub open spec fn unfolds<A: Arith>(
    a: &A,
    kernel: Kernel,
    x: GpuBuffer,
    ints: Ints,
    data: Seq<A::T>,
    b: int,
    c: int,
    ah: Axis,
    aw: Axis,
) -> bool {
    forall|n: usize, y: Seq<A::T>, z: Seq<A::T>, out: Seq<A::T>| #[trigger]
        meaning::kernel_means(
            a,
            elementwise::launch1(kernel, x, ints, Factor::Absent, n),
            data,
            y,
            z,
            out,
        ) ==> meaning::is_unfolded(a, data, b, c, ah, aw, out)
}

/// A convolution on the device is one of the processor whose weights are stored by input.
pub proof fn conv_means<A: Arith>(
    a: &A,
    whole: Seq<Step>,
    v: Seq<Seq<A::T>>,
    s: Seq<Step>,
    kernel: Kernel,
    x: GpuBuffer,
    ints: Ints,
    taps: usize,
    w: GpuBuffer,
    bias: GpuBuffer,
    b: usize,
    c_in: usize,
    c_out: usize,
    ah: Axis,
    aw: Axis,
)
    requires
        meaning::runs(
            a,
            whole,
            v,
            gpu_conv::conv_steps(
                s,
                kernel,
                x,
                ints,
                taps,
                w,
                bias,
                b,
                c_in,
                c_out,
                ah.n_out,
                aw.n_out,
            ),
        ),
        b > 0,
        ah.n_out > 0,
        aw.n_out > 0,
        c_in > 0,
        c_out > 0,
        taps > 0,
        ah.k * aw.k == taps,
        unfolds(a, kernel, x, ints, v[x.id as int], b as int, c_in as int, ah, aw),
    ensures
        meaning::went(
            whole,
            v,
            s,
            gpu_conv::conv_steps(
                s,
                kernel,
                x,
                ints,
                taps,
                w,
                bias,
                b,
                c_in,
                c_out,
                ah.n_out,
                aw.n_out,
            ),
        ),
        ({
            let t = gpu_conv::conv_steps(
                s,
                kernel,
                x,
                ints,
                taps,
                w,
                bias,
                b,
                c_in,
                c_out,
                ah.n_out,
                aw.n_out,
            )->Ok_0.1;
            &&& t == gpu_tensor::tensor4(t.data.id, t.data.len, b, c_out, ah.n_out, aw.n_out)
            &&& conv::is_conv(
                a,
                v[x.id as int],
                b as int,
                c_in as int,
                ah,
                aw,
                c_out as int,
                v[w.id as int],
                true,
                v[bias.id as int],
                meaning::at(v, t),
            )
        }),
{
    let rows = (b * ah.n_out * aw.n_out) as usize;
    let patch = (c_in * taps) as usize;
    let n = (rows * patch) as usize;
    assert(b * ah.n_out * aw.n_out > 0) by (nonlinear_arith)
        requires
            b > 0,
            ah.n_out > 0,
            aw.n_out > 0,
    ;
    assert(c_in * taps > 0) by (nonlinear_arith)
        requires
            c_in > 0,
            taps > 0,
    ;
    assert(rows * patch > 0) by (nonlinear_arith)
        requires
            rows > 0,
            patch > 0,
    ;
    assert(c_in * ah.k * aw.k == c_in * taps) by (nonlinear_arith)
        requires
            ah.k * aw.k == taps,
    ;
    let l = elementwise::launch1(kernel, x, ints, Factor::Absent, n);
    let (s1, col) = matmul::unfold_steps(s, kernel, x, ints, rows, patch)->Ok_0;
    let (one, p) = project_means(
        a,
        whole,
        v,
        s1,
        col.data,
        w,
        bias,
        patch,
        b,
        c_out,
        ah.n_out,
        aw.n_out,
    );
    operators::launched_means(a, whole, v, s, l, gpu_tensor::tensor2(0, n, rows, patch));
    let unfolded = meaning::at(v, col);
    assert(meaning::is_unfolded(a, v[x.id as int], b as int, c_in as int, ah, aw, unfolded));
    let z = choose|z: A::T| #[trigger]
        arith::is_zero(a, z) && unfolded == conv::unfolded(
            v[x.id as int],
            b as int,
            c_in as int,
            ah,
            aw,
            z,
        );
    assert(arith::is_zero(a, z));
}

/// A convolution whose weights are stored by output is the same with the weights transposed.
pub proof fn conv_turned<A: Arith>(
    a: &A,
    x: Seq<A::T>,
    b: int,
    c_in: int,
    ah: Axis,
    aw: Axis,
    c_out: int,
    w: Seq<A::T>,
    wt: Seq<A::T>,
    bias: Seq<A::T>,
    out: Seq<A::T>,
)
    requires
        meaning::unrounded(a),
        conv::is_conv(a, x, b, c_in, ah, aw, c_out, wt, true, bias, out),
        0 <= b * ah.n_out * aw.n_out <= usize::MAX,
        0 <= c_out <= usize::MAX,
        0 <= c_in * ah.k * aw.k <= usize::MAX,
        is_turned(w, c_out, c_in * ah.k * aw.k, wt),
    ensures
        conv::is_conv(a, x, b, c_in, ah, aw, c_out, w, false, bias, out),
{
    let rows = b * ah.n_out * aw.n_out;
    let patch = c_in * ah.k * aw.k;
    let (z, one, p) = choose|z: A::T, one: A::T, p: A::Product|
        {
            &&& #[trigger] arith::is_zero(a, z)
            &&& #[trigger] arith::is_ratio(a, 1, 1, one)
            &&& #[trigger] arith::is_gemm(
                a,
                conv::conv_gemm(rows, c_out, patch, true),
                conv::unfolded(x, b, c_in, ah, aw, z),
                wt,
                one,
                p,
            )
            &&& conv::is_biased_planes(a, p, b, c_out, ah.n_out * aw.n_out, bias, out)
        };
    lemma_turned(a, rows, c_out, patch, conv::unfolded(x, b, c_in, ah, aw, z), w, wt, one, p);
    assert(arith::is_zero(a, z));
    assert(arith::is_ratio(a, 1, 1, one));
}

} // verus!
