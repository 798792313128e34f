//! Attention on the device.
use vstd::prelude::*;
use crate::arith;
use crate::arith::Arith;
use crate::cuda_ops::attention as gpu_attention;
use crate::cuda_ops::elementwise;
use crate::cuda_ops::layout as gpu_layout;
use crate::cuda_ops::matmul as gpu_matmul;
use crate::gpu_model::GpuBias;
use crate::gpu_model::GpuMhaWeights;
use crate::gpu_model::GpuWeight2D;
use crate::gpu_tensor;
use crate::gpu_tensor::GpuTensor;
use crate::index;
use crate::meaning;
use crate::meaning::growth;
use crate::meaning::matmul;
use crate::meaning::operators;
use crate::meaning::weights;
use crate::model::MhaWeights;
use crate::ops_cpu::attention;
use crate::ops_cpu::conv;
use crate::ops_cpu::layout;
use crate::ops_cpu::norm;
use crate::ops_cpu::softmax;
use crate::program;
use crate::program::Factor;
use crate::program::Step;

verus! {

/// A projection split into heads is a linear layer of the processor, its channels in heads.
pub proof fn heads_means<A: Arith>(
    a: &A,
    whole: Seq<Step>,
    v: Seq<Seq<A::T>>,
    s: Seq<Step>,
    x: GpuTensor,
    w: GpuWeight2D,
    bias: GpuBias,
    b: usize,
    n: usize,
    d: usize,
    h: usize,
    data: Seq<A::T>,
) -> (lin: Seq<A::T>)
    requires
        meaning::unrounded(a),
        meaning::runs(a, whole, v, gpu_attention::heads_steps(s, x, w, bias, b, n, d, h)),
        meaning::holds(v, x),
        x.data.len == b * n * d,
        d > 0,
        h > 0,
        weights::holds_square(v, w, d, data),
    ensures
        meaning::went(whole, v, s, gpu_attention::heads_steps(s, x, w, bias, b, n, d, h)),
        lin.len() == b * n * d,
        attention::is_linear(
            a,
            meaning::at(v, x),
            b * n,
            d as int,
            data,
            d as int,
            v[bias.data.id as int],
            lin,
        ),
        ({
            let r = gpu_attention::heads_steps(s, x, w, bias, b, n, d, h)->Ok_0.1;
            &&& r.rank == 3
            &&& r.d0 == b * h
            &&& r.d1 == n
            &&& r.d2 == d / h
            &&& d == h * (d / h)
            &&& meaning::at(v, r) == layout::swapped(
                lin,
                b as int,
                n as int,
                h as int,
                d as int / h as int,
            )
        }),
{
    reveal(gpu_attention::heads_steps);
    growth::heads_grows(s, x, w, bias, b, n, d, h);
    let b1 = gpu_matmul::linear_steps(s, x, w, bias);
    growth::linear_grows(s, x, w, bias);
    let (s1, y) = b1->Ok_0;
    let t = gpu_tensor::as_tensor3(y.data, b, n, d)->Ok_0;
    let b2 = gpu_layout::permute_bsd_to_bhsd_steps(s1, t, h, d / h);
    growth::lemma_inside(s1, b2->Ok_0.0, whole);
    assert(b * n <= b * n * d) by (nonlinear_arith)
        requires
            d > 0,
    ;
    let rows = (b * n) as usize;
    matmul::linear_means(a, whole, v, s, x, w, bias, rows, data);
    operators::bsd_to_bhsd_means(a, whole, v, s1, t, h, d / h);
    meaning::at(v, y)
}

/// `out` is the product of the matrices `x`, `[m, k]`, and `y`, `[k, n]`.
pub open spec fn is_matrix_product<A: Arith>(
    a: &A,
    x: Seq<A::T>,
    y: Seq<A::T>,
    m: int,
    k: int,
    n: int,
    out: Seq<A::T>,
) -> bool {
    exists|one: A::T, p: A::Product|
        {
            &&& #[trigger] arith::is_ratio(a, 1, 1, one)
            &&& #[trigger] arith::is_gemm(a, conv::conv_gemm(m, n, k, true), x, y, one, p)
            &&& attention::is_entries(a, p, m, n, out)
        }
}

/// `out` are the products of the matrices `[m, k]` in `x` by the matrices `[k, n]` in `y`.
pub open spec fn are_products<A: Arith>(
    a: &A,
    batch: int,
    x: Seq<A::T>,
    y: Seq<A::T>,
    m: int,
    k: int,
    n: int,
    out: Seq<A::T>,
) -> bool {
    forall|i: int|
        #![trigger norm::run(out, i, m * n)]
        0 <= i < batch ==> is_matrix_product(
            a,
            norm::run(x, i, m * k),
            norm::run(y, i, k * n),
            m,
            k,
            n,
            norm::run(out, i, m * n),
        )
}

/// A batch of products on the device.
pub proof fn row_major_batch_means<A: Arith>(
    a: &A,
    whole: Seq<Step>,
    v: Seq<Seq<A::T>>,
    s: Seq<Step>,
    x: GpuTensor,
    y: GpuTensor,
)
    requires
        meaning::runs(a, whole, v, gpu_attention::row_major_batch_steps(s, x, y)),
        meaning::holds(v, x),
        meaning::holds(v, y),
        x.rank == 3,
        y.rank == 3,
        y.d1 == x.d2,
    ensures
        meaning::went(whole, v, s, gpu_attention::row_major_batch_steps(s, x, y)),
        ({
            let r = gpu_attention::row_major_batch_steps(s, x, y)->Ok_0.1;
            &&& r.rank == 3
            &&& r.d0 == x.d0
            &&& r.d1 == x.d1
            &&& r.d2 == y.d2
            &&& are_products(
                a,
                x.d0 as int,
                meaning::at(v, x),
                meaning::at(v, y),
                x.d1 as int,
                x.d2 as int,
                y.d2 as int,
                meaning::at(v, r),
            )
        }),
{
    reveal(gpu_attention::row_major_batch_steps);
    growth::row_major_batch_grows(s, x, y);
    let plane_y = (y.d1 * y.d2) as usize;
    let plane_x = (x.d1 * x.d2) as usize;
    let plane = (y.d2 * x.d1) as usize;
    let g = gpu_matmul::batched_call(
        y.data,
        x.data,
        x.d0,
        y.d2,
        x.d1,
        x.d2,
        y.d2,
        x.d2,
        plane_y,
        plane_x,
        plane,
    );
    meaning::lemma_step(a, whole, v, s, Step::BatchedGemm(g));
    assert(x.d0 > 0 && x.d1 > 0) by (nonlinear_arith)
        requires
            x.d0 * x.d1 * x.d2 > 0,
    ;
    assert(y.d2 > 0) by (nonlinear_arith)
        requires
            y.d0 * y.d1 * y.d2 > 0,
    ;
    assert(x.d0 * x.d1 * y.d2 > 0) by (nonlinear_arith)
        requires
            x.d0 > 0,
            x.d1 > 0,
            y.d2 > 0,
    ;
    assert(y.d2 * x.d1 == x.d1 * y.d2) by (nonlinear_arith);
    let out = v[s.len() as int];
    let m = x.d1 as int;
    let k = x.d2 as int;
    let n = y.d2 as int;
    assert(meaning::by_rows(g.gemm) == conv::conv_gemm(m, n, k, true));
    assert forall|i: int|
        #![trigger norm::run(out, i, m * n)]
        0 <= i < x.d0 implies is_matrix_product(
        a,
        norm::run(meaning::at(v, x), i, m * k),
        norm::run(meaning::at(v, y), i, k * n),
        m,
        k,
        n,
        norm::run(out, i, m * n),
    ) by {
        let part = out.subrange(i * g.stride_c, (i + 1) * g.stride_c);
        assert(g.stride_a == k * n && g.stride_b == m * k && g.stride_c == m * n);
        assert(part == norm::run(out, i, m * n));
        let first = norm::run(meaning::at(v, y), i, k * n);
        let second = norm::run(meaning::at(v, x), i, m * k);
        assert(meaning::product_means(a, g.gemm, first, second, part));
        assert(g.gemm.n == m && g.gemm.m == n);
    }
    let r = gpu_attention::row_major_batch_steps(s, x, y)->Ok_0.1;
    assert(meaning::at(v, r) == out);
    assert(are_products(a, x.d0 as int, meaning::at(v, x), meaning::at(v, y), m, k, n, out));
    assert(meaning::holds(v, r));
}

/// The runs of a run.
proof fn lemma_run_of_run<T>(x: Seq<T>, i: int, rows: int, n: int, k: int)
    requires
        0 <= i,
        0 <= k < rows,
        0 <= n,
        (i + 1) * (rows * n) <= x.len(),
    ensures
        norm::run(norm::run(x, i, rows * n), k, n) == norm::run(x, i * rows + k, n),
        0 <= i * (rows * n),
        norm::run(x, i, rows * n).len() == rows * n,
{
    assert(0 <= k * n && (k + 1) * n <= rows * n && 0 <= rows * n) by (nonlinear_arith)
        requires
            0 <= k < rows,
            0 <= n,
    ;
    assert(0 <= i * (rows * n)) by (nonlinear_arith)
        requires
            0 <= i,
            0 <= rows * n,
    ;
    assert((i + 1) * (rows * n) == i * (rows * n) + rows * n) by (nonlinear_arith);
    assert((k + 1) * n == k * n + n) by (nonlinear_arith);
    assert((i * rows + k) * n == i * (rows * n) + k * n) by (nonlinear_arith);
    assert((i * rows + k + 1) * n == i * (rows * n) + (k + 1) * n) by (nonlinear_arith);
    assert(norm::run(norm::run(x, i, rows * n), k, n) =~= norm::run(x, i * rows + k, n));
}

/// Softmax of a head is the part of the head in the softmax of all.
proof fn lemma_softmax_of_head<A: Arith>(
    a: &A,
    x: Seq<A::T>,
    out: Seq<A::T>,
    heads: int,
    rows: int,
    n: int,
    i: int,
)
    requires
        softmax::is_run_softmax(a, x, n, out),
        x.len() == heads * (rows * n),
        0 <= i < heads,
        0 < rows,
        0 < n,
    ensures
        softmax::is_run_softmax(a, norm::run(x, i, rows * n), n, norm::run(out, i, rows * n)),
        norm::run(x, i, rows * n).len() == rows * n,
{
    reveal(softmax::is_run_softmax);
    assert((i + 1) * (rows * n) <= heads * (rows * n) && 0 <= rows * n) by (nonlinear_arith)
        requires
            0 <= i < heads,
            0 < rows,
            0 < n,
    ;
    let xr = norm::run(x, i, rows * n);
    let yr = norm::run(out, i, rows * n);
    lemma_run_of_run(x, i, rows, n, 0);
    lemma_run_of_run(out, i, rows, n, 0);
    vstd::arithmetic::div_mod::lemma_div_by_multiple(rows, n);
    assert(heads * (rows * n) == (heads * rows) * n) by (nonlinear_arith);
    vstd::arithmetic::div_mod::lemma_div_by_multiple(heads * rows, n);
    assert forall|k: int| 0 <= k < xr.len() as int / n implies softmax::is_softmax(
        a,
        norm::run(xr, k, n),
        #[trigger] norm::run(yr, k, n),
    ) by {
        lemma_run_of_run(x, i, rows, n, k);
        lemma_run_of_run(out, i, rows, n, k);
        index::lemma_pair(i, k, heads, rows);
        assert(softmax::is_softmax(
            a,
            norm::run(x, i * rows + k, n),
            norm::run(out, i * rows + k, n),
        ));
    }
}

/// A head of a projection, as the device lays the heads out.
proof fn lemma_head<T>(x: Seq<T>, b: int, n: int, h: int, dh: int, i: int)
    requires
        0 <= i < b * h,
        0 < h,
        0 < n,
        0 < dh,
    ensures
        norm::run(layout::swapped(x, b, n, h, dh), i, n * dh) == attention::head_of(
            x,
            n,
            h * dh,
            dh,
            i / h,
            i % h,
        ),
        layout::swapped(x, b, n, h, dh).len() == (b * h) * (n * dh),
{
    let y = layout::swapped(x, b, n, h, dh);
    index::lemma_unpair(i, b, h);
    assert(b * h * n * dh == (b * h) * (n * dh)) by (nonlinear_arith);
    assert(0 < n * dh) by (nonlinear_arith)
        requires
            0 < n,
            0 < dh,
    ;
    assert(0 <= i * (n * dh) && (i + 1) * (n * dh) <= (b * h) * (n * dh)) by (nonlinear_arith)
        requires
            0 <= i < b * h,
            0 < n * dh,
    ;
    assert((i + 1) * (n * dh) == i * (n * dh) + n * dh) by (nonlinear_arith);
    let r = norm::run(y, i, n * dh);
    let z = attention::head_of(x, n, h * dh, dh, i / h, i % h);
    assert forall|p: int| 0 <= p < n * dh implies #[trigger] r[p] == z[p] by {
        index::lemma_unpair(p, n, dh);
        layout::swapped_element(x, b, n, h, dh, i / h, p / dh, i % h, p % dh);
        let bi = i / h;
        let hi = i % h;
        let si = p / dh;
        let k = p % dh;
        assert(i * (n * dh) + p == index::pos4(bi, hi, si, k, h, n, dh)) by (nonlinear_arith)
            requires
                i == bi * h + hi,
                p == si * dh + k,
                index::pos4(bi, hi, si, k, h, n, dh) == ((bi * h + hi) * n + si) * dh + k,
        ;
        assert(index::pos2(index::pos2(bi, si, n), hi * dh + k, h * dh) == index::pos4(
            bi,
            si,
            hi,
            k,
            n,
            h,
            dh,
        )) by (nonlinear_arith)
            requires
                index::pos2(index::pos2(bi, si, n), hi * dh + k, h * dh) == (bi * n + si) * (h * dh)
                    + (hi * dh + k),
                index::pos4(bi, si, hi, k, n, h, dh) == ((bi * n + si) * h + hi) * dh + k,
        ;
    }
    assert(r =~= z);
}

/// The heads put together again.
proof fn lemma_merged<T>(y: Seq<T>, b: int, n: int, h: int, dh: int)
    requires
        0 <= b,
        0 < h,
        0 < n,
        0 < dh,
        y.len() == (b * h) * (n * dh),
    ensures
        layout::swapped(y, b, h, n, dh) == attention::merged(
            Seq::new((b * h) as nat, |i: int| norm::run(y, i, n * dh)),
            b,
            n,
            h,
            dh,
        ),
{
    let heads = Seq::new((b * h) as nat, |i: int| norm::run(y, i, n * dh));
    let r = layout::swapped(y, b, h, n, dh);
    let m = attention::merged(heads, b, n, h, dh);
    let d = h * dh;
    assert(b * n * h * dh == b * n * d) by (nonlinear_arith)
        requires
            d == h * dh,
    ;
    assert forall|i: int| 0 <= i < r.len() implies #[trigger] r[i] == m[i] by {
        index::lemma_unquad(i, b, n, h, dh);
        index::lemma_untriple(i, b, n, d);
        let bi = i / dh / h / n;
        let si = i / dh / h % n;
        let hi = i / dh % h;
        let k = i % dh;
        index::lemma_pair(hi, k, h, dh);
        index::lemma_triple(bi, si, index::pos2(hi, k, dh), b, n, d);
        assert(i == index::pos3(bi, si, index::pos2(hi, k, dh), n, d)) by (nonlinear_arith)
            requires
                i == ((bi * n + si) * h + hi) * dh + k,
                index::pos3(bi, si, index::pos2(hi, k, dh), n, d) == (bi * n + si) * d + (hi * dh
                    + k),
                d == h * dh,
        ;
        layout::swapped_element(y, b, h, n, dh, bi, hi, si, k);
        let j = index::pos2(bi, hi, h);
        index::lemma_pair(bi, hi, b, h);
        let p = index::pos2(si, k, dh);
        index::lemma_pair(si, k, n, dh);
        assert(0 <= j * (n * dh) && (j + 1) * (n * dh) <= (b * h) * (n * dh)) by (nonlinear_arith)
            requires
                0 <= j < b * h,
                0 < n,
                0 < dh,
        ;
        assert((j + 1) * (n * dh) == j * (n * dh) + n * dh) by (nonlinear_arith);
        assert(heads[j][p] == y[j * (n * dh) + p]);
        assert(j * (n * dh) + p == index::pos4(bi, hi, si, k, h, n, dh)) by (nonlinear_arith)
            requires
                j == bi * h + hi,
                p == si * dh + k,
                index::pos4(bi, hi, si, k, h, n, dh) == ((bi * h + hi) * n + si) * dh + k,
        ;
        assert(index::pos4(bi, si, hi, k, n, h, dh) == i);
    }
    assert(r =~= m);
}

/// The matrix of a head and the one that `PermuteBhsdToBhds` makes of it.
proof fn lemma_turned_head<T>(x: Seq<T>, heads: int, n: int, dh: int, i: int)
    requires
        0 <= i < heads,
        0 < n,
        0 < dh,
        x.len() == heads * (n * dh),
    ensures
        matmul::is_turned(
            norm::run(x, i, n * dh),
            n,
            dh,
            norm::run(layout::swapped(x, heads, n, dh, 1), i, dh * n),
        ),
{
    let y = layout::swapped(x, heads, n, dh, 1);
    let r = norm::run(x, i, n * dh);
    let z = norm::run(y, i, dh * n);
    assert(n * dh == dh * n && 0 < n * dh) by (nonlinear_arith)
        requires
            0 < n,
            0 < dh,
    ;
    assert(heads * dh * n * 1 == heads * (dh * n)) by (nonlinear_arith);
    assert(0 <= i * (n * dh) && (i + 1) * (n * dh) <= heads * (n * dh)) by (nonlinear_arith)
        requires
            0 <= i < heads,
            0 < n * dh,
    ;
    assert((i + 1) * (n * dh) == i * (n * dh) + n * dh) by (nonlinear_arith);
    assert forall|p: int, q: int|
        #![trigger r[p * dh + q]]
        #![trigger z[q * n + p]]
        0 <= p < n && 0 <= q < dh implies r[p * dh + q] == z[q * n + p] by {
        layout::swapped_element(x, heads, n, dh, 1, i, p, q, 0);
        index::lemma_pair(p, q, n, dh);
        index::lemma_pair(q, p, dh, n);
        assert(i * (n * dh) + (p * dh + q) == index::pos4(
            i,
            p,
            q,
            0,
            n,
            dh,
            1,
        )) by (nonlinear_arith)
            requires
                index::pos4(i, p, q, 0, n, dh, 1) == ((i * n + p) * dh + q) * 1 + 0,
        ;
        assert(i * (dh * n) + (q * n + p) == index::pos4(i, q, p, 0, dh, n, 1)) by (nonlinear_arith)
            requires
                index::pos4(i, q, p, 0, dh, n, 1) == ((i * dh + q) * n + p) * 1 + 0,
        ;
    }
}

/// One head attends as on the processor, where the scores are scaled before they are summed up.
proof fn lemma_attended<A: Arith>(
    a: &A,
    q: Seq<A::T>,
    k: Seq<A::T>,
    kt: Seq<A::T>,
    v: Seq<A::T>,
    n: usize,
    kv: usize,
    dh: usize,
    scale: A::T,
    raw: Seq<A::T>,
    scores: Seq<A::T>,
    w: Seq<A::T>,
    out: Seq<A::T>,
)
    requires
        meaning::unrounded(a),
        is_matrix_product(a, q, kt, n as int, dh as int, kv as int, raw),
        matmul::is_turned(k, kv as int, dh as int, kt),
        program::is_factor(a, Factor::InverseRoot(dh), scale),
        scores.len() == raw.len(),
        forall|i: int|
            0 <= i < raw.len() ==> arith::is_product(a, raw[i], scale, #[trigger] scores[i]),
        softmax::is_run_softmax(a, scores, kv as int, w),
        is_matrix_product(a, w, v, n as int, kv as int, dh as int, out),
    ensures
        attention::is_attended(a, q, k, v, n as int, kv as int, dh as int, scale, out),
{
    let g = conv::conv_gemm(n as int, kv as int, dh as int, true);
    let (one, p) = choose|one: A::T, p: A::Product|
        {
            &&& #[trigger] arith::is_ratio(a, 1, 1, one)
            &&& #[trigger] arith::is_gemm(a, g, q, kt, one, p)
            &&& attention::is_entries(a, p, n as int, kv as int, raw)
        };
    matmul::lemma_turned(a, n as int, kv as int, dh as int, q, k, kt, one, p);
    let h = conv::conv_gemm(n as int, kv as int, dh as int, false);
    assert(meaning::is_factor_value(a, scale));
    let sp = choose|sp: A::Product| #[trigger]
        arith::is_gemm(a, h, q, k, scale, sp) && forall|i: int, j: int, e: A::T, r: A::T|
            #![trigger arith::is_entry(a, p, i, j, e), arith::is_product(a, e, scale, r)]
            arith::is_entry(a, p, i, j, e) && arith::is_product(a, e, scale, r)
                ==> arith::is_entry(a, sp, i, j, r);
    assert(attention::is_entries(a, sp, n as int, kv as int, scores)) by {
        reveal(attention::is_entries);
        assert forall|i: int| 0 <= i < scores.len() implies arith::is_entry(
            a,
            sp,
            i / kv as int,
            i % kv as int,
            #[trigger] scores[i],
        ) by {
            assert(arith::is_entry(a, p, i / kv as int, i % kv as int, raw[i]));
            assert(arith::is_product(a, raw[i], scale, scores[i]));
        }
    }
    assert(attention::is_attended(a, q, k, v, n as int, kv as int, dh as int, scale, out)) by {
        reveal(attention::is_attended);
    }
}

/// All heads attend as on the processor.
#[verifier::spinoff_prover]
pub proof fn attend_means<A: Arith>(
    a: &A,
    whole: Seq<Step>,
    vals: Seq<Seq<A::T>>,
    s: Seq<Step>,
    q: GpuTensor,
    k: GpuTensor,
    v: GpuTensor,
    b: usize,
    h: usize,
) -> (r: (A::T, Seq<Seq<A::T>>))
    requires
        meaning::unrounded(a),
        meaning::runs(a, whole, vals, gpu_attention::attend_steps(s, q, k, v, b, q.d2)),
        meaning::holds(vals, q),
        meaning::holds(vals, k),
        meaning::holds(vals, v),
        q.rank == 3,
        k.rank == 3,
        v.rank == 3,
        q.d0 == b * h,
        k.d0 == q.d0,
        v.d0 == q.d0,
        k.d2 == q.d2,
        v.d1 == k.d1,
        v.d2 == q.d2,
        h > 0,
        b > 0,
    ensures
        meaning::went(whole, vals, s, gpu_attention::attend_steps(s, q, k, v, b, q.d2)),
        program::is_factor(a, Factor::InverseRoot(q.d2), r.0),
        r.1.len() == b * h,
        forall|i: int|
            0 <= i < b * h ==> attention::is_attended(
                a,
                norm::run(meaning::at(vals, q), i, q.d1 * q.d2),
                norm::run(meaning::at(vals, k), i, k.d1 * q.d2),
                norm::run(meaning::at(vals, v), i, k.d1 * q.d2),
                q.d1 as int,
                k.d1 as int,
                q.d2 as int,
                r.0,
                #[trigger] r.1[i],
            ),
        ({
            let t = gpu_attention::attend_steps(s, q, k, v, b, q.d2)->Ok_0.1;
            &&& t.rank == 3
            &&& t.d0 == b
            &&& t.d1 == q.d1
            &&& t.d2 == h * q.d2
            &&& meaning::at(vals, t) == attention::merged(
                r.1,
                b as int,
                q.d1 as int,
                h as int,
                q.d2 as int,
            )
        }),
{
    reveal(gpu_attention::attend_steps);
    growth::attend_grows(s, q, k, v, b, q.d2);
    let b1 = gpu_layout::permute_bhsd_to_bhds_steps(s, k);
    let (s1, kt) = b1->Ok_0;
    let b2 = gpu_attention::row_major_batch_steps(s1, q, kt);
    growth::row_major_batch_grows(s1, q, kt);
    let (s2, scores) = b2->Ok_0;
    let b3 = elementwise::softmax_steps(s2, scores, Factor::InverseRoot(q.d2));
    let (s3, w) = b3->Ok_0;
    let b4 = gpu_attention::row_major_batch_steps(s3, w, v);
    growth::row_major_batch_grows(s3, w, v);
    let (s4, y) = b4->Ok_0;
    let b5 = gpu_layout::permute_bhsd_to_bsd_steps(s4, y, b);
    growth::lemma_inside(s4, b5->Ok_0.0, whole);
    growth::lemma_inside(s3, b4->Ok_0.0, whole);
    growth::lemma_inside(s2, b3->Ok_0.0, whole);
    growth::lemma_inside(s1, b2->Ok_0.0, whole);
    let n = q.d1 as int;
    let kv = k.d1 as int;
    let dh = q.d2 as int;
    let heads = b * h;
    operators::bhsd_to_bhds_means(a, whole, vals, s, k);
    row_major_batch_means(a, whole, vals, s1, q, kt);
    operators::softmax_means(a, whole, vals, s2, scores, Factor::InverseRoot(q.d2));
    row_major_batch_means(a, whole, vals, s3, w, v);
    operators::bhsd_to_bsd_means(a, whole, vals, s4, y, b);
    vstd::arithmetic::div_mod::lemma_div_by_multiple(h as int, b as int);
    assert(b * h == h * b) by (nonlinear_arith);
    assert(n > 0 && dh > 0) by (nonlinear_arith)
        requires
            q.d0 * n * dh > 0,
            n >= 0,
            dh >= 0,
            q.d0 >= 0,
    ;
    assert(kv > 0) by (nonlinear_arith)
        requires
            k.d0 * kv * dh > 0,
            kv >= 0,
            dh >= 0,
    ;
    let raw = meaning::at(vals, scores);
    let wv = meaning::at(vals, w);
    let yv = meaning::at(vals, y);
    let (scale, scaled) = choose|r: A::T, t: Seq<A::T>|
        {
            &&& #[trigger] program::is_factor(a, Factor::InverseRoot(q.d2), r)
            &&& t.len() == raw.len()
            &&& forall|i: int| 0 <= i < raw.len(
            ) ==> arith::is_product(a, raw[i], r, #[trigger] t[i])
            &&& #[trigger] softmax::is_run_softmax(a, t, kv, wv)
        };
    let parts = Seq::new((b * h) as nat, |i: int| norm::run(yv, i, n * dh));
    assert(q.d0 * n * kv == heads * (n * kv)) by (nonlinear_arith)
        requires
            q.d0 == heads,
    ;
    assert(q.d0 * n * dh == heads * (n * dh)) by (nonlinear_arith)
        requires
            q.d0 == heads,
    ;
    assert(k.d0 * kv * dh == heads * (kv * dh)) by (nonlinear_arith)
        requires
            k.d0 == heads,
    ;
    assert(kv * dh == dh * kv) by (nonlinear_arith);
    assert forall|i: int| 0 <= i < b * h implies attention::is_attended(
        a,
        norm::run(meaning::at(vals, q), i, n * dh),
        norm::run(meaning::at(vals, k), i, kv * dh),
        norm::run(meaning::at(vals, v), i, kv * dh),
        n,
        kv,
        dh,
        scale,
        #[trigger] parts[i],
    ) by {
        let e1 = norm::run(raw, i, n * kv);
        let e2 = norm::run(scaled, i, n * kv);
        lemma_turned_head(meaning::at(vals, k), heads, kv, dh, i);
        lemma_softmax_of_head(a, scaled, wv, heads, n, kv, i);
        assert(0 <= i * (n * kv) && (i + 1) * (n * kv) <= heads * (n * kv)) by (nonlinear_arith)
            requires
                0 <= i < heads,
                0 < n,
                0 < kv,
        ;
        assert((i + 1) * (n * kv) == i * (n * kv) + n * kv) by (nonlinear_arith);
        lemma_run_of_run(raw, i, n, kv, 0);
        assert forall|j: int| 0 <= j < e1.len() implies arith::is_product(
            a,
            e1[j],
            scale,
            #[trigger] e2[j],
        ) by {
            assert(arith::is_product(a, raw[i * (n * kv) + j], scale, scaled[i * (n * kv) + j]));
        }
        let kt_i = norm::run(meaning::at(vals, kt), i, dh * kv);
        lemma_attended(
            a,
            norm::run(meaning::at(vals, q), i, n * dh),
            norm::run(meaning::at(vals, k), i, kv * dh),
            kt_i,
            norm::run(meaning::at(vals, v), i, kv * dh),
            q.d1,
            k.d1,
            q.d2,
            scale,
            e1,
            e2,
            norm::run(wv, i, n * kv),
            norm::run(yv, i, n * dh),
        );
    }
    lemma_merged(yv, b as int, n, h as int, dh);
    (scale, parts)
}

/// Attention of many heads is the one of the processor.
#[verifier::spinoff_prover]
pub proof fn mha_means<A: Arith>(
    a: &A,
    whole: Seq<Step>,
    vals: Seq<Seq<A::T>>,
    s: Seq<Step>,
    q: GpuTensor,
    kv: GpuTensor,
    g: GpuMhaWeights,
    attn: &MhaWeights<A::T>,
)
    requires
        meaning::unrounded(a),
        meaning::runs(a, whole, vals, gpu_attention::mha_steps(s, q, kv, g)),
        meaning::holds(vals, q),
        meaning::holds(vals, kv),
        q.rank == 3,
        kv.rank == 3,
        kv.d0 == q.d0,
        q.d2 == attn.d_model,
        kv.d2 == attn.d_model,
        weights::holds_mha(vals, g, *attn),
    ensures
        meaning::went(whole, vals, s, gpu_attention::mha_steps(s, q, kv, g)),
        ({
            let r = gpu_attention::mha_steps(s, q, kv, g)->Ok_0.1;
            &&& r.rank == 3
            &&& meaning::axes3(r) == meaning::axes3(q)
            &&& attention::is_mha(
                a,
                meaning::at(vals, q),
                meaning::axes3(q),
                meaning::at(vals, kv),
                meaning::axes3(kv),
                attn,
                meaning::at(vals, r),
            )
        }),
{
    reveal(gpu_attention::mha_steps);
    reveal(weights::holds_mha);
    growth::mha_grows(s, q, kv, g);
    let d = attn.d_model;
    let h = attn.n_heads;
    let b1 = gpu_attention::heads_steps(s, q, g.q_w, g.q_b, q.d0, q.d1, d, h);
    growth::heads_grows(s, q, g.q_w, g.q_b, q.d0, q.d1, d, h);
    let (s1, qh) = b1->Ok_0;
    let b2 = gpu_attention::heads_steps(s1, kv, g.k_w, g.k_b, q.d0, kv.d1, d, h);
    growth::heads_grows(s1, kv, g.k_w, g.k_b, q.d0, kv.d1, d, h);
    let (s2, kh) = b2->Ok_0;
    let b3 = gpu_attention::heads_steps(s2, kv, g.v_w, g.v_b, q.d0, kv.d1, d, h);
    growth::heads_grows(s2, kv, g.v_w, g.v_b, q.d0, kv.d1, d, h);
    let (s3, vh) = b3->Ok_0;
    let b4 = gpu_attention::attend_steps(s3, qh, kh, vh, q.d0, d / h);
    growth::attend_grows(s3, qh, kh, vh, q.d0, d / h);
    let (s4, y) = b4->Ok_0;
    let b5 = gpu_matmul::linear_steps(s4, y, g.out_proj_w, g.out_proj_b);
    growth::linear_grows(s4, y, g.out_proj_w, g.out_proj_b);
    growth::lemma_inside(s4, b5->Ok_0.0, whole);
    growth::lemma_inside(s3, b4->Ok_0.0, whole);
    growth::lemma_inside(s2, b3->Ok_0.0, whole);
    growth::lemma_inside(s1, b2->Ok_0.0, whole);
    let b = q.d0 as int;
    let n = q.d1 as int;
    let m = kv.d1 as int;
    let hi = h as int;
    let dh = d as int / h as int;
    assert(q.d0 > 0 && q.d1 > 0 && q.d2 > 0) by (nonlinear_arith)
        requires
            q.d0 * q.d1 * q.d2 > 0,
    ;
    assert(kv.d1 > 0) by (nonlinear_arith)
        requires
            kv.d0 * kv.d1 * kv.d2 > 0,
    ;
    let ql = heads_means(
        a,
        whole,
        vals,
        s,
        q,
        g.q_w,
        g.q_b,
        q.d0,
        q.d1,
        d,
        h,
        attention::projection(attn.in_proj_weight@, d as int, 0),
    );
    let kl = heads_means(
        a,
        whole,
        vals,
        s1,
        kv,
        g.k_w,
        g.k_b,
        q.d0,
        kv.d1,
        d,
        h,
        attention::projection(attn.in_proj_weight@, d as int, 1),
    );
    let vl = heads_means(
        a,
        whole,
        vals,
        s2,
        kv,
        g.v_w,
        g.v_b,
        q.d0,
        kv.d1,
        d,
        h,
        attention::projection(attn.in_proj_weight@, d as int, 2),
    );
    assert(dh > 0) by (nonlinear_arith)
        requires
            d == h * dh,
            d > 0,
            h > 0,
    ;
    let (scale, heads) = attend_means(a, whole, vals, s3, qh, kh, vh, q.d0, h);
    assert(q.d0 * q.d1 <= q.d0 * q.d1 * q.d2) by (nonlinear_arith)
        requires
            q.d2 > 0,
    ;
    let rows = (q.d0 * q.d1) as usize;
    matmul::linear_means(
        a,
        whole,
        vals,
        s4,
        y,
        g.out_proj_w,
        g.out_proj_b,
        rows,
        attn.out_proj_weight@,
    );
    assert(attention::is_attention_scale(a, dh, scale));
    assert(attention::are_heads(a, ql, kl, vl, b, n, m, hi, dh, scale, heads)) by {
        reveal(attention::are_heads);
        assert forall|i: int| 0 <= i < heads.len() implies attention::is_attended(
            a,
            attention::head_of(ql, n, hi * dh, dh, i / hi, i % hi),
            attention::head_of(kl, m, hi * dh, dh, i / hi, i % hi),
            attention::head_of(vl, m, hi * dh, dh, i / hi, i % hi),
            n,
            m,
            dh,
            scale,
            #[trigger] heads[i],
        ) by {
            lemma_head(ql, b, n, hi, dh, i);
            lemma_head(kl, b, m, hi, dh, i);
            lemma_head(vl, b, m, hi, dh, i);
        }
    }
    assert(attention::is_projected(a, meaning::at(vals, q), meaning::axes3(q), attn, 0, ql));
    assert(attention::is_projected(a, meaning::at(vals, kv), meaning::axes3(kv), attn, 1, kl));
    assert(attention::is_projected(a, meaning::at(vals, kv), meaning::axes3(kv), attn, 2, vl));
    let t = gpu_attention::mha_steps(s, q, kv, g)->Ok_0.1;
    assert(attention::is_mha(
        a,
        meaning::at(vals, q),
        meaning::axes3(q),
        meaning::at(vals, kv),
        meaning::axes3(kv),
        attn,
        meaning::at(vals, t),
    )) by {
        reveal(attention::is_mha);
    }
}

} // verus!
