//! Products of matrices, and what is made of them directly.
use vstd::prelude::*;
use crate::cuda_ops::elementwise;
use crate::cuda_ops::elementwise::launch1;
use crate::cuda_ops::elementwise::launch2;
use crate::error::DemucsError;
use crate::gpu_model::GpuBias;
use crate::gpu_model::GpuWeight2D;
use crate::gpu_tensor;
use crate::gpu_tensor::tensor2;
use crate::gpu_tensor::tensor4;
use crate::gpu_tensor::Built;
use crate::gpu_tensor::GpuBuffer;
use crate::gpu_tensor::GpuTensor;
use crate::program;
use crate::program::ints2;
use crate::program::ints5;
use crate::program::BatchedGemmCall;
use crate::program::Factor;
use crate::program::GemmCall;
use crate::program::Ints;
use crate::program::Kernel;
use crate::program::Launch;
use crate::program::Program;
use crate::program::Step;
use crate::program::LIMIT;
use crate::text;

verus! {

/// The product of `[m, k]` in `a` and `[k, n]` in `b`, both row-major, as one of matrices
/// stored by columns: what is row-major is by columns the transposed matrix, so the operands
/// change places.
#[verifier::allow_in_spec]
pub fn row_major(a: GpuBuffer, b: GpuBuffer, m: usize, n: usize, k: usize) -> GemmCall
    returns
        (GemmCall { first: b.id, second: a.id, m: n, n: m, k, lda: n, ldb: k, ldc: n }),
{
    GemmCall { first: b.id, second: a.id, m: n, n: m, k, lda: n, ldb: k, ldc: n }
}

/// Position in the first operand of the element in row `i` and column `p`.
pub open spec fn first_position(g: GemmCall, i: int, p: int) -> int {
    i + p * g.lda
}

/// Position in the second operand of the element in row `p` and column `j`.
pub open spec fn second_position(g: GemmCall, p: int, j: int) -> int {
    p + j * g.ldb
}

/// Position in the product of the element in row `i` and column `j`.
pub open spec fn product_position(g: GemmCall, i: int, j: int) -> int {
    i + j * g.ldc
}

/// The product by columns that [`row_major`] asks for is the row-major product: the element
/// in column `i` and row `j` of what it makes is the one in row `i` and column `j` of the
/// row-major product, made of the same elements of the operands.
pub proof fn row_major_product(
    a: GpuBuffer,
    b: GpuBuffer,
    m: usize,
    n: usize,
    k: usize,
    i: int,
    j: int,
    p: int,
)
    ensures
        product_position(row_major(a, b, m, n, k), j, i) == i * n + j,
        second_position(row_major(a, b, m, n, k), p, i) == i * k + p,
        first_position(row_major(a, b, m, n, k), j, p) == p * n + j,
{
}

/// The steps of [`gemm_f16`].
pub open spec fn gemm_steps(
    s: Seq<Step>,
    a: GpuBuffer,
    b: GpuBuffer,
    m: usize,
    n: usize,
    k: usize,
) -> Built<
    GpuTensor,
> {
    match gpu_tensor::size2(m, n) {
        None => Err(gpu_tensor::too_large()),
        Some(len) => if k > LIMIT {
            Err(gpu_tensor::too_large())
        } else if a.len < m * k || b.len < k * n {
            Err(gpu_tensor::too_short())
        } else {
            Ok(
                (
                    s.push(Step::Gemm(row_major(a, b, m, n, k))),
                    tensor2(s.len() as usize, len, m, n),
                ),
            )
        },
    }
}

/// The product of `[m, k]` and `[k, n]`, both row-major.
pub fn gemm_f16(p: &mut Program, a: GpuBuffer, b: GpuBuffer, m: usize, n: usize, k: usize) -> (r: Result<
    GpuTensor,
    DemucsError,
>)
    requires
        program::program_ok(old(p)@),
        gpu_tensor::buffer_ok(old(p)@, a),
        gpu_tensor::buffer_ok(old(p)@, b),
    ensures
        elementwise::good(old(p)@, gemm_steps(old(p)@, a, b, m, n, k), r, final(p)@),
{
    let len: usize = match gpu_tensor::count2(m, n) {
        Some(c) => c,
        None => {
            return Err(gpu_tensor::large());
        },
    };
    if k > LIMIT {
        return Err(gpu_tensor::large());
    }
    proof {
        assert(m * k <= LIMIT * LIMIT) by (nonlinear_arith)
            requires
                m <= LIMIT,
                k <= LIMIT,
        ;
        assert(k * n <= LIMIT * LIMIT) by (nonlinear_arith)
            requires
                n <= LIMIT,
                k <= LIMIT,
        ;
    }
    if (a.len as u64) < m as u64 * k as u64 || (b.len as u64) < k as u64 * n as u64 {
        return Err(gpu_tensor::short());
    }
    let g: GemmCall = row_major(a, b, m, n, k);
    proof {
        reveal(program::gemm_ok);
        assert(m * n == n * m) by (nonlinear_arith);
        assert(m * k == k * m) by (nonlinear_arith);
        assert(k * n == n * k) by (nonlinear_arith);
    }
    let id: usize = p.push(Step::Gemm(g));
    Ok(tensor2(id, len, m, n))
}

/// The batch of products asked for.
#[verifier::allow_in_spec]
pub fn batched_call(
    first: GpuBuffer,
    second: GpuBuffer,
    batch: usize,
    m: usize,
    n: usize,
    k: usize,
    lda: usize,
    ldb: usize,
    stride_a: usize,
    stride_b: usize,
    stride_c: usize,
) -> BatchedGemmCall
    returns
        (BatchedGemmCall {
            gemm: GemmCall { first: first.id, second: second.id, m, n, k, lda, ldb, ldc: m },
            batch,
            stride_a,
            stride_b,
            stride_c,
        }),
{
    BatchedGemmCall {
        gemm: GemmCall { first: first.id, second: second.id, m, n, k, lda, ldb, ldc: m },
        batch,
        stride_a,
        stride_b,
        stride_c,
    }
}

/// The steps of [`gemm_strided_batched_f16`].
pub open spec fn batched_steps(
    s: Seq<Step>,
    first: GpuBuffer,
    second: GpuBuffer,
    batch: usize,
    m: usize,
    n: usize,
    k: usize,
    lda: usize,
    ldb: usize,
    stride_a: usize,
    stride_b: usize,
) -> Built<GpuTensor> {
    match gpu_tensor::size2(m, n) {
        None => Err(gpu_tensor::too_large()),
        Some(plane) => match (gpu_tensor::size2(batch, plane), gpu_tensor::size2(batch, m)) {
            (Some(len), Some(rows)) => if k > LIMIT || lda > LIMIT || ldb > LIMIT || stride_a
                > LIMIT || stride_b > LIMIT {
                Err(gpu_tensor::too_large())
            } else if lda < m || ldb < k || stride_a < lda * k || stride_b < ldb * n || first.len
                < batch * stride_a || second.len < batch * stride_b {
                Err(gpu_tensor::too_short())
            } else {
                Ok(
                    (
                        s.push(
                            Step::BatchedGemm(
                                batched_call(
                                    first,
                                    second,
                                    batch,
                                    m,
                                    n,
                                    k,
                                    lda,
                                    ldb,
                                    stride_a,
                                    stride_b,
                                    plane,
                                ),
                            ),
                        ),
                        tensor2(s.len() as usize, len, rows, n),
                    ),
                )
            },
            _ => Err(gpu_tensor::too_large()),
        },
    }
}

/// A batch of products of matrices stored by columns, `m` by `k` and `k` by `n` each. By rows
/// what it makes is `n` by `m` each.
pub fn gemm_strided_batched_f16(
    p: &mut Program,
    first: GpuBuffer,
    second: GpuBuffer,
    batch: usize,
    m: usize,
    n: usize,
    k: usize,
    lda: usize,
    ldb: usize,
    stride_a: usize,
    stride_b: usize,
) -> (r: Result<GpuTensor, DemucsError>)
    requires
        program::program_ok(old(p)@),
        gpu_tensor::buffer_ok(old(p)@, first),
        gpu_tensor::buffer_ok(old(p)@, second),
    ensures
        elementwise::good(
            old(p)@,
            batched_steps(
                old(p)@,
                first,
                second,
                batch,
                m,
                n,
                k,
                lda,
                ldb,
                stride_a,
                stride_b,
            ),
            r,
            final(p)@,
        ),
{
    let plane: usize = match gpu_tensor::count2(m, n) {
        Some(c) => c,
        None => {
            return Err(gpu_tensor::large());
        },
    };
    let len: usize = match gpu_tensor::count2(batch, plane) {
        Some(c) => c,
        None => {
            return Err(gpu_tensor::large());
        },
    };
    let rows: usize = match gpu_tensor::count2(batch, m) {
        Some(c) => c,
        None => {
            return Err(gpu_tensor::large());
        },
    };
    if k > LIMIT || lda > LIMIT || ldb > LIMIT || stride_a > LIMIT || stride_b > LIMIT {
        return Err(gpu_tensor::large());
    }
    proof {
        lemma_bound(lda as int, k as int);
        lemma_bound(ldb as int, n as int);
        lemma_bound(batch as int, stride_a as int);
        lemma_bound(batch as int, stride_b as int);
    }
    if lda < m || ldb < k || (stride_a as u64) < lda as u64 * k as u64 || (stride_b as u64) < ldb as u64
        * n as u64 || (first.len as u64) < batch as u64 * stride_a as u64 || (second.len as u64)
        < batch as u64 * stride_b as u64 {
        return Err(gpu_tensor::short());
    }
    let g: BatchedGemmCall = batched_call(
        first,
        second,
        batch,
        m,
        n,
        k,
        lda,
        ldb,
        stride_a,
        stride_b,
        plane,
    );
    proof {
        reveal(program::batched_ok);
        assert((batch * m) * n == batch * (m * n)) by (nonlinear_arith);
    }
    let id: usize = p.push(Step::BatchedGemm(g));
    Ok(tensor2(id, len, rows, n))
}

/// Products of numbers that the device takes.
proof fn lemma_bound(a: int, b: int)
    requires
        0 <= a <= LIMIT,
        0 <= b <= LIMIT,
    ensures
        0 <= a * b <= LIMIT * LIMIT,
{
    assert(0 <= a * b <= LIMIT * LIMIT) by (nonlinear_arith)
        requires
            0 <= a <= LIMIT,
            0 <= b <= LIMIT,
    ;
}

/// The steps of [`unfold`].
pub open spec fn unfold_steps(
    s: Seq<Step>,
    kernel: Kernel,
    x: GpuBuffer,
    ints: Ints,
    rows: usize,
    patch: usize,
) -> Built<GpuTensor> {
    match gpu_tensor::size2(rows, patch) {
        None => Err(gpu_tensor::too_large()),
        Some(n) => elementwise::launched(
            s,
            launch1(kernel, x, ints, Factor::Absent, n),
            tensor2(0, n, rows, patch),
        ),
    }
}

/// Unfolds a tensor into `rows` patches.
pub fn unfold(
    p: &mut Program,
    kernel: Kernel,
    x: GpuBuffer,
    ints: Ints,
    rows: usize,
    patch: usize,
) -> (r: Result<GpuTensor, DemucsError>)
    requires
        program::program_ok(old(p)@),
        gpu_tensor::size2(rows, patch) matches Some(n) ==> program::launch_ok(
            old(p)@,
            launch1(kernel, x, ints, Factor::Absent, n),
        ),
    ensures
        elementwise::good(
            old(p)@,
            unfold_steps(old(p)@, kernel, x, ints, rows, patch),
            r,
            final(p)@,
        ),
{
    let n: usize = match gpu_tensor::count2(rows, patch) {
        Some(n) => n,
        None => {
            return Err(gpu_tensor::large());
        },
    };
    elementwise::start(p, launch1(kernel, x, ints, Factor::Absent, n), tensor2(0, n, rows, patch))
}

/// The steps of [`project`].
pub open spec fn project_steps(
    s: Seq<Step>,
    col: GpuBuffer,
    w: GpuBuffer,
    bias: GpuBuffer,
    patch: usize,
    b: usize,
    c_out: usize,
    h: usize,
    width: usize,
) -> Built<GpuTensor> {
    match gpu_tensor::size3(b, h, width) {
        None => Err(gpu_tensor::too_large()),
        Some(rows) => match gemm_steps(s, col, w, rows, c_out, patch) {
            Err(e) => Err(e),
            Ok((s, g)) => match gpu_tensor::size4(b, c_out, h, width) {
                None => Err(gpu_tensor::too_large()),
                Some(n) => if bias.len < c_out {
                    Err(gpu_tensor::too_short())
                } else {
                    elementwise::launched(
                        s,
                        launch2(
                            Kernel::Conv2dPostprocess,
                            g.data,
                            bias,
                            ints5(b, c_out, h, width, 0),
                            n,
                        ),
                        tensor4(0, n, b, c_out, h, width),
                    )
                },
            },
        },
    }
}

/// Multiplies the patches `[b * h * width, patch]` by the weights `[patch, c_out]`, adds the
/// bias, and brings the result into the order `[b, c_out, h, width]`.
pub fn project(
    p: &mut Program,
    col: GpuBuffer,
    w: GpuBuffer,
    bias: GpuBuffer,
    patch: usize,
    b: usize,
    c_out: usize,
    h: usize,
    width: usize,
) -> (r: Result<GpuTensor, DemucsError>)
    requires
        program::program_ok(old(p)@),
        gpu_tensor::buffer_ok(old(p)@, col),
        gpu_tensor::buffer_ok(old(p)@, w),
        gpu_tensor::buffer_ok(old(p)@, bias),
    ensures
        elementwise::good(
            old(p)@,
            project_steps(old(p)@, col, w, bias, patch, b, c_out, h, width),
            r,
            final(p)@,
        ),
{
    let rows: usize = match gpu_tensor::count3(b, h, width) {
        Some(n) => n,
        None => {
            return Err(gpu_tensor::large());
        },
    };
    let g: GpuTensor = gemm_f16(p, col, w, rows, c_out, patch)?;
    let n: usize = match gpu_tensor::count4(b, c_out, h, width) {
        Some(n) => n,
        None => {
            return Err(gpu_tensor::large());
        },
    };
    if bias.len < c_out {
        return Err(gpu_tensor::short());
    }
    let l: Launch = launch2(
        Kernel::Conv2dPostprocess,
        g.data,
        bias,
        ints5(b, c_out, h, width, 0),
        n,
    );
    proof {
        reveal(program::launch_ok);
    }
    elementwise::start(p, l, tensor4(0, n, b, c_out, h, width))
}

/// The steps of [`add_bias`].
pub open spec fn add_bias_steps(s: Seq<Step>, x: GpuTensor, bias: GpuBuffer) -> Built<GpuTensor> {
    if bias.len < x.d1 {
        Err(gpu_tensor::too_short())
    } else {
        elementwise::launched(
            s,
            launch2(Kernel::AddBiasInplace, x.data, bias, ints2(x.d0, x.d1), x.data.len),
            x,
        )
    }
}

/// Adds the bias to each row of `[outer, n]`.
pub fn add_bias(
    p: &mut Program,
    x: GpuTensor,
    bias: GpuBuffer,
) -> (r: Result<GpuTensor, DemucsError>)
    requires
        program::program_ok(old(p)@),
        gpu_tensor::tensor_ok(old(p)@, x),
        x.rank == 2,
        gpu_tensor::buffer_ok(old(p)@, bias),
    ensures
        elementwise::good(old(p)@, add_bias_steps(old(p)@, x, bias), r, final(p)@),
{
    if bias.len < x.d1 {
        return Err(gpu_tensor::short());
    }
    let l: Launch = launch2(Kernel::AddBiasInplace, x.data, bias, ints2(x.d0, x.d1), x.data.len);
    proof {
        reveal(program::launch_ok);
    }
    elementwise::start(p, l, x)
}

/// The steps of [`linear_with_bias`].
pub open spec fn linear_steps(s: Seq<Step>, x: GpuTensor, w: GpuWeight2D, bias: GpuBias) -> Built<
    GpuTensor,
> {
    if w.rows == 0 || x.data.len % w.rows != 0 {
        Err(
            "linear: x.numel()="@ + text::decimal_text(x.data.len as nat) + " not divisible by in="@
                + text::decimal_text(w.rows as nat),
        )
    } else {
        match gemm_steps(s, x.data, w.data, x.data.len / w.rows, w.cols, w.rows) {
            Err(e) => Err(e),
            Ok((s, g)) => add_bias_steps(s, g, bias.data),
        }
    }
}

/// Applies a linear layer to the tensor as `[outer, in]`: `[outer, out]`.
pub fn linear_with_bias(p: &mut Program, x: GpuTensor, w: &GpuWeight2D, bias: &GpuBias) -> (r: Result<
    GpuTensor,
    DemucsError,
>)
    requires
        program::program_ok(old(p)@),
        gpu_tensor::tensor_ok(old(p)@, x),
        gpu_tensor::buffer_ok(old(p)@, w.data),
        gpu_tensor::buffer_ok(old(p)@, bias.data),
    ensures
        elementwise::good(old(p)@, linear_steps(old(p)@, x, *w, *bias), r, final(p)@),
{
    if w.rows == 0 || x.data.len % w.rows != 0 {
        let m: String = text::more_number("linear: x.numel()=".to_owned(), x.numel());
        let m: String = text::more_number(text::more(m, " not divisible by in="), w.rows);
        return Err(DemucsError::Shape(m));
    }
    let g: GpuTensor = gemm_f16(p, x.data, w.data, x.data.len / w.rows, w.cols, w.rows)?;
    add_bias(p, g, bias.data)
}

} // verus!
