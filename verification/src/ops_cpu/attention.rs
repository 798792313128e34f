//! Linear layers, multi-head attention, and the transformer layers built on them.
use vstd::prelude::*;
use vstd::slice::slice_subrange;
use crate::arith;
use crate::arith::Arith;
use crate::arith::Gemm;
use crate::index;
use crate::model::CrossAttnLayer;
use crate::model::GroupNorm1;
use crate::model::LayerNorm1;
use crate::model::LayerScale;
use crate::model::MhaWeights;
use crate::model::SelfAttnLayer;
use crate::model::Weight2D;
use crate::ops_cpu::conv;
use crate::ops_cpu::elementwise;
use crate::ops_cpu::layout;
use crate::ops_cpu::norm;
use crate::ops_cpu::softmax;

verus! {

/// `out` is the product `p`, of `cols` columns, row by row, with the bias of each column
/// added.
pub open spec fn is_biased_rows<A: Arith>(
    a: &A,
    p: A::Product,
    rows: int,
    cols: int,
    bias: Seq<A::T>,
    out: Seq<A::T>,
) -> bool {
    &&& out.len() == rows * cols
    &&& forall|i: int|
        0 <= i < out.len() ==> conv::is_biased_entry(
            a,
            p,
            i / cols,
            i % cols,
            bias[i % cols],
            #[trigger] out[i],
        )
}

/// `out`, of shape `[rows, d_out]`, is `x`, of shape `[rows, d_in]`, times the transpose of
/// `w`, of shape `[d_out, d_in]`, plus `bias`.
#[verifier::opaque]
pub open spec fn is_linear<A: Arith>(
    a: &A,
    x: Seq<A::T>,
    rows: int,
    d_in: int,
    w: Seq<A::T>,
    d_out: int,
    bias: Seq<A::T>,
    out: Seq<A::T>,
) -> bool {
    exists|one: A::T, p: A::Product|
        {
            &&& #[trigger] arith::is_ratio(a, 1, 1, one)
            &&& #[trigger] arith::is_gemm(
                a,
                conv::conv_gemm(rows, d_out, d_in, false),
                x,
                w,
                one,
                p,
            )
            &&& is_biased_rows(a, p, rows, d_out, bias, out)
        }
}

/// The operands of a linear layer have the elements that it reads, and its result a size
/// that fits.
pub open spec fn linear_fits(
    x_len: int,
    rows: int,
    d_in: int,
    w_len: int,
    d_out: int,
    bias_len: int,
) -> bool {
    &&& rows <= usize::MAX
    &&& rows * d_in <= x_len
    &&& d_in * d_out <= w_len
    &&& d_out <= bias_len
    &&& rows * d_out <= usize::MAX
}

/// Multiplies each row of `x` by the transpose of `w` and adds `bias`.
fn linear_rows<A: Arith>(
    a: &A,
    x: &[A::T],
    rows: usize,
    d_in: usize,
    w: &[A::T],
    d_out: usize,
    bias: &[A::T],
) -> (r: Vec<A::T>)
    requires
        linear_fits(
            x@.len() as int,
            rows as int,
            d_in as int,
            w@.len() as int,
            d_out as int,
            bias@.len() as int,
        ),
    ensures
        r@.len() == rows * d_out,
        is_linear(a, x@, rows as int, d_in as int, w@, d_out as int, bias@, r@),
{
    let one: A::T = arith::ratio(a, 1, 1);
    let g: Gemm = Gemm {
        m: rows,
        n: d_out,
        k: d_in,
        lhs_cs: 1,
        lhs_rs: d_in,
        rhs_cs: d_in,
        rhs_rs: 1,
    };
    proof {
        conv::lemma_conv_gemm(rows as int, d_out as int, d_in as int, false);
    }
    let p: A::Product = arith::matmul(a, g, x, w, one);
    let mut out: Vec<A::T> = Vec::new();
    let total: usize = rows * d_out;
    let mut i: usize = 0;
    while i < total
        invariant
            i <= total,
            total == rows * d_out,
            d_out <= bias@.len(),
            out@.len() == i,
            forall|j: int|
                0 <= j < i ==> conv::is_biased_entry(
                    a,
                    p,
                    j / d_out as int,
                    j % d_out as int,
                    bias@[j % d_out as int],
                    #[trigger] out@[j],
                ),
        decreases total - i,
    {
        proof {
            index::lemma_unpair(i as int, rows as int, d_out as int);
        }
        let e: A::T = arith::entry(a, &p, i / d_out, i % d_out);
        let v: A::T = arith::plus(a, e, bias[i % d_out]);
        assert(conv::is_biased_entry(
            a,
            p,
            i as int / d_out as int,
            i as int % d_out as int,
            bias@[i as int % d_out as int],
            v,
        ));
        out.push(v);
        i = i + 1;
    }
    proof {
        reveal(is_linear);
        assert(is_biased_rows(a, p, rows as int, d_out as int, bias@, out@));
    }
    out
}

/// The inputs on which [`linear`] is defined.
pub open spec fn linear_ok<T>(x_len: int, s: [usize; 3], w: &Weight2D<T>, bias_len: int) -> bool {
    &&& s[2] == w.cols
    &&& linear_fits(
        x_len,
        s[0] * s[1],
        s[2] as int,
        w.data@.len() as int,
        w.rows as int,
        bias_len,
    )
}

/// Linear layer on a `[B, S, D_in]` tensor. The result is `[B, S, D_out]`.
pub fn linear<A: Arith>(
    a: &A,
    x: &[A::T],
    x_shape: [usize; 3],
    w: &Weight2D<A::T>,
    bias: &[A::T],
) -> (r: (Vec<A::T>, [usize; 3]))
    requires
        linear_ok(x@.len() as int, x_shape, w, bias@.len() as int),
    ensures
        r.1 == [x_shape[0], x_shape[1], w.rows],
        r.0@.len() == index::size3(r.1),
        is_linear(
            a,
            x@,
            x_shape[0] * x_shape[1],
            x_shape[2] as int,
            w.data@,
            w.rows as int,
            bias@,
            r.0@,
        ),
{
    let out: Vec<A::T> = linear_rows(
        a,
        x,
        x_shape[0] * x_shape[1],
        x_shape[2],
        w.data.as_slice(),
        w.rows,
        bias,
    );
    let shape: [usize; 3] = [x_shape[0], x_shape[1], w.rows];
    (out, shape)
}

/// Head `hi` of batch entry `bi` of a `[B, s, d]` tensor: the matrix `[s, dh]` of the
/// features from `hi * dh` on.
pub open spec fn head_of<T>(x: Seq<T>, s: int, d: int, dh: int, bi: int, hi: int) -> Seq<T> {
    Seq::new(
        (s * dh) as nat,
        |p: int| x[index::pos2(index::pos2(bi, p / dh, s), hi * dh + p % dh, d)],
    )
}

/// Collects one head.
fn gather_head<T: Copy>(
    x: &[T],
    b: usize,
    s: usize,
    d: usize,
    dh: usize,
    h: usize,
    bi: usize,
    hi: usize,
) -> (r: Vec<T>)
    requires
        b * s * d <= x@.len(),
        bi < b,
        hi < h,
        h * dh == d,
        d > 0,
    ensures
        r@ == head_of(x@, s as int, d as int, dh as int, bi as int, hi as int),
{
    let len: usize = x.len();
    let mut out: Vec<T> = Vec::new();
    proof {
        assert(dh <= h * dh && s * dh <= b * s * d) by (nonlinear_arith)
            requires
                h * dh == d,
                0 <= dh,
                h >= 1,
                b >= 1,
                s >= 0,
                d >= 1,
        ;
    }
    let total: usize = s * dh;
    let mut p: usize = 0;
    while p < total
        invariant
            p <= total,
            total == s * dh,
            b * s * d <= x@.len(),
            len == x@.len(),
            bi < b,
            hi < h,
            h * dh == d,
            out@.len() == p,
            forall|q: int|
                0 <= q < p ==> out@[q] == #[trigger] head_of(
                    x@,
                    s as int,
                    d as int,
                    dh as int,
                    bi as int,
                    hi as int,
                )[q],
        decreases total - p,
    {
        proof {
            index::lemma_unpair(p as int, s as int, dh as int);
        }
        let si: usize = p / dh;
        let k: usize = p % dh;
        proof {
            index::lemma_pair(hi as int, k as int, h as int, dh as int);
            index::lemma_triple(bi as int, si as int, hi * dh + k, b as int, s as int, d as int);
            index::lemma_within3(bi as int, si as int, hi * dh + k, s as int, d as int);
            index::lemma_within2(hi as int, k as int, dh as int);
        }
        out.push(x[(bi * s + si) * d + (hi * dh + k)]);
        p = p + 1;
    }
    out
}

/// `out` is the product `p`, of `cols` columns, row by row.
#[verifier::opaque]
pub open spec fn is_entries<A: Arith>(
    a: &A,
    p: A::Product,
    rows: int,
    cols: int,
    out: Seq<A::T>,
) -> bool {
    &&& out.len() == rows * cols
    &&& forall|i: int|
        0 <= i < out.len() ==> arith::is_entry(a, p, i / cols, i % cols, #[trigger] out[i])
}

/// The entries of a product, row by row.
fn entries<A: Arith>(a: &A, p: &A::Product, rows: usize, cols: usize) -> (r: Vec<A::T>)
    requires
        rows * cols <= usize::MAX,
    ensures
        r@.len() == rows * cols,
        is_entries(a, *p, rows as int, cols as int, r@),
{
    let mut out: Vec<A::T> = Vec::new();
    let total: usize = rows * cols;
    let mut i: usize = 0;
    while i < total
        invariant
            i <= total,
            total == rows * cols,
            out@.len() == i,
            forall|j: int|
                0 <= j < i ==> arith::is_entry(
                    a,
                    *p,
                    j / cols as int,
                    j % cols as int,
                    #[trigger] out@[j],
                ),
        decreases total - i,
    {
        proof {
            index::lemma_unpair(i as int, rows as int, cols as int);
        }
        let e: A::T = arith::entry(a, p, i / cols, i % cols);
        out.push(e);
        i = i + 1;
    }
    proof {
        reveal(is_entries);
    }
    out
}

/// `out` is what one head attends to: the softmax of each row of `scale` times the product
/// of the queries and the keys, times the values.
#[verifier::opaque]
pub open spec fn is_attended<A: Arith>(
    a: &A,
    q: Seq<A::T>,
    k: Seq<A::T>,
    v: Seq<A::T>,
    q_seq: int,
    kv_seq: int,
    dh: int,
    scale: A::T,
    out: Seq<A::T>,
) -> bool {
    exists|sp: A::Product, scores: Seq<A::T>, w: Seq<A::T>, one: A::T, op: A::Product|
        {
            &&& #[trigger] arith::is_gemm(
                a,
                conv::conv_gemm(q_seq, kv_seq, dh, false),
                q,
                k,
                scale,
                sp,
            )
            &&& #[trigger] is_entries(a, sp, q_seq, kv_seq, scores)
            &&& #[trigger] softmax::is_run_softmax(a, scores, kv_seq, w)
            &&& arith::is_ratio(a, 1, 1, one)
            &&& #[trigger] arith::is_gemm(
                a,
                conv::conv_gemm(q_seq, dh, kv_seq, true),
                w,
                v,
                one,
                op,
            )
            &&& is_entries(a, op, q_seq, dh, out)
        }
}

/// What one head attends to.
fn attend<A: Arith>(
    a: &A,
    q: &[A::T],
    k: &[A::T],
    v: &[A::T],
    q_seq: usize,
    kv_seq: usize,
    dh: usize,
    scale: A::T,
) -> (r: Vec<A::T>)
    requires
        kv_seq > 0,
        q@.len() == q_seq * dh,
        k@.len() == kv_seq * dh,
        v@.len() == kv_seq * dh,
        q_seq * kv_seq <= usize::MAX,
    ensures
        r@.len() == q_seq * dh,
        is_attended(
            a,
            q@,
            k@,
            v@,
            q_seq as int,
            kv_seq as int,
            dh as int,
            scale,
            r@,
        ),
{
    let len_q: usize = q.len();
    proof {
        conv::lemma_conv_gemm(q_seq as int, kv_seq as int, dh as int, false);
        assert(dh * kv_seq == kv_seq * dh) by (nonlinear_arith);
    }
    let g: Gemm = Gemm {
        m: q_seq,
        n: kv_seq,
        k: dh,
        lhs_cs: 1,
        lhs_rs: dh,
        rhs_cs: dh,
        rhs_rs: 1,
    };
    let sp: A::Product = arith::matmul(a, g, q, k, scale);
    let mut scores: Vec<A::T> = entries(a, &sp, q_seq, kv_seq);
    proof {
        vstd::arithmetic::div_mod::lemma_mod_multiples_basic(q_seq as int, kv_seq as int);
    }
    softmax::softmax_runs(a, &mut scores, kv_seq);
    let one: A::T = arith::ratio(a, 1, 1);
    proof {
        conv::lemma_conv_gemm(q_seq as int, dh as int, kv_seq as int, true);
    }
    let g2: Gemm = Gemm {
        m: q_seq,
        n: dh,
        k: kv_seq,
        lhs_cs: 1,
        lhs_rs: kv_seq,
        rhs_cs: 1,
        rhs_rs: dh,
    };
    let op: A::Product = arith::matmul(a, g2, scores.as_slice(), v, one);
    let out: Vec<A::T> = entries(a, &op, q_seq, dh);
    proof {
        reveal(is_attended);
    }
    out
}

/// `r` may be `1 / sqrt(dh)`.
pub open spec fn is_attention_scale<A: Arith>(a: &A, dh: int, r: A::T) -> bool {
    exists|n: A::T, root: A::T, one: A::T|
        {
            &&& #[trigger] arith::is_count(a, dh, n)
            &&& #[trigger] arith::is_square_root(a, n, root)
            &&& #[trigger] arith::is_ratio(a, 1, 1, one)
            &&& arith::is_quotient(a, one, root, r)
        }
}

/// The heads laid side by side: element `hi * dh + k` of position `(bi, si)` is element
/// `(si, k)` of head `hi` of batch entry `bi`.
pub open spec fn merged<T>(heads: Seq<Seq<T>>, b: int, s: int, h: int, dh: int) -> Seq<T> {
    let d = h * dh;
    Seq::new(
        (b * s * d) as nat,
        |i: int|
            heads[index::pos2(i / d / s, i % d / dh, h)][index::pos2(i / d % s, i % d % dh, dh)],
    )
}

/// The buffers of a list.
pub open spec fn buffers<T>(v: Seq<Vec<T>>) -> Seq<Seq<T>> {
    Seq::new(v.len(), |i: int| v[i]@)
}

/// Lays the heads side by side.
fn merge_heads<T: Copy>(heads: &Vec<Vec<T>>, b: usize, s: usize, h: usize, dh: usize, d: usize) -> (r: Vec<
    T,
>)
    requires
        d == h * dh,
        b * s * d <= usize::MAX,
        b * h <= usize::MAX,
        heads@.len() == b * h,
        forall|n: int| 0 <= n < heads@.len() ==> (#[trigger] heads@[n])@.len() == s * dh,
    ensures
        r@ == merged(buffers(heads@), b as int, s as int, h as int, dh as int),
{
    let mut out: Vec<T> = Vec::new();
    if d == 0 || s == 0 || b == 0 {
        assert(b * s * d == 0) by (nonlinear_arith)
            requires
                d == 0 || s == 0 || b == 0,
        ;
        return out;
    }
    proof {
        assert(b * s <= b * s * d && h >= 1 && dh >= 1 && s * dh <= b * s * d) by (nonlinear_arith)
            requires
                b >= 1,
                s >= 1,
                d >= 1,
                d == h * dh,
                h >= 0,
                dh >= 0,
        ;
    }
    let total: usize = b * s * d;
    let mut i: usize = 0;
    while i < total
        invariant
            i <= total,
            total == b * s * d,
            d == h * dh,
            d >= 1,
            s >= 1,
            dh >= 1,
            h >= 1,
            b * h <= usize::MAX,
            s * dh <= usize::MAX,
            heads@.len() == b * h,
            forall|n: int| 0 <= n < heads@.len() ==> (#[trigger] heads@[n])@.len() == s * dh,
            out@.len() == i,
            forall|q: int|
                0 <= q < i ==> out@[q] == #[trigger] merged(
                    buffers(heads@),
                    b as int,
                    s as int,
                    h as int,
                    dh as int,
                )[q],
        decreases total - i,
    {
        let c: usize = i % d;
        let si: usize = i / d % s;
        let bi: usize = i / d / s;
        let k: usize = c % dh;
        let hi: usize = c / dh;
        proof {
            index::lemma_untriple(i as int, b as int, s as int, d as int);
            index::lemma_unpair(c as int, h as int, dh as int);
            index::lemma_pair(bi as int, hi as int, b as int, h as int);
            index::lemma_within2(bi as int, hi as int, h as int);
            index::lemma_pair(si as int, k as int, s as int, dh as int);
            index::lemma_within2(si as int, k as int, dh as int);
        }
        out.push(heads[bi * h + hi][si * dh + k]);
        i = i + 1;
    }
    out
}

/// Rows `part * d .. (part + 1) * d` of a `[3 * d, d]` matrix.
pub open spec fn projection<T>(w: Seq<T>, d: int, part: int) -> Seq<T> {
    w.subrange(part * d * d, (part + 1) * d * d)
}

/// Entries `part * d .. (part + 1) * d` of a vector of length `3 * d`.
pub open spec fn projection_bias<T>(v: Seq<T>, d: int, part: int) -> Seq<T> {
    v.subrange(part * d, (part + 1) * d)
}

/// The inputs on which [`mha`] is defined.
#[verifier::opaque]
pub open spec fn mha_ok<T>(
    q_len: int,
    q_shape: [usize; 3],
    kv_len: int,
    kv_shape: [usize; 3],
    attn: &MhaWeights<T>,
) -> bool {
    let d = attn.d_model;
    &&& d > 0
    &&& attn.n_heads > 0
    &&& d % attn.n_heads == 0
    &&& q_shape[2] == d
    &&& kv_shape[2] == d
    &&& kv_shape[1] > 0
    &&& q_shape[0] <= kv_shape[0]
    &&& index::size3(q_shape) <= q_len <= usize::MAX
    &&& index::size3(kv_shape) <= kv_len <= usize::MAX
    &&& q_shape[1] * kv_shape[1] <= usize::MAX
    &&& 3 * d * d <= attn.in_proj_weight@.len() <= usize::MAX
    &&& 3 * d <= attn.in_proj_bias@.len()
    &&& d * d <= attn.out_proj_weight@.len()
    &&& d <= attn.out_proj_bias@.len()
}

/// `q` is the projection of `x`, of shape `s`, by rows `part * d .. (part + 1) * d` of the
/// packed weights.
pub open spec fn is_projected<A: Arith>(
    a: &A,
    x: Seq<A::T>,
    s: [usize; 3],
    attn: &MhaWeights<A::T>,
    part: int,
    q: Seq<A::T>,
) -> bool {
    let d = attn.d_model as int;
    is_linear(
        a,
        x,
        s[0] * s[1],
        d,
        projection(attn.in_proj_weight@, d, part),
        d,
        projection_bias(attn.in_proj_bias@, d, part),
        q,
    )
}

/// `heads` are the heads of all batch entries, in the order of the batch.
#[verifier::opaque]
pub open spec fn are_heads<A: Arith>(
    a: &A,
    q: Seq<A::T>,
    k: Seq<A::T>,
    v: Seq<A::T>,
    b: int,
    q_seq: int,
    kv_seq: int,
    h: int,
    dh: int,
    scale: A::T,
    heads: Seq<Seq<A::T>>,
) -> bool {
    &&& heads.len() == b * h
    &&& forall|n: int|
        0 <= n < heads.len() ==> is_attended(
            a,
            head_of(q, q_seq, h * dh, dh, n / h, n % h),
            head_of(k, kv_seq, h * dh, dh, n / h, n % h),
            head_of(v, kv_seq, h * dh, dh, n / h, n % h),
            q_seq,
            kv_seq,
            dh,
            scale,
            #[trigger] heads[n],
        )
}

/// `out` is the result of [`mha`].
#[verifier::opaque]
pub open spec fn is_mha<A: Arith>(
    a: &A,
    q_in: Seq<A::T>,
    q_shape: [usize; 3],
    kv_in: Seq<A::T>,
    kv_shape: [usize; 3],
    attn: &MhaWeights<A::T>,
    out: Seq<A::T>,
) -> bool {
    let d = attn.d_model as int;
    let h = attn.n_heads as int;
    let dh = d / h;
    exists|q: Seq<A::T>, k: Seq<A::T>, v: Seq<A::T>, scale: A::T, heads: Seq<Seq<A::T>>|
        {
            &&& #[trigger] is_projected(a, q_in, q_shape, attn, 0, q)
            &&& #[trigger] is_projected(a, kv_in, kv_shape, attn, 1, k)
            &&& #[trigger] is_projected(a, kv_in, kv_shape, attn, 2, v)
            &&& #[trigger] is_attention_scale(a, dh, scale)
            &&& #[trigger] are_heads(
                a,
                q,
                k,
                v,
                q_shape[0] as int,
                q_shape[1] as int,
                kv_shape[1] as int,
                h,
                dh,
                scale,
                heads,
            )
            &&& is_linear(
                a,
                merged(heads, q_shape[0] as int, q_shape[1] as int, h, dh),
                q_shape[0] * q_shape[1],
                d,
                attn.out_proj_weight@,
                d,
                attn.out_proj_bias@,
                out,
            )
        }
}

/// Applies one of the three packed projections.
fn project<A: Arith>(a: &A, x: &[A::T], s: [usize; 3], attn: &MhaWeights<A::T>, part: usize) -> (r: Vec<
    A::T,
>)
    requires
        part < 3,
        attn.d_model > 0,
        s[2] == attn.d_model,
        index::size3(s) <= x@.len() <= usize::MAX,
        3 * attn.d_model * attn.d_model <= attn.in_proj_weight@.len() <= usize::MAX,
        3 * attn.d_model <= attn.in_proj_bias@.len(),
    ensures
        r@.len() == index::size3(s),
        is_projected(a, x@, s, attn, part as int, r@),
{
    let d: usize = attn.d_model;
    proof {
        assert(0 <= part * d * d && part * d * d <= (part + 1) * d * d && (part + 1) * d * d <= 3 * d
            * d && 0 <= part * d && part * d <= (part + 1) * d && (part + 1) * d <= 3 * d && (part + 1)
            * d <= (part + 1) * d * d && (part + 1) * d * d - part * d * d == d * d && (part + 1) * d
            - part * d == d) by (nonlinear_arith)
            requires
                0 <= part < 3,
                d >= 1,
        ;
        index::lemma_extent(s[0] as int, s[1] as int);
        index::lemma_partial_extent(s[0] * s[1], d as int, usize::MAX as int);
    }
    let w: &[A::T] = slice_subrange(
        attn.in_proj_weight.as_slice(),
        part * d * d,
        (part + 1) * d * d,
    );
    let b: &[A::T] = slice_subrange(attn.in_proj_bias.as_slice(), part * d, (part + 1) * d);
    linear_rows(a, x, s[0] * s[1], d, w, d, b)
}

/// The heads of all batch entries, in the order of the batch.
fn all_heads<A: Arith>(
    a: &A,
    q: &[A::T],
    k: &[A::T],
    v: &[A::T],
    b: usize,
    kb: usize,
    q_seq: usize,
    kv_seq: usize,
    h: usize,
    dh: usize,
    d: usize,
    scale: A::T,
) -> (r: Vec<Vec<A::T>>)
    requires
        d == h * dh,
        d > 0,
        h > 0,
        kv_seq > 0,
        b <= kb,
        b * q_seq * d <= q@.len(),
        kb * kv_seq * d <= k@.len(),
        kb * kv_seq * d <= v@.len(),
        q_seq * kv_seq <= usize::MAX,
        b * h <= usize::MAX,
    ensures
        r@.len() == b * h,
        forall|n: int| 0 <= n < r@.len() ==> (#[trigger] r@[n])@.len() == q_seq * dh,
        are_heads(
            a,
            q@,
            k@,
            v@,
            b as int,
            q_seq as int,
            kv_seq as int,
            h as int,
            dh as int,
            scale,
            buffers(r@),
        ),
{
    let total: usize = b * h;
    let mut heads: Vec<Vec<A::T>> = Vec::new();
    let mut n: usize = 0;
    while n < total
        invariant
            n <= total,
            total == b * h,
            d == h * dh,
            d > 0,
            h > 0,
            kv_seq > 0,
            b <= kb,
            b * q_seq * d <= q@.len(),
            kb * kv_seq * d <= k@.len(),
            kb * kv_seq * d <= v@.len(),
            q_seq * kv_seq <= usize::MAX,
            heads@.len() == n,
            forall|i: int| 0 <= i < n ==> (#[trigger] heads@[i])@.len() == q_seq * dh,
            forall|i: int|
                0 <= i < n ==> is_attended(
                    a,
                    head_of(q@, q_seq as int, h * dh, dh as int, i / h as int, i % h as int),
                    head_of(k@, kv_seq as int, h * dh, dh as int, i / h as int, i % h as int),
                    head_of(v@, kv_seq as int, h * dh, dh as int, i / h as int, i % h as int),
                    q_seq as int,
                    kv_seq as int,
                    dh as int,
                    scale,
                    (#[trigger] heads@[i])@,
                ),
        decreases total - n,
    {
        proof {
            index::lemma_unpair(n as int, b as int, h as int);
            index::lemma_extent(q_seq as int, dh as int);
            index::lemma_extent(kv_seq as int, dh as int);
        }
        let bi: usize = n / h;
        let hi: usize = n % h;
        let q_head: Vec<A::T> = gather_head(q, b, q_seq, d, dh, h, bi, hi);
        let k_head: Vec<A::T> = gather_head(k, kb, kv_seq, d, dh, h, bi, hi);
        let v_head: Vec<A::T> = gather_head(v, kb, kv_seq, d, dh, h, bi, hi);
        let out: Vec<A::T> = attend(a, &q_head, &k_head, &v_head, q_seq, kv_seq, dh, scale);
        heads.push(out);
        n = n + 1;
    }
    proof {
        reveal(are_heads);
    }
    heads
}

/// Multi-head attention with queries from `q_in` and keys and values from `kv_in`, both
/// `[B, S, D]`. The result is `[B, q_seq, D]`.
pub fn mha<A: Arith>(
    a: &A,
    q_in: &[A::T],
    q_shape: [usize; 3],
    kv_in: &[A::T],
    kv_shape: [usize; 3],
    attn: &MhaWeights<A::T>,
) -> (r: (Vec<A::T>, [usize; 3]))
    requires
        mha_ok(q_in@.len() as int, q_shape, kv_in@.len() as int, kv_shape, attn),
    ensures
        r.1 == q_shape,
        r.0@.len() == index::size3(q_shape),
        is_mha(a, q_in@, q_shape, kv_in@, kv_shape, attn, r.0@),
{
    proof {
        reveal(mha_ok);
        reveal(is_mha);
    }
    let d: usize = attn.d_model;
    let h: usize = attn.n_heads;
    let dh: usize = d / h;
    let b: usize = q_shape[0];
    let q_seq: usize = q_shape[1];
    let kv_seq: usize = kv_shape[1];
    let q: Vec<A::T> = project(a, q_in, q_shape, attn, 0);
    let k: Vec<A::T> = project(a, kv_in, kv_shape, attn, 1);
    let v: Vec<A::T> = project(a, kv_in, kv_shape, attn, 2);
    let n: A::T = arith::count(a, dh);
    let root: A::T = arith::square_root(a, n);
    let one: A::T = arith::ratio(a, 1, 1);
    let scale: A::T = arith::over(a, one, root);
    assert(is_attention_scale(a, dh as int, scale));
    proof {
        vstd::arithmetic::div_mod::lemma_fundamental_div_mod(d as int, h as int);
        if h > d {
            vstd::arithmetic::div_mod::lemma_small_mod(d as nat, h as nat);
        }
        assert(b * h <= kv_shape[0] * kv_seq * d) by (nonlinear_arith)
            requires
                b <= kv_shape[0],
                1 <= h <= d,
                kv_seq >= 1,
                b >= 0,
        ;
        index::lemma_extent(b as int, q_seq as int);
        index::lemma_partial_extent(b * q_seq, d as int, usize::MAX as int);
    }
    let heads: Vec<Vec<A::T>> = all_heads(
        a,
        &q,
        &k,
        &v,
        b,
        kv_shape[0],
        q_seq,
        kv_seq,
        h,
        dh,
        d,
        scale,
    );
    let ctx: Vec<A::T> = merge_heads(&heads, b, q_seq, h, dh, d);
    let out: Vec<A::T> = linear_rows(
        a,
        &ctx,
        b * q_seq,
        d,
        attn.out_proj_weight.as_slice(),
        d,
        attn.out_proj_bias.as_slice(),
    );
    (out, q_shape)
}

/// Multi-head attention of a sequence to itself.
pub fn mha_self<A: Arith>(a: &A, x: &[A::T], shape: [usize; 3], attn: &MhaWeights<A::T>) -> (r: (
    Vec<A::T>,
    [usize; 3],
))
    requires
        mha_ok(x@.len() as int, shape, x@.len() as int, shape, attn),
    ensures
        r.1 == shape,
        r.0@.len() == index::size3(shape),
        is_mha(a, x@, shape, x@, shape, attn, r.0@),
{
    mha(a, x, shape, x, shape, attn)
}

/// The parameters of a layer normalization are there for `d` features.
pub open spec fn layernorm_fits<T>(ln: &LayerNorm1<T>, d: usize) -> bool {
    &&& ln.dim == d
    &&& d <= ln.gamma@.len()
    &&& d <= ln.beta@.len()
}

/// `out` is `x` with each position of `d` features normalized.
pub open spec fn is_layernorm<A: Arith>(
    a: &A,
    x: Seq<A::T>,
    ln: &LayerNorm1<A::T>,
    d: int,
    out: Seq<A::T>,
) -> bool {
    norm::is_run_normalized(a, x, d, 1, ln.gamma@, ln.beta@, out)
}

/// `out` is `x + gamma * y`, `gamma` having an entry for each of `d` features.
pub open spec fn is_scaled_residual<A: Arith>(
    a: &A,
    x: Seq<A::T>,
    gamma: &LayerScale<A::T>,
    d: int,
    y: Seq<A::T>,
    out: Seq<A::T>,
) -> bool {
    exists|sc: Seq<A::T>| #[trigger]
        elementwise::is_scaled(a, y, d, 1, gamma.scale@, sc) && elementwise::is_added(a, x, sc, out)
}

/// `out` is `linear2(gelu(linear1(x)))`.
#[verifier::opaque]
pub open spec fn is_feed_forward<A: Arith>(
    a: &A,
    x: Seq<A::T>,
    rows: int,
    w1: &Weight2D<A::T>,
    b1: Seq<A::T>,
    w2: &Weight2D<A::T>,
    b2: Seq<A::T>,
    out: Seq<A::T>,
) -> bool {
    exists|h: Seq<A::T>, g: Seq<A::T>|
        {
            &&& #[trigger] is_linear(a, x, rows, w1.cols as int, w1.data@, w1.rows as int, b1, h)
            &&& #[trigger] elementwise::is_gelu(a, h, g)
            &&& is_linear(a, g, rows, w2.cols as int, w2.data@, w2.rows as int, b2, out)
        }
}

/// `out` is `x`, of shape `s`, with each batch entry normalized over positions and features
/// together.
#[verifier::opaque]
pub open spec fn is_norm_out<A: Arith>(
    a: &A,
    x: Seq<A::T>,
    s: [usize; 3],
    gn: &GroupNorm1<A::T>,
    out: Seq<A::T>,
) -> bool {
    exists|y: Seq<A::T>| #[trigger]
        norm::is_run_normalized(
            a,
            layout::swapped(x, s[0] as int, s[1] as int, s[2] as int, 1),
            s[2] as int,
            s[1] as int,
            gn.gamma@,
            gn.beta@,
            y,
        ) && out == layout::swapped(y, s[0] as int, s[2] as int, s[1] as int, 1)
}

/// The second half of a transformer layer is defined: the feed-forward maps have fitting
/// sizes, and the parameters are there for each feature.
#[verifier::opaque]
pub open spec fn ffn_ok<T>(
    s: [usize; 3],
    ln: &LayerNorm1<T>,
    w1: &Weight2D<T>,
    b1: Seq<T>,
    w2: &Weight2D<T>,
    b2: Seq<T>,
    gamma: &LayerScale<T>,
    gn: &GroupNorm1<T>,
) -> bool {
    &&& s[1] > 0
    &&& s[2] > 0
    &&& s[1] * s[2] <= usize::MAX
    &&& layernorm_fits(ln, s[2])
    &&& linear_ok(index::size3(s), s, w1, b1.len() as int)
    &&& linear_ok(
        index::size3([s[0], s[1], w1.rows]),
        [s[0], s[1], w1.rows],
        w2,
        b2.len() as int,
    )
    &&& w2.rows == s[2]
    &&& s[2] <= gamma.scale@.len()
    &&& s[2] <= gn.gamma@.len()
    &&& s[2] <= gn.beta@.len()
}

/// `out` is the second half of a transformer layer on `x`: the feed-forward residual and the
/// last normalization.
#[verifier::opaque]
pub open spec fn is_ffn<A: Arith>(
    a: &A,
    x: Seq<A::T>,
    s: [usize; 3],
    ln: &LayerNorm1<A::T>,
    w1: &Weight2D<A::T>,
    b1: Seq<A::T>,
    w2: &Weight2D<A::T>,
    b2: Seq<A::T>,
    gamma: &LayerScale<A::T>,
    gn: &GroupNorm1<A::T>,
    out: Seq<A::T>,
) -> bool {
    exists|n: Seq<A::T>, f: Seq<A::T>, y: Seq<A::T>|
        {
            &&& #[trigger] is_layernorm(a, x, ln, s[2] as int, n)
            &&& #[trigger] is_feed_forward(a, n, s[0] * s[1], w1, b1, w2, b2, f)
            &&& #[trigger] is_scaled_residual(a, x, gamma, s[2] as int, f, y)
            &&& is_norm_out(a, y, s, gn, out)
        }
}

/// Normalizes each batch entry of a `[B, S, D]` tensor over positions and features together.
fn norm_out<A: Arith>(a: &A, x: &[A::T], s: [usize; 3], gn: &GroupNorm1<A::T>) -> (r: Vec<A::T>)
    requires
        x@.len() == index::size3(s),
        s[1] > 0,
        s[2] > 0,
        s[1] * s[2] <= usize::MAX,
        s[2] <= gn.gamma@.len(),
        s[2] <= gn.beta@.len(),
    ensures
        r@.len() == index::size3(s),
        is_norm_out(a, x@, s, gn, r@),
{
    let mut lanes: Vec<A::T> = layout::swap_middle(x, s[0], s[1], s[2], 1);
    let shape: [usize; 3] = [s[0], s[2], s[1]];
    proof {
        index::lemma_runs(s[0] as int, s[2] as int, s[1] as int);
        index::lemma_swap_extent(s[0] as int, s[1] as int, s[2] as int, 1);
        assert(s[2] * s[1] == s[1] * s[2]) by (nonlinear_arith);
    }
    norm::groupnorm1(a, &mut lanes, shape, gn);
    let out: Vec<A::T> = layout::swap_middle(&lanes, s[0], s[2], s[1], 1);
    proof {
        index::lemma_extent(s[0] as int, s[1] as int);
        index::lemma_extent(s[0] * s[1], s[2] as int);
        reveal(is_norm_out);
    }
    out
}

/// Adds `gamma * y` to `x`.
fn add_scaled<A: Arith>(a: &A, x: &[A::T], gamma: &LayerScale<A::T>, s: [usize; 3], y: Vec<A::T>) -> (r: Vec<
    A::T,
>)
    requires
        x@.len() == index::size3(s),
        y@.len() == x@.len(),
        s[2] > 0,
        s[2] <= gamma.scale@.len(),
    ensures
        r@.len() == x@.len(),
        is_scaled_residual(a, x@, gamma, s[2] as int, y@, r@),
{
    let mut scaled: Vec<A::T> = y;
    proof {
        vstd::arithmetic::div_mod::lemma_mod_multiples_basic(s[0] * s[1], s[2] as int);
    }
    elementwise::layer_scale_last(a, &mut scaled, s, gamma);
    let mut out: Vec<A::T> = layout::to_vec(x);
    elementwise::add_to(a, &mut out, &scaled);
    out
}

/// The second half of a transformer layer.
fn ffn<A: Arith>(
    a: &A,
    x: &[A::T],
    s: [usize; 3],
    ln: &LayerNorm1<A::T>,
    w1: &Weight2D<A::T>,
    b1: &[A::T],
    w2: &Weight2D<A::T>,
    b2: &[A::T],
    gamma: &LayerScale<A::T>,
    gn: &GroupNorm1<A::T>,
) -> (r: Vec<A::T>)
    requires
        x@.len() == index::size3(s),
        ffn_ok(s, ln, w1, b1@, w2, b2@, gamma, gn),
    ensures
        r@.len() == index::size3(s),
        is_ffn(a, x@, s, ln, w1, b1@, w2, b2@, gamma, gn, r@),
{
    proof {
        reveal(ffn_ok);
        vstd::arithmetic::div_mod::lemma_mod_multiples_basic(s[0] * s[1], s[2] as int);
    }
    let mut n: Vec<A::T> = layout::to_vec(x);
    norm::layernorm(a, &mut n, s, ln);
    let (mut h, h_shape) = linear(a, &n, s, w1, b1);
    elementwise::gelu(a, &mut h);
    let (f, _) = linear(a, &h, h_shape, w2, b2);
    let ghost forward = f@;
    let y: Vec<A::T> = add_scaled(a, x, gamma, s, f);
    let out: Vec<A::T> = norm_out(a, &y, s, gn);
    proof {
        assert(is_feed_forward(a, n@, s[0] * s[1], w1, b1@, w2, b2@, forward)) by {
            reveal(is_feed_forward);
        }
        reveal(is_ffn);
        assert(is_layernorm(a, x@, ln, s[2] as int, n@));
    }
    out
}

/// The inputs on which [`self_attn_layer_forward`] is defined.
#[verifier::opaque]
pub open spec fn self_attn_ok<T>(s: [usize; 3], layer: &SelfAttnLayer<T>) -> bool {
    &&& layernorm_fits(&layer.norm1, s[2])
    &&& mha_ok(index::size3(s), s, index::size3(s), s, &layer.attn)
    &&& s[2] <= layer.gamma_1.scale@.len()
    &&& ffn_ok(
        s,
        &layer.norm2,
        &layer.linear1,
        layer.linear1_bias@,
        &layer.linear2,
        layer.linear2_bias@,
        &layer.gamma_2,
        &layer.norm_out,
    )
}

/// `out` is the result of [`self_attn_layer_forward`].
#[verifier::opaque]
pub open spec fn is_self_attn<A: Arith>(
    a: &A,
    x: Seq<A::T>,
    s: [usize; 3],
    layer: &SelfAttnLayer<A::T>,
    out: Seq<A::T>,
) -> bool {
    exists|n: Seq<A::T>, m: Seq<A::T>, y: Seq<A::T>|
        {
            &&& #[trigger] is_layernorm(a, x, &layer.norm1, s[2] as int, n)
            &&& #[trigger] is_mha(a, n, s, n, s, &layer.attn, m)
            &&& #[trigger] is_scaled_residual(a, x, &layer.gamma_1, s[2] as int, m, y)
            &&& is_ffn(
                a,
                y,
                s,
                &layer.norm2,
                &layer.linear1,
                layer.linear1_bias@,
                &layer.linear2,
                layer.linear2_bias@,
                &layer.gamma_2,
                &layer.norm_out,
                out,
            )
        }
}

/// Transformer layer of self-attention on a `[B, S, D]` tensor.
pub fn self_attn_layer_forward<A: Arith>(
    a: &A,
    x: &[A::T],
    shape: [usize; 3],
    layer: &SelfAttnLayer<A::T>,
) -> (r: (Vec<A::T>, [usize; 3]))
    requires
        x@.len() == index::size3(shape),
        self_attn_ok(shape, layer),
    ensures
        r.1 == shape,
        r.0@.len() == index::size3(shape),
        is_self_attn(a, x@, shape, layer, r.0@),
{
    proof {
        reveal(self_attn_ok);
        assert(shape[2] > 0) by {
            reveal(ffn_ok);
        }
        vstd::arithmetic::div_mod::lemma_mod_multiples_basic(
            shape[0] * shape[1],
            shape[2] as int,
        );
    }
    let mut n: Vec<A::T> = layout::to_vec(x);
    norm::layernorm(a, &mut n, shape, &layer.norm1);
    let (m, _) = mha_self(a, &n, shape, &layer.attn);
    let y: Vec<A::T> = add_scaled(a, x, &layer.gamma_1, shape, m);
    let out: Vec<A::T> = ffn(
        a,
        &y,
        shape,
        &layer.norm2,
        &layer.linear1,
        &layer.linear1_bias,
        &layer.linear2,
        &layer.linear2_bias,
        &layer.gamma_2,
        &layer.norm_out,
    );
    proof {
        reveal(is_self_attn);
        assert(is_layernorm(a, x@, &layer.norm1, shape[2] as int, n@));
    }
    (out, shape)
}

/// The inputs on which [`cross_attn_layer_forward`] is defined.
#[verifier::opaque]
pub open spec fn cross_attn_ok<T>(
    q_shape: [usize; 3],
    c_shape: [usize; 3],
    layer: &CrossAttnLayer<T>,
) -> bool {
    &&& layernorm_fits(&layer.norm1, q_shape[2])
    &&& layernorm_fits(&layer.norm2, c_shape[2])
    &&& mha_ok(
        index::size3(q_shape),
        q_shape,
        index::size3(c_shape),
        c_shape,
        &layer.attn,
    )
    &&& q_shape[2] <= layer.gamma_1.scale@.len()
    &&& ffn_ok(
        q_shape,
        &layer.norm3,
        &layer.linear1,
        layer.linear1_bias@,
        &layer.linear2,
        layer.linear2_bias@,
        &layer.gamma_2,
        &layer.norm_out,
    )
}

/// `out` is the result of [`cross_attn_layer_forward`].
#[verifier::opaque]
pub open spec fn is_cross_attn<A: Arith>(
    a: &A,
    query: Seq<A::T>,
    q_shape: [usize; 3],
    cross: Seq<A::T>,
    c_shape: [usize; 3],
    layer: &CrossAttnLayer<A::T>,
    out: Seq<A::T>,
) -> bool {
    exists|nq: Seq<A::T>, nc: Seq<A::T>, m: Seq<A::T>, y: Seq<A::T>|
        {
            &&& #[trigger] is_layernorm(a, query, &layer.norm1, q_shape[2] as int, nq)
            &&& #[trigger] is_layernorm(a, cross, &layer.norm2, c_shape[2] as int, nc)
            &&& #[trigger] is_mha(a, nq, q_shape, nc, c_shape, &layer.attn, m)
            &&& #[trigger] is_scaled_residual(a, query, &layer.gamma_1, q_shape[2] as int, m, y)
            &&& is_ffn(
                a,
                y,
                q_shape,
                &layer.norm3,
                &layer.linear1,
                layer.linear1_bias@,
                &layer.linear2,
                layer.linear2_bias@,
                &layer.gamma_2,
                &layer.norm_out,
                out,
            )
        }
}

/// Transformer layer of cross-attention: `query`, of shape `[B, S, D]`, attends to `cross`.
pub fn cross_attn_layer_forward<A: Arith>(
    a: &A,
    query: &[A::T],
    q_shape: [usize; 3],
    cross: &[A::T],
    c_shape: [usize; 3],
    layer: &CrossAttnLayer<A::T>,
) -> (r: (Vec<A::T>, [usize; 3]))
    requires
        query@.len() == index::size3(q_shape),
        cross@.len() == index::size3(c_shape),
        cross_attn_ok(q_shape, c_shape, layer),
    ensures
        r.1 == q_shape,
        r.0@.len() == index::size3(q_shape),
        is_cross_attn(a, query@, q_shape, cross@, c_shape, layer, r.0@),
{
    proof {
        reveal(cross_attn_ok);
        assert(q_shape[2] > 0 && c_shape[2] == q_shape[2]) by {
            reveal(mha_ok);
        }
        vstd::arithmetic::div_mod::lemma_mod_multiples_basic(
            q_shape[0] * q_shape[1],
            q_shape[2] as int,
        );
        vstd::arithmetic::div_mod::lemma_mod_multiples_basic(
            c_shape[0] * c_shape[1],
            c_shape[2] as int,
        );
    }
    let mut nq: Vec<A::T> = layout::to_vec(query);
    norm::layernorm(a, &mut nq, q_shape, &layer.norm1);
    let mut nc: Vec<A::T> = layout::to_vec(cross);
    norm::layernorm(a, &mut nc, c_shape, &layer.norm2);
    let (m, _) = mha(a, &nq, q_shape, &nc, c_shape, &layer.attn);
    let y: Vec<A::T> = add_scaled(a, query, &layer.gamma_1, q_shape, m);
    let out: Vec<A::T> = ffn(
        a,
        &y,
        q_shape,
        &layer.norm3,
        &layer.linear1,
        &layer.linear1_bias,
        &layer.linear2,
        &layer.linear2_bias,
        &layer.gamma_2,
        &layer.norm_out,
    );
    proof {
        reveal(is_cross_attn);
        assert(is_layernorm(a, query@, &layer.norm1, q_shape[2] as int, nq@));
        assert(is_layernorm(a, cross@, &layer.norm2, c_shape[2] as int, nc@));
    }
    (out, q_shape)
}

} // verus!
