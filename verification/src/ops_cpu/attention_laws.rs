//! What attention computes, without rounding.
use vstd::prelude::*;
use crate::arith;
use crate::arith::Arith;
use crate::exact;
use crate::index;
use crate::model::MhaWeights;
use crate::ops_cpu::attention;
use crate::ops_cpu::conv;
use crate::ops_cpu::operator_laws;
use crate::ops_cpu::softmax;

verus! {

/// Row `r` of a matrix `x` with `n` columns, against row `j` of a matrix `w` with as many.
pub open spec fn row_product<T>(
    val: spec_fn(T) -> real,
    x: Seq<T>,
    w: Seq<T>,
    n: int,
    r: int,
    j: int,
) -> real {
    exact::total(n, |t: int| val(x[r * n + t]) * val(w[j * n + t]))
}

/// One times a number is the number.
proof fn lemma_one<A: Arith>(a: &A, val: spec_fn(A::T) -> real, one: A::T, x: real)
    requires
        exact::is_exact(a, val),
        arith::is_ratio(a, 1, 1, one),
    ensures
        val(one) * x == x,
{
    assert((1 as real) / (1 as real) == 1 as real) by (nonlinear_arith);
    assert((1 as real) * x == x) by (nonlinear_arith);
}

/// A linear map takes each row of the input against each row of the matrix, and adds the bias.
pub proof fn linear_maps_rows<A: Arith>(
    a: &A,
    val: spec_fn(A::T) -> real,
    x: Seq<A::T>,
    rows: int,
    d_in: int,
    w: Seq<A::T>,
    d_out: int,
    bias: Seq<A::T>,
    out: Seq<A::T>,
    r: int,
    j: int,
)
    requires
        exact::is_exact(a, val),
        exact::is_exact_gemm(a, val),
        attention::is_linear(a, x, rows, d_in, w, d_out, bias, out),
        rows <= usize::MAX,
        0 <= d_in <= usize::MAX,
        d_out <= usize::MAX,
        0 <= r < rows,
        0 <= j < d_out,
    ensures
        out.len() == rows * d_out,
        val(out[r * d_out + j]) == row_product(val, x, w, d_in, r, j) + val(bias[j]),
{
    reveal(attention::is_linear);
    let g = conv::conv_gemm(rows, d_out, d_in, false);
    let (one, p) = choose|one: A::T, p: A::Product|
        {
            &&& #[trigger] arith::is_ratio(a, 1, 1, one)
            &&& #[trigger] arith::is_gemm(a, g, x, w, one, p)
            &&& attention::is_biased_rows(a, p, rows, d_out, bias, out)
        };
    index::lemma_pair(r, j, rows, d_out);
    let y = out[r * d_out + j];
    assert(conv::is_biased_entry(a, p, r, j, bias[j], y));
    let e = choose|e: A::T| #[trigger]
        arith::is_entry(a, p, r, j, e) && arith::is_sum(a, e, bias[j], y);
    let f = |t: int| val(x[r * g.lhs_rs + t * g.lhs_cs]) * val(w[t * g.rhs_rs + j * g.rhs_cs]);
    let h = |t: int| val(x[r * d_in + t]) * val(w[j * d_in + t]);
    assert forall|t: int| 0 <= t < d_in implies #[trigger] f(t) == h(t) by {
        assert(t * 1 == t);
    }
    exact::total_same(d_in, f, h);
    exact::total_same(d_in, h, |t: int| val(x[r * d_in + t]) * val(w[j * d_in + t]));
    lemma_one(a, val, one, exact::total(d_in, f));
    assert(val(e) == val(one) * exact::total(g.k as int, f));
}

/// The entries `i * n` to `i * n + n - 1` of `w` are the shares of `n` scores: they are positive,
/// make one together, and are to each other as the exponentials of the scores.
pub open spec fn are_shares<T>(
    val: spec_fn(T) -> real,
    ex: spec_fn(real) -> real,
    w: Seq<T>,
    n: int,
    i: int,
    score: spec_fn(int) -> real,
) -> bool {
    &&& exact::total(n, |j: int| val(w[i * n + j])) == 1 as real
    &&& forall|j: int| 0 <= j < n ==> val(#[trigger] w[i * n + j]) > 0 as real
    &&& forall|j: int, k: int|
        0 <= j < n && 0 <= k < n ==> val(#[trigger] w[i * n + j]) * ex(score(k)) == val(
            #[trigger] w[i * n + k],
        ) * ex(score(j))
}

/// How well key `j` answers to query `i`: their inner product, scaled.
pub open spec fn score<T>(
    val: spec_fn(T) -> real,
    q: Seq<T>,
    k: Seq<T>,
    dh: int,
    scale: T,
    i: int,
    j: int,
) -> real {
    val(scale) * row_product(val, q, k, dh, i, j)
}

/// The shares in which query `i` is answered, one for each key.
pub open spec fn is_answered<T>(
    val: spec_fn(T) -> real,
    ex: spec_fn(real) -> real,
    w: Seq<T>,
    kv_seq: int,
    q: Seq<T>,
    k: Seq<T>,
    dh: int,
    scale: T,
    i: int,
) -> bool {
    are_shares(val, ex, w, kv_seq, i, |j: int| score(val, q, k, dh, scale, i, j))
}

/// One head of attention: what a query is given is the mean of the values, each by its share, and
/// the shares are those of the scores of the keys.
pub proof fn attention_is_a_mean<A: Arith>(
    a: &A,
    val: spec_fn(A::T) -> real,
    ex: spec_fn(real) -> real,
    lg: spec_fn(real) -> real,
    q: Seq<A::T>,
    k: Seq<A::T>,
    v: Seq<A::T>,
    q_seq: int,
    kv_seq: int,
    dh: int,
    scale: A::T,
    out: Seq<A::T>,
) -> (w: Seq<A::T>)
    requires
        exact::is_exact(a, val),
        exact::is_exact_gemm(a, val),
        exact::is_exact_exponential(a, val, ex, lg),
        0 <= q_seq <= usize::MAX,
        0 < kv_seq <= usize::MAX,
        0 <= dh <= usize::MAX,
        attention::is_attended(a, q, k, v, q_seq, kv_seq, dh, scale, out),
    ensures
        out.len() == q_seq * dh,
        forall|i: int|
            0 <= i < q_seq ==> #[trigger] is_answered(val, ex, w, kv_seq, q, k, dh, scale, i),
        forall|i: int, c: int|
            0 <= i < q_seq && 0 <= c < dh ==> val(#[trigger] out[i * dh + c]) == exact::total(
                kv_seq,
                |j: int| val(w[i * kv_seq + j]) * val(v[j * dh + c]),
            ),
{
    reveal(attention::is_attended);
    reveal(attention::is_entries);
    let g = conv::conv_gemm(q_seq, kv_seq, dh, false);
    let h = conv::conv_gemm(q_seq, dh, kv_seq, true);
    let (sp, scores, w, one, op) = choose|
        sp: A::Product,
        scores: Seq<A::T>,
        w: Seq<A::T>,
        one: A::T,
        op: A::Product,
    |
        {
            &&& #[trigger] arith::is_gemm(a, g, q, k, scale, sp)
            &&& #[trigger] attention::is_entries(a, sp, q_seq, kv_seq, scores)
            &&& #[trigger] softmax::is_run_softmax(a, scores, kv_seq, w)
            &&& arith::is_ratio(a, 1, 1, one)
            &&& #[trigger] arith::is_gemm(a, h, w, v, one, op)
            &&& attention::is_entries(a, op, q_seq, dh, out)
        };
    assert forall|i: int| 0 <= i < q_seq implies #[trigger] is_answered(val, ex, w, kv_seq, q, k, dh, scale, i) by {
        let s = |j: int| score(val, q, k, dh, scale, i, j);
        assert(scores.len() as int / kv_seq == q_seq) by {
            vstd::arithmetic::div_mod::lemma_div_multiples_vanish(q_seq, kv_seq);
            assert(kv_seq * q_seq == q_seq * kv_seq) by (nonlinear_arith);
        }
        operator_laws::softmax_gives_shares(a, val, ex, lg, scores, kv_seq, w, i);
        assert forall|j: int| 0 <= j < kv_seq implies val(#[trigger] scores[i * kv_seq + j]) == s(
            j,
        ) by {
            index::lemma_pair(i, j, q_seq, kv_seq);
            let y = scores[i * kv_seq + j];
            assert(arith::is_entry(a, sp, i, j, y));
            let f = |t: int|
                val(q[i * g.lhs_rs + t * g.lhs_cs]) * val(k[t * g.rhs_rs + j * g.rhs_cs]);
            let e = |t: int| val(q[i * dh + t]) * val(k[j * dh + t]);
            assert forall|t: int| 0 <= t < dh implies #[trigger] f(t) == e(t) by {
                assert(t * 1 == t);
            }
            exact::total_same(dh, f, e);
            exact::total_same(dh, e, |t: int| val(q[i * dh + t]) * val(k[j * dh + t]));
            assert(val(y) == val(scale) * exact::total(g.k as int, f));
        }
        assert forall|j: int, l: int| 0 <= j < kv_seq && 0 <= l < kv_seq implies val(
            #[trigger] w[i * kv_seq + j],
        ) * ex(s(l)) == val(#[trigger] w[i * kv_seq + l]) * ex(s(j)) by {
            let (x, y) = (scores[i * kv_seq + j], scores[i * kv_seq + l]);
            assert(val(x) == s(j) && val(y) == s(l));
        }
    }
    assert forall|i: int, c: int| 0 <= i < q_seq && 0 <= c < dh implies val(
        #[trigger] out[i * dh + c],
    ) == exact::total(kv_seq, |j: int| val(w[i * kv_seq + j]) * val(v[j * dh + c])) by {
        index::lemma_pair(i, c, q_seq, dh);
        let y = out[i * dh + c];
        assert(arith::is_entry(a, op, i, c, y));
        let f = |t: int| val(w[i * h.lhs_rs + t * h.lhs_cs]) * val(v[t * h.rhs_rs + c * h.rhs_cs]);
        let e = |j: int| val(w[i * kv_seq + j]) * val(v[j * dh + c]);
        assert forall|t: int| 0 <= t < kv_seq implies #[trigger] f(t) == e(t) by {
            assert(t * 1 == t && c * 1 == c);
        }
        exact::total_same(kv_seq, f, e);
        exact::total_same(kv_seq, e, |j: int| val(w[i * kv_seq + j]) * val(v[j * dh + c]));
        lemma_one(a, val, one, exact::total(kv_seq, f));
        assert(val(y) == val(one) * exact::total(h.k as int, f));
    }
    w
}

/// `q` is the projection `part` of `x`: the rows of the packed matrix from `part * d` on.
pub open spec fn is_part<T>(
    val: spec_fn(T) -> real,
    x: Seq<T>,
    rows: int,
    d: int,
    attn: &MhaWeights<T>,
    part: int,
    q: Seq<T>,
) -> bool {
    forall|r: int, j: int|
        0 <= r < rows && 0 <= j < d ==> val(#[trigger] q[r * d + j]) == row_product(
            val,
            x,
            attn.in_proj_weight@,
            d,
            r,
            part * d + j,
        ) + val(attn.in_proj_bias@[part * d + j])
}

/// A projection uses its third of the packed parameters.
proof fn lemma_part<A: Arith>(
    a: &A,
    val: spec_fn(A::T) -> real,
    x: Seq<A::T>,
    s: [usize; 3],
    attn: &MhaWeights<A::T>,
    part: int,
    q: Seq<A::T>,
)
    requires
        exact::is_exact(a, val),
        exact::is_exact_gemm(a, val),
        0 <= part < 3,
        s[0] * s[1] <= usize::MAX,
        3 * attn.d_model * attn.d_model <= attn.in_proj_weight@.len(),
        3 * attn.d_model <= attn.in_proj_bias@.len(),
        attention::is_projected(a, x, s, attn, part, q),
    ensures
        is_part(val, x, s[0] * s[1], attn.d_model as int, attn, part, q),
{
    let d = attn.d_model as int;
    let rows = s[0] * s[1];
    let w = attention::projection(attn.in_proj_weight@, d, part);
    let bias = attention::projection_bias(attn.in_proj_bias@, d, part);
    assert(0 <= part * d * d && part * d * d <= (part + 1) * d * d && (part + 1) * d * d <= 3 * d
        * d && (part + 1) * d * d == part * d * d + d * d && 0 <= d * d) by (nonlinear_arith)
        requires
            0 <= part < 3,
            0 <= d,
    ;
    assert(0 <= part * d && part * d <= (part + 1) * d && (part + 1) * d <= 3 * d && (part + 1) * d
        == part * d + d) by (nonlinear_arith)
        requires
            0 <= part < 3,
            0 <= d,
    ;
    assert forall|r: int, j: int| 0 <= r < rows && 0 <= j < d implies val(#[trigger] q[r * d + j])
        == row_product(val, x, attn.in_proj_weight@, d, r, part * d + j) + val(
        attn.in_proj_bias@[part * d + j],
    ) by {
        linear_maps_rows(a, val, x, rows, d, w, d, bias, q, r, j);
        let f = |t: int| val(x[r * d + t]) * val(w[j * d + t]);
        let e = |t: int| val(x[r * d + t]) * val(attn.in_proj_weight@[(part * d + j) * d + t]);
        assert forall|t: int| 0 <= t < d implies #[trigger] f(t) == e(t) by {
            index::lemma_pair(j, t, d, d);
            assert((part * d + j) * d + t == part * d * d + (j * d + t)) by (nonlinear_arith);
        }
        exact::total_same(d, f, e);
        exact::total_same(d, f, |t: int| val(x[r * d + t]) * val(w[j * d + t]));
        exact::total_same(
            d,
            e,
            |t: int| val(x[r * d + t]) * val(attn.in_proj_weight@[(part * d + j) * d + t]),
        );
    }
}

/// What query `i` of entry `b` asks of key `j` in head `h`: the inner product of the features of
/// that head, scaled.
pub open spec fn head_score<T>(
    val: spec_fn(T) -> real,
    q: Seq<T>,
    k: Seq<T>,
    q_seq: int,
    kv_seq: int,
    d: int,
    dh: int,
    scale: T,
    b: int,
    h: int,
    i: int,
    j: int,
) -> real {
    val(scale) * exact::total(
        dh,
        |c: int|
            val(q[(b * q_seq + i) * d + (h * dh + c)]) * val(k[(b * kv_seq + j) * d + (h * dh + c)]),
    )
}

/// The shares in which query `i` of entry `b` is answered in head `h`, one for each key.
pub open spec fn is_head_answered<T>(
    val: spec_fn(T) -> real,
    ex: spec_fn(real) -> real,
    w: Seq<T>,
    q_seq: int,
    kv_seq: int,
    q: Seq<T>,
    k: Seq<T>,
    d: int,
    dh: int,
    scale: T,
    b: int,
    h: int,
    i: int,
) -> bool {
    are_shares(
        val,
        ex,
        w,
        kv_seq,
        i,
        |j: int| head_score(val, q, k, q_seq, kv_seq, d, dh, scale, b, h, i, j),
    )
}

/// Attention with several heads. The queries, keys and values are the three projections, in this
/// order. Each head has its own run of features: a feature of what a query is given is the mean of
/// that feature of the values, by the shares of its own head, and the scores are divided by the
/// root of the number of features of a head. The last projection maps the result.
pub proof fn heads_attend_apart<A: Arith>(
    a: &A,
    val: spec_fn(A::T) -> real,
    ex: spec_fn(real) -> real,
    lg: spec_fn(real) -> real,
    q_in: Seq<A::T>,
    q_shape: [usize; 3],
    kv_in: Seq<A::T>,
    kv_shape: [usize; 3],
    attn: &MhaWeights<A::T>,
    out: Seq<A::T>,
) -> (r: (Seq<A::T>, Seq<A::T>, Seq<A::T>, A::T, Seq<Seq<A::T>>, Seq<A::T>))
    requires
        exact::is_exact(a, val),
        exact::is_exact_order(a, val),
        exact::is_exact_root(a, val),
        exact::is_exact_gemm(a, val),
        exact::is_exact_exponential(a, val, ex, lg),
        attention::mha_ok(q_in.len() as int, q_shape, kv_in.len() as int, kv_shape, attn),
        attention::is_mha(a, q_in, q_shape, kv_in, kv_shape, attn, out),
    ensures
        ({
            let (q, k, v, scale, shares, mix) = r;
            let d = attn.d_model as int;
            let heads = attn.n_heads as int;
            let dh = d / heads;
            let (q_seq, kv_seq) = (q_shape[1] as int, kv_shape[1] as int);
            &&& is_part(val, q_in, q_shape[0] * q_shape[1], d, attn, 0, q)
            &&& is_part(val, kv_in, kv_shape[0] * kv_shape[1], d, attn, 1, k)
            &&& is_part(val, kv_in, kv_shape[0] * kv_shape[1], d, attn, 2, v)
            &&& val(scale) > 0 as real
            &&& (val(scale) * val(scale)) * (dh as real) == 1 as real
            &&& forall|b: int, h: int, i: int|
                0 <= b < q_shape[0] && 0 <= h < heads && 0 <= i < q_seq ==> #[trigger] is_head_answered(
                    val,
                    ex,
                    shares[b * heads + h],
                    q_seq,
                    kv_seq,
                    q,
                    k,
                    d,
                    dh,
                    scale,
                    b,
                    h,
                    i,
                )
            &&& forall|b: int, h: int, i: int, c: int|
                0 <= b < q_shape[0] && 0 <= h < heads && 0 <= i < q_seq && 0 <= c < dh ==> val(
                    #[trigger] mix[(b * q_seq + i) * d + (h * dh + c)],
                ) == exact::total(
                    kv_seq,
                    |j: int|
                        val(shares[b * heads + h][i * kv_seq + j]) * val(
                            v[(b * kv_seq + j) * d + (h * dh + c)],
                        ),
                )
            &&& forall|row: int, j: int|
                0 <= row < q_shape[0] * q_shape[1] && 0 <= j < d ==> val(
                    #[trigger] out[row * d + j],
                ) == row_product(val, mix, attn.out_proj_weight@, d, row, j) + val(
                    attn.out_proj_bias@[j],
                )
        }),
{
    reveal(attention::is_mha);
    reveal(attention::mha_ok);
    reveal(attention::are_heads);
    let d = attn.d_model as int;
    let n = attn.n_heads as int;
    let dh = d / n;
    let (batch, q_seq, kv_seq) = (q_shape[0] as int, q_shape[1] as int, kv_shape[1] as int);
    let (q, k, v, scale, heads) = choose|
        q: Seq<A::T>,
        k: Seq<A::T>,
        v: Seq<A::T>,
        scale: A::T,
        heads: Seq<Seq<A::T>>,
    |
        {
            &&& #[trigger] attention::is_projected(a, q_in, q_shape, attn, 0, q)
            &&& #[trigger] attention::is_projected(a, kv_in, kv_shape, attn, 1, k)
            &&& #[trigger] attention::is_projected(a, kv_in, kv_shape, attn, 2, v)
            &&& #[trigger] attention::is_attention_scale(a, dh, scale)
            &&& #[trigger] attention::are_heads(
                a,
                q,
                k,
                v,
                batch,
                q_seq,
                kv_seq,
                n,
                dh,
                scale,
                heads,
            )
            &&& attention::is_linear(
                a,
                attention::merged(heads, batch, q_seq, n, dh),
                q_shape[0] * q_shape[1],
                d,
                attn.out_proj_weight@,
                d,
                attn.out_proj_bias@,
                out,
            )
        };
    vstd::arithmetic::div_mod::lemma_fundamental_div_mod(d, n);
    assert(n * dh == d);
    assert(dh > 0) by (nonlinear_arith)
        requires
            n * dh == d,
            d > 0,
            n > 0,
    ;
    assert(dh <= d) by (nonlinear_arith)
        requires
            n * dh == d,
            n > 0,
            dh > 0,
    ;
    assert(batch * q_seq <= usize::MAX && kv_shape[0] * kv_seq <= usize::MAX) by {
        assert(batch * q_seq <= batch * q_seq * d && kv_shape[0] * kv_seq <= kv_shape[0] * kv_seq
            * d) by (nonlinear_arith)
            requires
                d >= 1,
                0 <= batch,
                0 <= q_seq,
                0 <= kv_seq,
                0 <= kv_shape[0],
        ;
    }
    lemma_part(a, val, q_in, q_shape, attn, 0, q);
    lemma_part(a, val, kv_in, kv_shape, attn, 1, k);
    lemma_part(a, val, kv_in, kv_shape, attn, 2, v);
    lemma_scale(a, val, dh, scale);
    let mix = attention::merged(heads, batch, q_seq, n, dh);
    let shares = Seq::new(
        (batch * n) as nat,
        |m: int|
            head_shares(
                val,
                ex,
                attention::head_of(q, q_seq, d, dh, m / n, m % n),
                attention::head_of(k, kv_seq, d, dh, m / n, m % n),
                attention::head_of(v, kv_seq, d, dh, m / n, m % n),
                q_seq,
                kv_seq,
                dh,
                scale,
                heads[m],
            ),
    );
    assert forall|b: int, h: int|
        #![trigger shares[b * n + h]]
        0 <= b < batch && 0 <= h < n implies is_head(
        val,
        ex,
        attention::head_of(q, q_seq, d, dh, b, h),
        attention::head_of(k, kv_seq, d, dh, b, h),
        attention::head_of(v, kv_seq, d, dh, b, h),
        q_seq,
        kv_seq,
        dh,
        scale,
        heads[b * n + h],
        shares[b * n + h],
    ) by {
        index::lemma_pair(b, h, batch, n);
        let m = b * n + h;
        let o = heads[m];
        let w = attention_is_a_mean(
            a,
            val,
            ex,
            lg,
            attention::head_of(q, q_seq, d, dh, b, h),
            attention::head_of(k, kv_seq, d, dh, b, h),
            attention::head_of(v, kv_seq, d, dh, b, h),
            q_seq,
            kv_seq,
            dh,
            scale,
            o,
        );
        assert(is_head(
            val,
            ex,
            attention::head_of(q, q_seq, d, dh, m / n, m % n),
            attention::head_of(k, kv_seq, d, dh, m / n, m % n),
            attention::head_of(v, kv_seq, d, dh, m / n, m % n),
            q_seq,
            kv_seq,
            dh,
            scale,
            heads[m],
            w,
        ));
    }
    assert forall|b: int, h: int, i: int| 0 <= b < batch && 0 <= h < n && 0 <= i
        < q_seq implies #[trigger] is_head_answered(
                    val,
                    ex,
                    shares[b * n + h],
                    q_seq,
                    kv_seq,
                    q,
                    k,
                    d,
                    dh,
                    scale,
                    b,
                    h,
                    i,
                ) by {
        let w = shares[b * n + h];
        let (qh, kh, vh) = (
            attention::head_of(q, q_seq, d, dh, b, h),
            attention::head_of(k, kv_seq, d, dh, b, h),
            attention::head_of(v, kv_seq, d, dh, b, h),
        );
        assert(is_head(val, ex, qh, kh, vh, q_seq, kv_seq, dh, scale, heads[b * n + h], w));
        let s = |j: int| score(val, qh, kh, dh, scale, i, j);
        assert(is_answered(val, ex, w, kv_seq, qh, kh, dh, scale, i));
        let t = |j: int| head_score(val, q, k, q_seq, kv_seq, d, dh, scale, b, h, i, j);
        assert forall|j: int| 0 <= j < kv_seq implies #[trigger] s(j) == t(j) by {
            let f = |c: int| val(qh[i * dh + c]) * val(kh[j * dh + c]);
            let g = |c: int|
                val(q[(b * q_seq + i) * d + (h * dh + c)]) * val(
                    k[(b * kv_seq + j) * d + (h * dh + c)],
                );
            assert forall|c: int| 0 <= c < dh implies #[trigger] f(c) == g(c) by {
                index::lemma_pair(i, c, q_seq, dh);
                index::lemma_pair(j, c, kv_seq, dh);
            }
            exact::total_same(dh, f, g);
            exact::total_same(dh, f, |c: int| val(qh[i * dh + c]) * val(kh[j * dh + c]));
            exact::total_same(
                dh,
                g,
                |c: int|
                    val(q[(b * q_seq + i) * d + (h * dh + c)]) * val(
                        k[(b * kv_seq + j) * d + (h * dh + c)],
                    ),
            );
        }
        assert forall|j: int, l: int| 0 <= j < kv_seq && 0 <= l < kv_seq implies val(
            #[trigger] w[i * kv_seq + j],
        ) * ex(t(l)) == val(#[trigger] w[i * kv_seq + l]) * ex(t(j)) by {
            assert(s(j) == t(j) && s(l) == t(l));
        }
    }
    assert forall|b: int, h: int, i: int, c: int| 0 <= b < batch && 0 <= h < n && 0 <= i < q_seq
        && 0 <= c < dh implies val(#[trigger] mix[(b * q_seq + i) * d + (h * dh + c)])
        == exact::total(
        kv_seq,
        |j: int|
            val(shares[b * n + h][i * kv_seq + j]) * val(v[(b * kv_seq + j) * d + (h * dh + c)]),
    ) by {
        let w = shares[b * n + h];
        let (qh, kh, vh) = (
            attention::head_of(q, q_seq, d, dh, b, h),
            attention::head_of(k, kv_seq, d, dh, b, h),
            attention::head_of(v, kv_seq, d, dh, b, h),
        );
        let o = heads[b * n + h];
        assert(is_head(val, ex, qh, kh, vh, q_seq, kv_seq, dh, scale, o, w));
        index::lemma_pair(b, i, batch, q_seq);
        index::lemma_pair(h, c, n, dh);
        index::lemma_pair(b * q_seq + i, h * dh + c, batch * q_seq, d);
        index::lemma_pair(i, c, q_seq, dh);
        assert(mix[(b * q_seq + i) * d + (h * dh + c)] == o[i * dh + c]);
        let f = |j: int| val(w[i * kv_seq + j]) * val(vh[j * dh + c]);
        let g = |j: int| val(w[i * kv_seq + j]) * val(v[(b * kv_seq + j) * d + (h * dh + c)]);
        assert forall|j: int| 0 <= j < kv_seq implies #[trigger] f(j) == g(j) by {
            index::lemma_pair(j, c, kv_seq, dh);
        }
        exact::total_same(kv_seq, f, g);
        exact::total_same(kv_seq, f, |j: int| val(w[i * kv_seq + j]) * val(vh[j * dh + c]));
        exact::total_same(
            kv_seq,
            g,
            |j: int|
                val(shares[b * n + h][i * kv_seq + j]) * val(
                    v[(b * kv_seq + j) * d + (h * dh + c)],
                ),
        );
    }
    assert forall|row: int, j: int| 0 <= row < q_shape[0] * q_shape[1] && 0 <= j < d implies val(
        #[trigger] out[row * d + j],
    ) == row_product(val, mix, attn.out_proj_weight@, d, row, j) + val(attn.out_proj_bias@[j]) by {
        linear_maps_rows(
            a,
            val,
            mix,
            q_shape[0] * q_shape[1],
            d,
            attn.out_proj_weight@,
            d,
            attn.out_proj_bias@,
            out,
            row,
            j,
        );
    }
    (q, k, v, scale, shares, mix)
}

/// `w` are the shares with which one head makes `out`.
spec fn is_head<T>(
    val: spec_fn(T) -> real,
    ex: spec_fn(real) -> real,
    q: Seq<T>,
    k: Seq<T>,
    v: Seq<T>,
    q_seq: int,
    kv_seq: int,
    dh: int,
    scale: T,
    out: Seq<T>,
    w: Seq<T>,
) -> bool {
    &&& forall|i: int|
        0 <= i < q_seq ==> #[trigger] is_answered(val, ex, w, kv_seq, q, k, dh, scale, i)
    &&& forall|i: int, c: int|
        0 <= i < q_seq && 0 <= c < dh ==> val(#[trigger] out[i * dh + c]) == exact::total(
            kv_seq,
            |j: int| val(w[i * kv_seq + j]) * val(v[j * dh + c]),
        )
}

/// The shares with which one head makes `out`.
spec fn head_shares<T>(
    val: spec_fn(T) -> real,
    ex: spec_fn(real) -> real,
    q: Seq<T>,
    k: Seq<T>,
    v: Seq<T>,
    q_seq: int,
    kv_seq: int,
    dh: int,
    scale: T,
    out: Seq<T>,
) -> Seq<T> {
    choose|w: Seq<T>| #[trigger] is_head(val, ex, q, k, v, q_seq, kv_seq, dh, scale, out, w)
}

/// The scale is one over the root of the number of features.
proof fn lemma_scale<A: Arith>(a: &A, val: spec_fn(A::T) -> real, dh: int, scale: A::T)
    requires
        exact::is_exact(a, val),
        exact::is_exact_order(a, val),
        exact::is_exact_root(a, val),
        0 < dh <= usize::MAX,
        attention::is_attention_scale(a, dh, scale),
    ensures
        val(scale) > 0 as real,
        (val(scale) * val(scale)) * (dh as real) == 1 as real,
{
    let (n, root, one) = choose|n: A::T, root: A::T, one: A::T|
        {
            &&& #[trigger] arith::is_count(a, dh, n)
            &&& #[trigger] arith::is_square_root(a, n, root)
            &&& #[trigger] arith::is_ratio(a, 1, 1, one)
            &&& arith::is_quotient(a, one, root, scale)
        };
    assert((1 as real) / (1 as real) == 1 as real) by (nonlinear_arith);
    let (x, q, s) = (dh as real, val(root), val(scale));
    assert(q > 0 as real) by (nonlinear_arith)
        requires
            q >= 0 as real,
            q * q == x,
            x > 0 as real,
    ;
    assert(s == 1 as real / q);
    assert(s > 0 as real && (s * s) * x == 1 as real) by (nonlinear_arith)
        requires
            s == 1 as real / q,
            q > 0 as real,
            q * q == x,
    ;
}

} // verus!
