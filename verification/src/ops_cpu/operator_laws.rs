//! What the operators between the convolutions compute, without rounding.
use vstd::prelude::*;
use crate::arith;
use crate::arith::Arith;
use crate::exact;
use crate::index;
use crate::ops_cpu::elementwise;
use crate::ops_cpu::layout;
use crate::ops_cpu::norm;
use crate::ops_cpu::softmax;
use crate::ops_cpu::standardize;

verus! {

/// One over one is one.
proof fn lemma_unit()
    ensures
        (1 as int as real) / (1 as int as real) == 1 as real,
        (2 as int as real) / (1 as int as real) == 2 as real,
{
    assert((1 as real) / (1 as real) == 1 as real) by (nonlinear_arith);
    assert((2 as real) / (1 as real) == 2 as real) by (nonlinear_arith);
}

/// GELU takes a number times the chance that a normal variable lies below it: half of one plus the
/// error function of the number over the square root of two.
pub proof fn gelu_takes_the_normal_share<A: Arith>(
    a: &A,
    val: spec_fn(A::T) -> real,
    erf: spec_fn(real) -> real,
    x: Seq<A::T>,
    out: Seq<A::T>,
) -> (c: real)
    requires
        exact::is_exact(a, val),
        exact::is_exact_root(a, val),
        exact::is_exact_erf(a, val, erf),
        elementwise::is_gelu(a, x, out),
    ensures
        c > 0 as real,
        2 as real * (c * c) == 1 as real,
        out.len() == x.len(),
        forall|i: int|
            0 <= i < x.len() ==> 2 as real * val(#[trigger] out[i]) == val(x[i]) * (1 as real + erf(
                val(x[i]) * c,
            )),
{
    reveal(elementwise::is_gelu);
    lemma_unit();
    let inv = choose|inv: A::T| #[trigger]
        elementwise::is_inv_sqrt2(a, inv) && out.len() == x.len() && forall|i: int|
            0 <= i < x.len() ==> elementwise::is_gelu_value(a, inv, x[i], #[trigger] out[i]);
    let (two, root, one) = choose|two: A::T, root: A::T, one: A::T|
        {
            &&& #[trigger] arith::is_ratio(a, 2, 1, two)
            &&& #[trigger] arith::is_square_root(a, two, root)
            &&& #[trigger] arith::is_ratio(a, 1, 1, one)
            &&& arith::is_quotient(a, one, root, inv)
        };
    let (c, q) = (val(inv), val(root));
    assert(q > 0 as real) by (nonlinear_arith)
        requires
            q >= 0 as real,
            q * q == 2 as real,
    ;
    assert(c == 1 as real / q);
    assert(c > 0 as real && 2 as real * (c * c) == 1 as real) by (nonlinear_arith)
        requires
            q > 0 as real,
            q * q == 2 as real,
            c == 1 as real / q,
    ;
    assert forall|i: int| 0 <= i < x.len() implies 2 as real * val(#[trigger] out[i]) == val(x[i])
        * (1 as real + erf(val(x[i]) * c)) by {
        let (v, r) = (x[i], out[i]);
        let (e, half, hv, one, s) = choose|e: A::T, half: A::T, hv: A::T, one: A::T, s: A::T|
            {
                &&& #[trigger] arith::is_scaled_erf(a, v, inv, e)
                &&& #[trigger] arith::is_ratio(a, 1, 2, half)
                &&& #[trigger] arith::is_product(a, half, v, hv)
                &&& #[trigger] arith::is_sum(a, one, e, s)
                &&& arith::is_ratio(a, 1, 1, one)
                &&& arith::is_product(a, hv, s, r)
            };
        let (h, y, z) = (val(half), val(v), val(s));
        assert(h == (1 as real) / (2 as real));
        assert(2 as real * ((h * y) * z) == y * z) by (nonlinear_arith)
            requires
                h == (1 as real) / (2 as real),
        ;
    }
    c
}

/// What GELU leaves of a number and of its negative differs by the number.
pub proof fn gelu_splits_numbers<A: Arith>(
    a: &A,
    val: spec_fn(A::T) -> real,
    erf: spec_fn(real) -> real,
    x: Seq<A::T>,
    out: Seq<A::T>,
    i: int,
    j: int,
)
    requires
        exact::is_exact(a, val),
        exact::is_exact_root(a, val),
        exact::is_exact_erf(a, val, erf),
        elementwise::is_gelu(a, x, out),
        0 <= i < x.len(),
        0 <= j < x.len(),
        val(x[j]) == -val(x[i]),
    ensures
        val(out[i]) - val(out[j]) == val(x[i]),
{
    let c = gelu_takes_the_normal_share(a, val, erf, x, out);
    let (v, p, q) = (val(x[i]), val(out[i]), val(out[j]));
    assert(erf(-(v * c)) == -erf(v * c));
    assert((-v) * c == -(v * c)) by (nonlinear_arith);
    let e = erf(v * c);
    assert(2 as real * p == v * (1 as real + e));
    assert(2 as real * q == (-v) * (1 as real + (-e)));
    assert(p - q == v) by (nonlinear_arith)
        requires
            2 as real * p == v * (1 as real + e),
            2 as real * q == (-v) * (1 as real + (-e)),
    ;
}

/// GLU takes the channels of the first half, each by the logistic share of the channel as far on
/// in the second half.
pub proof fn glu_gates_the_first_half<A: Arith>(
    a: &A,
    val: spec_fn(A::T) -> real,
    ex: spec_fn(real) -> real,
    lg: spec_fn(real) -> real,
    x: Seq<A::T>,
    b: int,
    c: int,
    area: int,
    out: Seq<A::T>,
    bi: int,
    ci: int,
    t: int,
)
    requires
        exact::is_exact(a, val),
        exact::is_exact_order(a, val),
        exact::is_exact_exponential(a, val, ex, lg),
        elementwise::is_glu(a, x, b, c, area, out),
        0 <= bi < b,
        0 <= ci < c,
        0 <= t < area,
    ensures
        out.len() == b * c * area,
        val(out[(bi * c + ci) * area + t]) * (1 as real + ex(
            -val(x[(bi * (2 * c) + c + ci) * area + t]),
        )) == val(x[(bi * (2 * c) + ci) * area + t]),
{
    reveal(elementwise::is_glu);
    lemma_unit();
    index::lemma_triple(bi, ci, t, b, c, area);
    let p = index::pos3(bi, ci, t, c, area);
    let (v, g, r) = (
        x[index::pos3(bi, ci, t, 2 * c, area)],
        x[index::pos3(bi, c + ci, t, 2 * c, area)],
        out[p],
    );
    assert(elementwise::is_gated(a, v, g, r));
    let s = choose|s: A::T| #[trigger]
        elementwise::is_sigmoid(a, g, s) && arith::is_product(a, v, s, r);
    let (n, e, w, one) = choose|n: A::T, e: A::T, w: A::T, one: A::T|
        {
            &&& #[trigger] arith::is_negation(a, g, n)
            &&& #[trigger] arith::is_exponential(a, n, e)
            &&& #[trigger] arith::is_sum(a, one, e, w)
            &&& arith::is_ratio(a, 1, 1, one)
            &&& arith::is_quotient(a, one, w, s)
        };
    let (y, z, u) = (val(v), val(s), val(w));
    assert(u == 1 as real + ex(-val(g)));
    assert(ex(-val(g)) > 0 as real);
    assert(z == 1 as real / u);
    assert((y * z) * u == y) by (nonlinear_arith)
        requires
            z == 1 as real / u,
            u > 0 as real,
    ;
}

/// A running total is the sum.
proof fn lemma_total<A: Arith>(a: &A, val: spec_fn(A::T) -> real, xs: Seq<A::T>, r: A::T)
    requires
        exact::is_exact(a, val),
        norm::is_total(a, xs, r),
    ensures
        val(r) == exact::total(xs.len() as int, |i: int| val(xs[i])),
{
    let p = choose|p: Seq<A::T>| #[trigger] norm::are_running_totals(a, xs, p) && r == p.last();
    lemma_running(a, val, xs, p, xs.len() as int);
}

/// A running total is the sum so far.
proof fn lemma_running<A: Arith>(
    a: &A,
    val: spec_fn(A::T) -> real,
    xs: Seq<A::T>,
    p: Seq<A::T>,
    n: int,
)
    requires
        exact::is_exact(a, val),
        norm::are_running_totals(a, xs, p),
        0 <= n <= xs.len(),
    ensures
        val(p[n]) == exact::total(n, |i: int| val(xs[i])),
    decreases n,
{
    if n > 0 {
        lemma_running(a, val, xs, p, n - 1);
        assert(arith::is_sum(a, p[n - 1], xs[n - 1], p[n - 1 + 1]));
    }
}

/// `m` is the mean of `xs`, and `v` the mean of the squares of the distances to it.
pub open spec fn are_moments<T>(val: spec_fn(T) -> real, xs: Seq<T>, m: real, v: real) -> bool {
    &&& m * (xs.len() as int as real) == exact::total(xs.len() as int, |i: int| val(xs[i]))
    &&& v * (xs.len() as int as real) == exact::total(
        xs.len() as int,
        |i: int| (val(xs[i]) - m) * (val(xs[i]) - m),
    )
    &&& v >= 0 as real
}

/// A sum of squares is not below zero.
proof fn lemma_squares(n: int, f: spec_fn(int) -> real)
    requires
        forall|i: int| 0 <= i < n ==> #[trigger] f(i) >= 0 as real,
    ensures
        exact::total(n, f) >= 0 as real,
    decreases n,
{
    if n > 0 {
        lemma_squares(n - 1, f);
        assert(f(n - 1) >= 0 as real);
    }
}

/// The mean and the variance are the moments.
proof fn lemma_moments<A: Arith>(
    a: &A,
    val: spec_fn(A::T) -> real,
    xs: Seq<A::T>,
    m: A::T,
    v: A::T,
)
    requires
        exact::is_exact(a, val),
        exact::is_exact_order(a, val),
        0 < xs.len() <= usize::MAX,
        norm::is_mean(a, xs, xs.len() as usize, m),
        norm::is_variance(a, xs, m, xs.len() as usize, v),
    ensures
        are_moments(val, xs, val(m), val(v)),
{
    let k = xs.len() as int;
    let n = k as real;
    let (s, c) = choose|s: A::T, c: A::T| #[trigger]
        norm::is_total(a, xs, s) && #[trigger] arith::is_count(a, k, c) && arith::is_quotient(
            a,
            s,
            c,
            m,
        );
    lemma_total(a, val, xs, s);
    let (x, y) = (val(s), val(m));
    assert(y * n == x) by (nonlinear_arith)
        requires
            y == x / n,
            n > 0 as real,
    ;
    let sq = choose|sq: Seq<A::T>|
        {
            &&& sq.len() == xs.len()
            &&& forall|j: int|
                0 <= j < xs.len() ==> norm::is_square_deviation(a, xs[j], m, #[trigger] sq[j])
            &&& #[trigger] norm::is_mean(a, sq, xs.len() as usize, v)
        };
    let (t, d) = choose|t: A::T, d: A::T| #[trigger]
        norm::is_total(a, sq, t) && #[trigger] arith::is_count(a, k, d) && arith::is_quotient(
            a,
            t,
            d,
            v,
        );
    lemma_total(a, val, sq, t);
    let f = |i: int| val(sq[i]);
    let g = |i: int| (val(xs[i]) - y) * (val(xs[i]) - y);
    assert forall|i: int| 0 <= i < k implies #[trigger] f(i) == g(i) by {
        assert(norm::is_square_deviation(a, xs[i], m, sq[i]));
    }
    exact::total_same(k, f, g);
    assert forall|i: int| 0 <= i < k implies #[trigger] g(i) >= 0 as real by {
        let e = val(xs[i]) - y;
        assert(e * e >= 0 as real) by (nonlinear_arith);
    }
    lemma_squares(k, g);
    exact::total_same(k, g, |i: int| (val(xs[i]) - val(m)) * (val(xs[i]) - val(m)));
    let (u, w) = (val(t), val(v));
    assert(w * n == u && w >= 0 as real) by (nonlinear_arith)
        requires
            w == u / n,
            n > 0 as real,
            u >= 0 as real,
    ;
}

/// Normalizing brings each run of `c * l` numbers to mean zero and to a variance of one but for
/// 1/100000: `(x - mean) / sqrt(variance + 1/100000)`, and then applies the gain and the shift of
/// the channel, `l` numbers being of one channel.
pub proof fn runs_are_normalized<A: Arith>(
    a: &A,
    val: spec_fn(A::T) -> real,
    x: Seq<A::T>,
    c: int,
    l: int,
    gamma: Seq<A::T>,
    beta: Seq<A::T>,
    out: Seq<A::T>,
    k: int,
) -> (r: (real, real, real))
    requires
        exact::is_exact(a, val),
        exact::is_exact_order(a, val),
        exact::is_exact_root(a, val),
        0 < c,
        0 < l,
        x.len() <= usize::MAX,
        norm::is_run_normalized(a, x, c, l, gamma, beta, out),
        0 <= k < x.len() as int / (c * l),
    ensures
        are_moments(val, x.subrange(k * (c * l), (k + 1) * (c * l)), r.0, r.1),
        r.2 > 0 as real,
        (r.2 * r.2) * (r.1 + 1 as real / 100000 as real) == 1 as real,
        forall|j: int|
            0 <= j < c * l ==> val(#[trigger] out[k * (c * l) + j]) == ((val(x[k * (c * l) + j])
                - r.0) * r.2) * val(gamma[j / l]) + val(beta[j / l]),
{
    reveal(norm::is_run_normalized);
    let n = c * l;
    assert(0 < n) by (nonlinear_arith)
        requires
            n == c * l,
            0 < c,
            0 < l,
    ;
    assert(0 <= k * n && (k + 1) * n <= x.len() && (k + 1) * n == k * n + n) by {
        vstd::arithmetic::div_mod::lemma_fundamental_div_mod(x.len() as int, n);
        let q = x.len() as int / n;
        assert(0 <= k * n && (k + 1) * n <= n * q && (k + 1) * n == k * n + n) by (nonlinear_arith)
            requires
                0 <= k,
                k + 1 <= q,
                0 < n,
        ;
    }
    let xs = norm::run(x, k, n);
    let ys = norm::run(out, k, n);
    assert(norm::is_normalized(a, xs, l, gamma, beta, ys));
    let (mean, var, inv) = choose|mean: A::T, var: A::T, inv: A::T|
        {
            &&& #[trigger] norm::is_mean(a, xs, xs.len() as usize, mean)
            &&& #[trigger] norm::is_variance(a, xs, mean, xs.len() as usize, var)
            &&& #[trigger] norm::is_inv_std(a, var, inv)
            &&& ys.len() == xs.len()
            &&& forall|j: int|
                0 <= j < xs.len() ==> norm::is_rescaled(
                    a,
                    xs[j],
                    mean,
                    inv,
                    gamma[j / l],
                    beta[j / l],
                    #[trigger] ys[j],
                )
        };
    lemma_moments(a, val, xs, mean, var);
    let (eps, shifted, rec) = choose|eps: A::T, shifted: A::T, rec: A::T|
        {
            &&& #[trigger] arith::is_ratio(a, 1, 100000, eps)
            &&& #[trigger] arith::is_sum(a, var, eps, shifted)
            &&& #[trigger] arith::is_reciprocal(a, shifted, rec)
            &&& arith::is_square_root(a, rec, inv)
        };
    let h = 1 as real / 100000 as real;
    assert(h > 0 as real) by (nonlinear_arith)
        requires
            h == 1 as real / 100000 as real,
    ;
    let (i, z, u) = (val(inv), val(rec), val(shifted));
    assert(u == val(var) + h);
    assert(z > 0 as real) by (nonlinear_arith)
        requires
            z * u == 1 as real,
            u > 0 as real,
    ;
    assert(i > 0 as real) by (nonlinear_arith)
        requires
            i >= 0 as real,
            i * i == z,
            z > 0 as real,
    ;
    assert forall|j: int| 0 <= j < n implies val(#[trigger] out[k * n + j]) == ((val(x[k * n + j])
        - val(mean)) * i) * val(gamma[j / l]) + val(beta[j / l]) by {
        let y = ys[j];
        assert(xs[j] == x[k * n + j] && y == out[k * n + j]);
    }
    (val(mean), val(var), i)
}

/// Softmax turns each run of `n` numbers into shares: they are positive, make one together, and
/// the shares of two numbers are as the exponentials of the numbers.
pub proof fn softmax_gives_shares<A: Arith>(
    a: &A,
    val: spec_fn(A::T) -> real,
    ex: spec_fn(real) -> real,
    lg: spec_fn(real) -> real,
    x: Seq<A::T>,
    n: int,
    out: Seq<A::T>,
    k: int,
)
    requires
        exact::is_exact(a, val),
        exact::is_exact_exponential(a, val, ex, lg),
        0 < n,
        softmax::is_run_softmax(a, x, n, out),
        0 <= k < x.len() as int / n,
    ensures
        exact::total(n, |i: int| val(out[k * n + i])) == 1 as real,
        forall|i: int| 0 <= i < n ==> val(#[trigger] out[k * n + i]) > 0 as real,
        forall|i: int, j: int|
            0 <= i < n && 0 <= j < n ==> val(#[trigger] out[k * n + i]) * ex(val(x[k * n + j])) == val(
                #[trigger] out[k * n + j],
            ) * ex(val(x[k * n + i])),
{
    reveal(softmax::is_run_softmax);
    lemma_unit();
    assert(0 <= k * n && (k + 1) * n <= x.len() && (k + 1) * n == k * n + n) by {
        vstd::arithmetic::div_mod::lemma_fundamental_div_mod(x.len() as int, n);
        let q = x.len() as int / n;
        assert(0 <= k * n && (k + 1) * n <= n * q && (k + 1) * n == k * n + n) by (nonlinear_arith)
            requires
                0 <= k,
                k + 1 <= q,
                0 < n,
        ;
    }
    let xs = norm::run(x, k, n);
    let ys = norm::run(out, k, n);
    assert(softmax::is_softmax(a, xs, ys));
    let (m, es, s, one, inv) = choose|
        m: A::T,
        es: Seq<A::T>,
        s: A::T,
        one: A::T,
        inv: A::T,
    |
        {
            &&& #[trigger] softmax::is_maximum(a, xs, m)
            &&& #[trigger] softmax::are_shifted_exps(a, xs, m, es)
            &&& #[trigger] norm::is_total(a, es, s)
            &&& arith::is_ratio(a, 1, 1, one)
            &&& #[trigger] arith::is_quotient(a, one, s, inv)
            &&& ys.len() == xs.len()
            &&& forall|j: int|
                0 <= j < xs.len() ==> arith::is_product(a, es[j], inv, #[trigger] ys[j])
        };
    lemma_total(a, val, es, s);
    let f = |i: int| val(es[i]);
    let z = val(m);
    assert forall|i: int| 0 <= i < n implies #[trigger] f(i) == ex(val(xs[i]) - z) && f(i)
        > 0 as real by {
        let e = es[i];
        assert(softmax::is_shifted_exp(a, xs[i], m, e));
    }
    lemma_positive(n, f);
    exact::total_same(n, f, |i: int| val(es[i]));
    let (t, u) = (val(s), val(inv));
    assert(t > 0 as real);
    assert(u == 1 as real / t);
    assert(u > 0 as real && u * t == 1 as real) by (nonlinear_arith)
        requires
            u == 1 as real / t,
            t > 0 as real,
    ;
    let g = |i: int| val(out[k * n + i]);
    let h = |i: int| u * f(i);
    assert forall|i: int| 0 <= i < n implies #[trigger] g(i) == h(i) by {
        let y = ys[i];
        assert(y == out[k * n + i]);
        let (p, q) = (val(es[i]), u);
        assert(p * q == q * p) by (nonlinear_arith);
    }
    exact::total_same(n, g, h);
    exact::total_scaled(n, u, f);
    exact::total_same(n, h, |i: int| u * f(i));
    assert forall|i: int| 0 <= i < n implies val(#[trigger] out[k * n + i]) > 0 as real by {
        assert(g(i) == h(i) && f(i) > 0 as real);
        let p = f(i);
        assert(u * p > 0 as real) by (nonlinear_arith)
            requires
                u > 0 as real,
                p > 0 as real,
        ;
    }
    assert forall|i: int, j: int| 0 <= i < n && 0 <= j < n implies val(#[trigger] out[k * n + i])
        * ex(val(x[k * n + j])) == val(#[trigger] out[k * n + j]) * ex(val(x[k * n + i])) by {
        assert(g(i) == h(i) && g(j) == h(j));
        let (p, q) = (val(x[k * n + i]), val(x[k * n + j]));
        assert(xs[i] == x[k * n + i] && xs[j] == x[k * n + j]);
        assert(f(i) == ex(p - z) && f(j) == ex(q - z));
        assert(ex((p - z) + z) == ex(p - z) * ex(z));
        assert(ex((q - z) + z) == ex(q - z) * ex(z));
        assert((p - z) + z == p && (q - z) + z == q);
        let (b, c, d) = (f(i), f(j), ex(z));
        assert((u * b) * (c * d) == (u * c) * (b * d)) by (nonlinear_arith);
    }
}

/// A sum of positive numbers is positive.
proof fn lemma_positive(n: int, f: spec_fn(int) -> real)
    requires
        0 < n,
        forall|i: int| 0 <= i < n ==> #[trigger] f(i) > 0 as real,
    ensures
        exact::total(n, f) > 0 as real,
    decreases n,
{
    assert(f(n - 1) > 0 as real);
    if n > 1 {
        lemma_positive(n - 1, f);
    } else {
        assert(exact::total(0, f) == 0 as real);
    }
}

/// Scaling multiplies each number by the factor of its channel, `l` numbers being of one of `c`
/// channels.
pub proof fn scaling_is_by_channel<A: Arith>(
    a: &A,
    val: spec_fn(A::T) -> real,
    x: Seq<A::T>,
    c: int,
    l: int,
    scale: Seq<A::T>,
    out: Seq<A::T>,
    b: int,
    bi: int,
    ci: int,
    t: int,
)
    requires
        exact::is_exact(a, val),
        elementwise::is_scaled(a, x, c, l, scale, out),
        x.len() == b * c * l,
        0 <= bi < b,
        0 <= ci < c,
        0 <= t < l,
    ensures
        val(out[(bi * c + ci) * l + t]) == val(x[(bi * c + ci) * l + t]) * val(scale[ci]),
{
    reveal(elementwise::is_scaled);
    index::lemma_triple(bi, ci, t, b, c, l);
    let p = index::pos3(bi, ci, t, c, l);
    let r = out[p];
}

/// Adding adds number by number.
pub proof fn adding_is_by_number<A: Arith>(
    a: &A,
    val: spec_fn(A::T) -> real,
    x: Seq<A::T>,
    y: Seq<A::T>,
    out: Seq<A::T>,
    i: int,
)
    requires
        exact::is_exact(a, val),
        elementwise::is_added(a, x, y, out),
        0 <= i < x.len(),
    ensures
        out.len() == x.len(),
        val(out[i]) == val(x[i]) + val(y[i]),
{
    reveal(elementwise::is_added);
    let r = out[i];
}

/// Cutting off keeps the first `keep` of the `n` rows of each of the `r` blocks.
pub proof fn trimmed_element<T>(x: Seq<T>, r: int, n: int, t: int, keep: int, h: int, i: int, j: int)
    requires
        0 <= h < r,
        0 <= i < keep <= n,
        0 <= j < t,
    ensures
        layout::trimmed(x, r, n, t, keep)[(h * keep + i) * t + j] == x[(h * n + i) * t + j],
{
    index::lemma_triple(h, i, j, r, keep, t);
}

/// Filling up keeps each row of `n` numbers and puts the filler behind it.
pub proof fn padded_element<T>(x: Seq<T>, r: int, n: int, len: int, filler: T, h: int, i: int)
    requires
        0 <= h < r,
        0 <= i < len,
        0 <= n <= len,
    ensures
        layout::padded(x, r, n, len, filler)[h * len + i] == if i < n {
            x[h * n + i]
        } else {
            filler
        },
{
    index::lemma_pair(h, i, r, len);
}

/// Standardizing takes the mean of each of the `b` parts away and divides by its deviation, the
/// root of the mean square of the distances to the mean, with 1/100000 added to it.
pub proof fn parts_are_standardized<A: Arith>(
    a: &A,
    val: spec_fn(A::T) -> real,
    x: Seq<A::T>,
    b: int,
    n: int,
    mean: Seq<A::T>,
    std: Seq<A::T>,
    out: Seq<A::T>,
    k: int,
)
    requires
        exact::is_exact(a, val),
        exact::is_exact_order(a, val),
        exact::is_exact_root(a, val),
        0 < n,
        b * n <= x.len() <= usize::MAX,
        standardize::are_batch_stats(a, x, b, n, mean, std),
        standardize::is_standardized(a, x, b, n, mean, std, out),
        0 <= k < b,
    ensures
        val(std[k]) >= 0 as real,
        are_moments(
            val,
            x.subrange(k * n, (k + 1) * n),
            val(mean[k]),
            val(std[k]) * val(std[k]),
        ),
        forall|j: int|
            0 <= j < n ==> val(#[trigger] out[k * n + j]) * (val(std[k]) + 1 as real
                / 100000 as real) == val(x[k * n + j]) - val(mean[k]),
{
    reveal(standardize::are_batch_stats);
    reveal(standardize::is_standardized);
    assert(0 <= k * n && (k + 1) * n <= b * n && (k + 1) * n == k * n + n) by (nonlinear_arith)
        requires
            0 <= k,
            k + 1 <= b,
            0 < n,
    ;
    let xs = norm::run(x, k, n);
    let (m, d) = (mean[k], std[k]);
    assert(standardize::are_stats(a, xs, m, d));
    let v = choose|v: A::T| #[trigger]
        norm::is_variance(a, xs, m, xs.len() as usize, v) && arith::is_square_root(a, v, d);
    lemma_moments(a, val, xs, m, v);
    assert forall|j: int| 0 <= j < n implies val(#[trigger] out[k * n + j]) * (val(std[k])
        + 1 as real / 100000 as real) == val(x[k * n + j]) - val(mean[k]) by {
        let i = k * n + j;
        index::lemma_pair(k, j, b, n);
        let r = out[i];
        assert(standardize::is_standardized_value(a, x[i], m, d, r));
        let (eps, s, e) = choose|eps: A::T, s: A::T, e: A::T|
            {
                &&& #[trigger] arith::is_ratio(a, 1, 100000, eps)
                &&& #[trigger] arith::is_sum(a, d, eps, s)
                &&& #[trigger] arith::is_difference(a, x[i], m, e)
                &&& arith::is_quotient(a, e, s, r)
            };
        let h = 1 as real / 100000 as real;
        assert(h > 0 as real) by (nonlinear_arith)
            requires
                h == 1 as real / 100000 as real,
        ;
        let (u, w, q) = (val(s), val(e), val(r));
        assert(q * u == w) by (nonlinear_arith)
            requires
                q == w / u,
                u > 0 as real,
        ;
    }
}

/// Restoring multiplies by the deviation of the part and adds its mean.
pub proof fn parts_are_restored<A: Arith>(
    a: &A,
    val: spec_fn(A::T) -> real,
    x: Seq<A::T>,
    b: int,
    n: int,
    mean: Seq<A::T>,
    std: Seq<A::T>,
    out: Seq<A::T>,
    k: int,
    j: int,
)
    requires
        exact::is_exact(a, val),
        0 < n,
        b * n <= x.len(),
        standardize::is_restored(a, x, b, n, mean, std, out),
        0 <= k < b,
        0 <= j < n,
    ensures
        val(out[k * n + j]) == val(x[k * n + j]) * val(std[k]) + val(mean[k]),
{
    reveal(standardize::is_restored);
    index::lemma_pair(k, j, b, n);
    let r = out[k * n + j];
}

} // verus!
