//! Numbers without rounding.
use vstd::prelude::*;
use crate::arith;
use crate::arith::Arith;
use crate::arith::Gemm;
use crate::index;

verus! {

/// The operations are those of the real numbers: `val` says which number a value stands for.
pub open spec fn is_exact<A: Arith>(a: &A, val: spec_fn(A::T) -> real) -> bool {
    &&& forall|x: A::T, y: A::T, r: A::T| #[trigger]
        arith::is_sum(a, x, y, r) ==> val(r) == val(x) + val(y)
    &&& forall|x: A::T, y: A::T, r: A::T| #[trigger]
        arith::is_difference(a, x, y, r) ==> val(r) == val(x) - val(y)
    &&& forall|x: A::T, y: A::T, r: A::T| #[trigger]
        arith::is_product(a, x, y, r) ==> val(r) == val(x) * val(y)
    &&& forall|x: A::T, y: A::T, r: A::T| #[trigger]
        arith::is_quotient(a, x, y, r) && val(y) != 0 as real ==> val(r) == val(x) / val(y)
    &&& forall|n: u64, d: u64, r: A::T| #[trigger]
        arith::is_ratio(a, n, d, r) && d > 0 ==> val(r) == (n as int as real) / (d as int as real)
    &&& forall|r: A::T| #[trigger] arith::is_zero(a, r) ==> val(r) == 0 as real
}

/// Counts, magnitudes, negations and comparisons are those of the real numbers.
pub open spec fn is_exact_order<A: Arith>(a: &A, val: spec_fn(A::T) -> real) -> bool {
    &&& forall|n: int, r: A::T|
        0 <= n <= usize::MAX && #[trigger] arith::is_count(a, n, r) ==> val(r) == n as real
    &&& forall|x: A::T, r: A::T| #[trigger]
        arith::is_magnitude(a, x, r) ==> val(r) == if val(x) < 0 as real {
            -val(x)
        } else {
            val(x)
        }
    &&& forall|x: A::T, r: A::T| #[trigger] arith::is_negation(a, x, r) ==> val(r) == -val(x)
    &&& forall|x: A::T, y: A::T, r: bool| #[trigger]
        arith::is_greater(a, x, y, r) ==> r == (val(x) > val(y))
}

/// `x` times itself, `n` times.
pub open spec fn power(x: real, n: int) -> real
    decreases n,
{
    if n <= 0 {
        1 as real
    } else {
        power(x, n - 1) * x
    }
}

/// `pw` raises positive numbers to powers.
pub open spec fn is_power_function(pw: spec_fn(real, real) -> real) -> bool {
    &&& forall|b: real, x: real| b > 0 as real ==> #[trigger] pw(b, x) > 0 as real
    &&& forall|b: real| b > 0 as real ==> #[trigger] pw(b, 1 as real) == b
    &&& forall|b: real, x: real, y: real|
        b > 0 as real ==> #[trigger] pw(b, x + y) == pw(b, x) * pw(b, y)
}

/// Powers are those of the real numbers.
pub open spec fn is_exact_power<A: Arith>(
    a: &A,
    val: spec_fn(A::T) -> real,
    pw: spec_fn(real, real) -> real,
) -> bool {
    &&& is_power_function(pw)
    &&& forall|x: A::T, y: A::T, r: A::T|
        val(x) > 0 as real && #[trigger] arith::is_power(a, x, y, r) ==> val(r) == pw(
            val(x),
            val(y),
        )
}

/// Exponentials and logarithms are those of the real numbers.
pub open spec fn is_exact_exponential<A: Arith>(
    a: &A,
    val: spec_fn(A::T) -> real,
    ex: spec_fn(real) -> real,
    lg: spec_fn(real) -> real,
) -> bool {
    &&& forall|x: real| #[trigger] ex(x) > 0 as real
    &&& forall|x: real, y: real| #[trigger] ex(x + y) == ex(x) * ex(y)
    &&& forall|x: real| x > 0 as real ==> ex(#[trigger] lg(x)) == x
    &&& forall|x: A::T, r: A::T| #[trigger] arith::is_exponential(a, x, r) ==> val(r) == ex(val(x))
    &&& forall|x: A::T, r: A::T|
        val(x) > 0 as real && #[trigger] arith::is_logarithm(a, x, r) ==> val(r) == lg(val(x))
}

/// Square roots and reciprocals are those of the real numbers.
pub open spec fn is_exact_root<A: Arith>(a: &A, val: spec_fn(A::T) -> real) -> bool {
    &&& forall|x: A::T, r: A::T|
        val(x) >= 0 as real && #[trigger] arith::is_square_root(a, x, r) ==> val(r) >= 0 as real
            && val(r) * val(r) == val(x)
    &&& forall|x: A::T, r: A::T|
        val(x) != 0 as real && #[trigger] arith::is_reciprocal(a, x, r) ==> val(r) * val(x)
            == 1 as real
}

/// The error function is `erf`, which is odd.
pub open spec fn is_exact_erf<A: Arith>(
    a: &A,
    val: spec_fn(A::T) -> real,
    erf: spec_fn(real) -> real,
) -> bool {
    &&& forall|x: real| erf(-x) == -#[trigger] erf(x)
    &&& forall|x: A::T, y: A::T, r: A::T| #[trigger]
        arith::is_scaled_erf(a, x, y, r) ==> val(r) == erf(val(x) * val(y))
}

/// The power of a multiple of an exponent.
pub proof fn power_of_sum(pw: spec_fn(real, real) -> real, b: real, x: real, n: int)
    requires
        is_power_function(pw),
        b > 0 as real,
        0 <= n,
    ensures
        pw(b, n as real * x) == power(pw(b, x), n),
    decreases n,
{
    let z = 0 as real;
    if n == 0 {
        assert(n as real * x == z) by (nonlinear_arith)
            requires
                n as real == 0 as real,
                z == 0 as real,
        ;
        let o = pw(b, z);
        assert(pw(b, z + z) == o * o);
        assert(z + z == z);
        assert(o == 1 as real) by (nonlinear_arith)
            requires
                o == o * o,
                o > 0 as real,
        ;
    } else {
        power_of_sum(pw, b, x, n - 1);
        let m = (n - 1) as real;
        assert(n as real * x == m * x + x) by (nonlinear_arith)
            requires
                n as real == m + 1 as real,
        ;
        assert(pw(b, m * x + x) == pw(b, m * x) * pw(b, x));
    }
}

/// The exponential of a multiple.
pub proof fn exponential_of_multiple(ex: spec_fn(real) -> real, x: real, n: int)
    requires
        forall|x: real| #[trigger] ex(x) > 0 as real,
        forall|x: real, y: real| #[trigger] ex(x + y) == ex(x) * ex(y),
        0 <= n,
    ensures
        ex(n as real * x) == power(ex(x), n),
    decreases n,
{
    let z = 0 as real;
    if n == 0 {
        assert(n as real * x == z) by (nonlinear_arith)
            requires
                n as real == 0 as real,
                z == 0 as real,
        ;
        let o = ex(z);
        assert(ex(z + z) == o * o);
        assert(z + z == z);
        assert(o == 1 as real) by (nonlinear_arith)
            requires
                o == o * o,
                o > 0 as real,
        ;
    } else {
        exponential_of_multiple(ex, x, n - 1);
        let m = (n - 1) as real;
        assert(n as real * x == m * x + x) by (nonlinear_arith)
            requires
                n as real == m + 1 as real,
        ;
        assert(ex(m * x + x) == ex(m * x) * ex(x));
    }
}

/// The power of a product.
pub proof fn power_of_product(x: real, y: real, n: int)
    ensures
        power(x * y, n) == power(x, n) * power(y, n),
    decreases n,
{
    if n > 0 {
        power_of_product(x, y, n - 1);
        let (p, q) = (power(x, n - 1), power(y, n - 1));
        assert((p * q) * (x * y) == (p * x) * (q * y)) by (nonlinear_arith);
    } else {
        assert((1 as real) * (1 as real) == 1 as real) by (nonlinear_arith);
    }
}

/// The sum of `f(0)` to `f(n - 1)`.
pub open spec fn total(n: int, f: spec_fn(int) -> real) -> real
    decreases n,
{
    if n <= 0 {
        0 as real
    } else {
        total(n - 1, f) + f(n - 1)
    }
}

/// Matrix products are those of the real numbers.
pub open spec fn is_exact_gemm<A: Arith>(a: &A, val: spec_fn(A::T) -> real) -> bool {
    forall|
        g: Gemm,
        lhs: Seq<A::T>,
        rhs: Seq<A::T>,
        scale: A::T,
        p: A::Product,
        i: int,
        j: int,
        r: A::T,
    |
        #[trigger] arith::is_gemm(a, g, lhs, rhs, scale, p) && #[trigger] arith::is_entry(
            a,
            p,
            i,
            j,
            r,
        ) && 0 <= i < g.m && 0 <= j < g.n ==> val(r) == val(scale) * total(
            g.k as int,
            |t: int|
                val(lhs[i * g.lhs_rs + t * g.lhs_cs]) * val(rhs[t * g.rhs_rs + j * g.rhs_cs]),
        )
}

/// Sums of equal numbers are equal.
pub proof fn total_same(n: int, f: spec_fn(int) -> real, g: spec_fn(int) -> real)
    requires
        forall|i: int| 0 <= i < n ==> #[trigger] f(i) == g(i),
    ensures
        total(n, f) == total(n, g),
    decreases n,
{
    if n > 0 {
        total_same(n - 1, f, g);
        assert(f(n - 1) == g(n - 1));
    }
}

/// The sum of sums is the sum of both.
pub proof fn total_sum(n: int, f: spec_fn(int) -> real, g: spec_fn(int) -> real)
    ensures
        total(n, |i: int| f(i) + g(i)) == total(n, f) + total(n, g),
    decreases n,
{
    if n > 0 {
        total_sum(n - 1, f, g);
    }
}

/// A common factor can be taken out of a sum.
pub proof fn total_scaled(n: int, c: real, f: spec_fn(int) -> real)
    ensures
        total(n, |i: int| c * f(i)) == c * total(n, f),
    decreases n,
{
    if n > 0 {
        total_scaled(n - 1, c, f);
        let (t, v) = (total(n - 1, f), f(n - 1));
        assert(c * t + c * v == c * (t + v)) by (nonlinear_arith);
    } else {
        assert(c * (0 as real) == 0 as real) by (nonlinear_arith);
    }
}

/// A sum of nothing but zeros is zero.
pub proof fn total_of_zeros(n: int, f: spec_fn(int) -> real)
    requires
        forall|i: int| 0 <= i < n ==> #[trigger] f(i) == 0 as real,
    ensures
        total(n, f) == 0 as real,
    decreases n,
{
    if n > 0 {
        total_of_zeros(n - 1, f);
        assert(f(n - 1) == 0 as real);
    }
}

/// The order of two sums does not matter.
pub proof fn total_exchanged(m: int, n: int, f: spec_fn(int, int) -> real)
    ensures
        total(m, |i: int| total(n, |j: int| f(i, j))) == total(
            n,
            |j: int| total(m, |i: int| f(i, j)),
        ),
    decreases m,
{
    if m <= 0 {
        total_of_zeros(n, |j: int| total(m, |i: int| f(i, j)));
    } else {
        total_exchanged(m - 1, n, f);
        let rest = |j: int| total(m - 1, |i: int| f(i, j));
        let last = |j: int| f(m - 1, j);
        total_sum(n, rest, last);
        total_same(n, |j: int| rest(j) + last(j), |j: int| total(m, |i: int| f(i, j)));
        total_same(n, last, |j: int| f(m - 1, j));
    }
}

/// A sum in which one term alone counts is that term.
pub proof fn total_of_one(n: int, k: int, f: spec_fn(int) -> real)
    requires
        0 <= k < n,
        forall|i: int| 0 <= i < n && i != k ==> #[trigger] f(i) == 0 as real,
    ensures
        total(n, f) == f(k),
    decreases n,
{
    if k == n - 1 {
        total_of_zeros(n - 1, f);
    } else {
        total_of_one(n - 1, k, f);
        assert(f(n - 1) == 0 as real);
    }
}

/// A sum over pairs, the second counting fastest, is a sum of sums.
pub proof fn total_of_pairs(m: int, n: int, f: spec_fn(int, int) -> real)
    requires
        0 <= m,
        0 < n,
    ensures
        total(m * n, |t: int| f(t / n, t % n)) == total(m, |i: int| total(n, |j: int| f(i, j))),
    decreases m,
{
    let flat = |t: int| f(t / n, t % n);
    if m > 0 {
        total_of_pairs(m - 1, n, f);
        assert(m * n == (m - 1) * n + n) by (nonlinear_arith);
        lemma_total_continued((m - 1) * n, n, flat);
        let (tail, row) = (|j: int| flat((m - 1) * n + j), |j: int| f(m - 1, j));
        assert forall|j: int| 0 <= j < n implies #[trigger] tail(j) == row(j) by {
            index::lemma_pair(m - 1, j, m, n);
        }
        total_same(n, tail, row);
    } else {
        assert(m * n == 0) by (nonlinear_arith)
            requires
                m == 0,
        ;
    }
}

/// A sum of `m + n` terms is one of `m` and one of the `n` after them.
proof fn lemma_total_continued(m: int, n: int, f: spec_fn(int) -> real)
    requires
        0 <= n,
        0 <= m,
    ensures
        total(m + n, f) == total(m, f) + total(n, |j: int| f(m + j)),
    decreases n,
{
    if n > 0 {
        lemma_total_continued(m, n - 1, f);
    }
}

} // verus!
