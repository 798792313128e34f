//! Statistics over parts of a tensor, and the normalizations built on them.
use vstd::prelude::*;
use crate::arith;
use crate::arith::Arith;
use crate::index;
use crate::model::GroupNorm1;
use crate::model::LayerNorm1;

verus! {

/// `p` may be the running totals of `xs`: zero first, then each the last one plus the next
/// element.
pub open spec fn are_running_totals<A: Arith>(a: &A, xs: Seq<A::T>, p: Seq<A::T>) -> bool {
    &&& p.len() == xs.len() + 1
    &&& arith::is_zero(a, p[0])
    &&& forall|j: int| 0 <= j < xs.len() ==> #[trigger] arith::is_sum(a, p[j], xs[j], p[j + 1])
}

/// `r` may be the sum of `xs`, added up from the first to the last, starting from zero.
pub open spec fn is_total<A: Arith>(a: &A, xs: Seq<A::T>, r: A::T) -> bool {
    exists|p: Seq<A::T>| #[trigger] are_running_totals(a, xs, p) && r == p.last()
}

/// `r` may be the sum of `xs` divided by `n`.
pub open spec fn is_mean<A: Arith>(a: &A, xs: Seq<A::T>, n: usize, r: A::T) -> bool {
    exists|s: A::T, c: A::T| #[trigger]
        is_total(a, xs, s) && #[trigger] arith::is_count(a, n as int, c) && arith::is_quotient(a, s, c, r)
}

/// `r` may be `(v - m)^2`.
pub open spec fn is_square_deviation<A: Arith>(a: &A, v: A::T, m: A::T, r: A::T) -> bool {
    exists|d: A::T| #[trigger] arith::is_difference(a, v, m, d) && arith::is_product(a, d, d, r)
}

/// `r` may be the mean of the squared deviations of `xs` from `m`.
pub open spec fn is_variance<A: Arith>(a: &A, xs: Seq<A::T>, m: A::T, n: usize, r: A::T) -> bool {
    exists|sq: Seq<A::T>|
        {
            &&& sq.len() == xs.len()
            &&& forall|j: int|
                0 <= j < xs.len() ==> is_square_deviation(a, xs[j], m, #[trigger] sq[j])
            &&& #[trigger] is_mean(a, sq, n, r)
        }
}

/// `r` may be the square root of `1 / (var + 1e-5)`.
pub open spec fn is_inv_std<A: Arith>(a: &A, var: A::T, r: A::T) -> bool {
    exists|eps: A::T, shifted: A::T, rec: A::T|
        {
            &&& #[trigger] arith::is_ratio(a, 1, 100000, eps)
            &&& #[trigger] arith::is_sum(a, var, eps, shifted)
            &&& #[trigger] arith::is_reciprocal(a, shifted, rec)
            &&& arith::is_square_root(a, rec, r)
        }
}

/// `r` may be `(v - mean) * inv * gain + shift`.
pub open spec fn is_rescaled<A: Arith>(
    a: &A,
    v: A::T,
    mean: A::T,
    inv: A::T,
    gain: A::T,
    shift: A::T,
    r: A::T,
) -> bool {
    exists|d: A::T, e: A::T, f: A::T|
        {
            &&& #[trigger] arith::is_difference(a, v, mean, d)
            &&& #[trigger] arith::is_product(a, d, inv, e)
            &&& #[trigger] arith::is_product(a, e, gain, f)
            &&& arith::is_sum(a, f, shift, r)
        }
}

/// `out` is `xs` shifted to mean zero and scaled to variance one, then scaled and shifted by
/// the entries `j / l` of `gamma` and `beta`.
pub open spec fn is_normalized<A: Arith>(
    a: &A,
    xs: Seq<A::T>,
    l: int,
    gamma: Seq<A::T>,
    beta: Seq<A::T>,
    out: Seq<A::T>,
) -> bool {
    exists|mean: A::T, var: A::T, inv: A::T|
        {
            &&& #[trigger] is_mean(a, xs, xs.len() as usize, mean)
            &&& #[trigger] is_variance(a, xs, mean, xs.len() as usize, var)
            &&& #[trigger] is_inv_std(a, var, inv)
            &&& out.len() == xs.len()
            &&& forall|j: int|
                0 <= j < xs.len() ==> is_rescaled(
                    a,
                    xs[j],
                    mean,
                    inv,
                    gamma[j / l],
                    beta[j / l],
                    #[trigger] out[j],
                )
        }
}

/// The `k`-th run of `n` elements.
pub open spec fn run<T>(x: Seq<T>, k: int, n: int) -> Seq<T> {
    x.subrange(k * n, (k + 1) * n)
}

/// `out` is `x` with each run of `c * l` elements normalized; entry `j / l` of `gamma` and
/// `beta` belongs to element `j` of a run.
#[verifier::opaque]
pub open spec fn is_run_normalized<A: Arith>(
    a: &A,
    x: Seq<A::T>,
    c: int,
    l: int,
    gamma: Seq<A::T>,
    beta: Seq<A::T>,
    out: Seq<A::T>,
) -> bool {
    &&& out.len() == x.len()
    &&& forall|k: int|
        0 <= k < x.len() as int / (c * l) ==> is_normalized(
            a,
            run(x, k, c * l),
            l,
            gamma,
            beta,
            #[trigger] run(out, k, c * l),
        )
}

/// Adds up the elements `lo..hi` of `x`.
pub fn total<A: Arith>(a: &A, x: &[A::T], lo: usize, hi: usize) -> (r: A::T)
    requires
        lo <= hi <= x@.len(),
    ensures
        is_total(a, x@.subrange(lo as int, hi as int), r),
{
    let mut s: A::T = arith::zero(a);
    let ghost mut p = seq![s];
    let mut i: usize = lo;
    assert(are_running_totals(a, x@.subrange(lo as int, i as int), p));
    while i < hi
        invariant
            lo <= i <= hi <= x@.len(),
            are_running_totals(a, x@.subrange(lo as int, i as int), p),
            s == p.last(),
        decreases hi - i,
    {
        let next: A::T = arith::plus(a, s, x[i]);
        proof {
            let xs = x@.subrange(lo as int, i as int);
            let ys = x@.subrange(lo as int, i + 1);
            let q = p.push(next);
            assert forall|j: int| 0 <= j < ys.len() implies #[trigger] arith::is_sum(
                a,
                q[j],
                ys[j],
                q[j + 1],
            ) by {
                if j < xs.len() {
                    assert(arith::is_sum(a, p[j], xs[j], p[j + 1]));
                }
            }
            p = q;
        }
        s = next;
        i = i + 1;
    }
    s
}

/// The mean of the elements `lo..hi` of `x`.
pub fn mean<A: Arith>(a: &A, x: &[A::T], lo: usize, hi: usize) -> (r: A::T)
    requires
        lo <= hi <= x@.len(),
    ensures
        is_mean(a, x@.subrange(lo as int, hi as int), (hi - lo) as usize, r),
{
    let s: A::T = total(a, x, lo, hi);
    let c: A::T = arith::count(a, hi - lo);
    arith::over(a, s, c)
}

/// The variance about `m` of the elements `lo..hi` of `x`.
pub fn variance<A: Arith>(a: &A, x: &[A::T], lo: usize, hi: usize, m: A::T) -> (r: A::T)
    requires
        lo <= hi <= x@.len(),
    ensures
        is_variance(a, x@.subrange(lo as int, hi as int), m, (hi - lo) as usize, r),
{
    let mut sq: Vec<A::T> = Vec::new();
    let mut i: usize = lo;
    while i < hi
        invariant
            lo <= i <= hi <= x@.len(),
            sq@.len() == i - lo,
            forall|j: int|
                0 <= j < i - lo ==> is_square_deviation(a, x@[lo + j], m, #[trigger] sq@[j]),
        decreases hi - i,
    {
        let d: A::T = arith::minus(a, x[i], m);
        let q: A::T = arith::times(a, d, d);
        assert(is_square_deviation(a, x@[i as int], m, q));
        sq.push(q);
        i = i + 1;
    }
    let r: A::T = mean(a, sq.as_slice(), 0, hi - lo);
    proof {
        assert(sq@.subrange(0, hi - lo) =~= sq@);
        assert(is_mean(a, sq@, (hi - lo) as usize, r));
    }
    r
}

/// The square root of `1 / (var + 1e-5)`.
fn inv_std<A: Arith>(a: &A, var: A::T) -> (r: A::T)
    ensures
        is_inv_std(a, var, r),
{
    let eps: A::T = arith::ratio(a, 1, 100000);
    let shifted: A::T = arith::plus(a, var, eps);
    let rec: A::T = arith::reciprocal(a, shifted);
    arith::square_root(a, rec)
}

/// Normalizes the elements `lo..lo + n` of `x`.
fn normalize_run<A: Arith>(
    a: &A,
    x: &mut [A::T],
    lo: usize,
    n: usize,
    l: usize,
    gamma: &[A::T],
    beta: &[A::T],
)
    requires
        lo + n <= old(x)@.len(),
        l > 0,
        n <= l * gamma@.len(),
        n <= l * beta@.len(),
    ensures
        final(x)@.len() == old(x)@.len(),
        forall|j: int|
            0 <= j < old(x)@.len() && !(lo <= j < lo + n) ==> final(x)@[j] == old(x)@[j],
        is_normalized(
            a,
            old(x)@.subrange(lo as int, lo + n),
            l as int,
            gamma@,
            beta@,
            final(x)@.subrange(lo as int, lo + n),
        ),
{
    let len: usize = x.len();
    let m: A::T = mean(a, x, lo, lo + n);
    let var: A::T = variance(a, x, lo, lo + n, m);
    let inv: A::T = inv_std(a, var);
    let ghost xs = old(x)@.subrange(lo as int, lo + n);
    let mut i: usize = 0;
    while i < n
        invariant
            i <= n,
            lo + n <= len,
            len == x@.len(),
            len == old(x)@.len(),
            l > 0,
            n <= l * gamma@.len(),
            n <= l * beta@.len(),
            xs == old(x)@.subrange(lo as int, lo + n),
            forall|j: int| 0 <= j < len && !(lo <= j < lo + i) ==> x@[j] == old(x)@[j],
            forall|j: int|
                0 <= j < i ==> is_rescaled(
                    a,
                    xs[j],
                    m,
                    inv,
                    gamma@[j / l as int],
                    beta@[j / l as int],
                    #[trigger] x@.subrange(lo as int, lo + n)[j],
                ),
        decreases n - i,
    {
        proof {
            assert((i as int) < l * gamma@.len());
            assert((i as int) < l * beta@.len());
            assert(i as int / l as int >= 0 && (i as int / l as int) < gamma@.len()) by (nonlinear_arith)
                requires
                    0 <= i,
                    (i as int) < l * gamma@.len(),
                    l > 0,
            ;
            assert((i as int / l as int) < beta@.len()) by (nonlinear_arith)
                requires
                    0 <= i,
                    (i as int) < l * beta@.len(),
                    l > 0,
            ;
        }
        let c: usize = i / l;
        let ghost before = x@;
        let v: A::T = x[lo + i];
        let d: A::T = arith::minus(a, v, m);
        let e: A::T = arith::times(a, d, inv);
        let f: A::T = arith::times(a, e, gamma[c]);
        let r: A::T = arith::plus(a, f, beta[c]);
        assert(is_rescaled(a, v, m, inv, gamma@[c as int], beta@[c as int], r));
        assert(v == xs[i as int]);
        x[lo + i] = r;
        assert forall|j: int| 0 <= j < i + 1 implies is_rescaled(
            a,
            xs[j],
            m,
            inv,
            gamma@[j / l as int],
            beta@[j / l as int],
            #[trigger] x@.subrange(lo as int, lo + n)[j],
        ) by {
            if j < i {
                assert(x@.subrange(lo as int, lo + n)[j] == before.subrange(lo as int, lo + n)[j]);
            }
        }
        i = i + 1;
    }
    proof {
        assert(xs.len() == n);
        assert(is_mean(a, xs, xs.len() as usize, m));
    }
}

/// Normalizes each run of `c * l` elements of `x`.
fn normalize_runs<A: Arith>(
    a: &A,
    x: &mut [A::T],
    c: usize,
    l: usize,
    gamma: &[A::T],
    beta: &[A::T],
)
    requires
        0 < c * l <= usize::MAX,
        old(x)@.len() % (c * l) as nat == 0,
        c <= gamma@.len(),
        c <= beta@.len(),
    ensures
        final(x)@.len() == old(x)@.len(),
        is_run_normalized(a, old(x)@, c as int, l as int, gamma@, beta@, final(x)@),
{
    proof {
        reveal(is_run_normalized);
    }
    let len: usize = x.len();
    let n: usize = c * l;
    let runs: usize = len / n;
    proof {
        assert(l > 0) by (nonlinear_arith)
            requires
                0 < c * l,
                c >= 0,
                l >= 0,
        ;
        assert(n <= l * gamma@.len()) by (nonlinear_arith)
            requires
                n == c * l,
                c <= gamma@.len(),
                l > 0,
        ;
        assert(n <= l * beta@.len()) by (nonlinear_arith)
            requires
                n == c * l,
                c <= beta@.len(),
                l > 0,
        ;
        assert(runs * n == len) by (nonlinear_arith)
            requires
                runs == len / n,
                len % n == 0,
                n > 0,
        ;
    }
    let mut k: usize = 0;
    while k < runs
        invariant
            k <= runs,
            runs * n == len,
            n > 0,
            l > 0,
            n <= l * gamma@.len(),
            n <= l * beta@.len(),
            len == x@.len(),
            len == old(x)@.len(),
            forall|j: int| k * n <= j < len ==> x@[j] == old(x)@[j],
            forall|i: int|
                0 <= i < k ==> is_normalized(
                    a,
                    run(old(x)@, i, n as int),
                    l as int,
                    gamma@,
                    beta@,
                    #[trigger] run(x@, i, n as int),
                ),
        decreases runs - k,
    {
        proof {
            assert(0 <= k * n && (k + 1) * n <= runs * n && (k + 1) * n == k * n + n)
                by (nonlinear_arith)
                requires
                    0 <= k < runs,
                    n > 0,
            ;
        }
        let lo: usize = k * n;
        let ghost before = x@;
        normalize_run(a, x, lo, n, l, gamma, beta);
        proof {
            assert(run(old(x)@, k as int, n as int) =~= before.subrange(lo as int, lo + n));
            assert forall|i: int| 0 <= i < k + 1 implies is_normalized(
                a,
                run(old(x)@, i, n as int),
                l as int,
                gamma@,
                beta@,
                #[trigger] run(x@, i, n as int),
            ) by {
                if i < k {
                    assert(0 <= i * n && (i + 1) * n <= k * n && (i + 1) * n == i * n + n)
                        by (nonlinear_arith)
                        requires
                            0 <= i < k,
                            n > 0,
                    ;
                    assert(run(x@, i, n as int) =~= run(before, i, n as int));
                }
            }
        }
        k = k + 1;
    }
}

/// Group normalization with one group of a `[B, C, L]` tensor: each batch entry is
/// normalized over its channels and positions together.
pub fn groupnorm1<A: Arith>(a: &A, x: &mut [A::T], shape: [usize; 3], gn: &GroupNorm1<A::T>)
    requires
        shape[1] > 0,
        shape[2] > 0,
        shape[1] * shape[2] <= usize::MAX,
        old(x)@.len() % (shape[1] * shape[2]) as nat == 0,
        shape[1] <= gn.gamma@.len(),
        shape[1] <= gn.beta@.len(),
    ensures
        final(x)@.len() == old(x)@.len(),
        is_run_normalized(
            a,
            old(x)@,
            shape[1] as int,
            shape[2] as int,
            gn.gamma@,
            gn.beta@,
            final(x)@,
        ),
{
    proof {
        index::lemma_runs(1, shape[1] as int, shape[2] as int);
    }
    normalize_runs(a, x, shape[1], shape[2], gn.gamma.as_slice(), gn.beta.as_slice())
}

/// Layer normalization of a `[B, S, D]` tensor along its last axis.
pub fn layernorm<A: Arith>(a: &A, x: &mut [A::T], shape: [usize; 3], ln: &LayerNorm1<A::T>)
    requires
        shape[2] == ln.dim,
        shape[2] > 0,
        old(x)@.len() % (shape[2] as nat) == 0,
        shape[2] <= ln.gamma@.len(),
        shape[2] <= ln.beta@.len(),
    ensures
        final(x)@.len() == old(x)@.len(),
        is_run_normalized(a, old(x)@, shape[2] as int, 1, ln.gamma@, ln.beta@, final(x)@),
{
    normalize_runs(a, x, shape[2], 1, ln.gamma.as_slice(), ln.beta.as_slice())
}

} // verus!
