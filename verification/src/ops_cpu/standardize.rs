//! Shifting and scaling of whole batch entries to mean zero and deviation one, and back.
use vstd::prelude::*;
use crate::arith;
use crate::arith::Arith;
use crate::index;
use crate::ops_cpu::norm;

verus! {

/// `m` and `d` may be the mean and the standard deviation of `xs`.
pub open spec fn are_stats<A: Arith>(a: &A, xs: Seq<A::T>, m: A::T, d: A::T) -> bool {
    &&& norm::is_mean(a, xs, xs.len() as usize, m)
    &&& exists|v: A::T| #[trigger]
        norm::is_variance(a, xs, m, xs.len() as usize, v) && arith::is_square_root(a, v, d)
}

/// `mean` and `std` hold the mean and the standard deviation of each of the `b` runs of `n`
/// elements.
#[verifier::opaque]
pub open spec fn are_batch_stats<A: Arith>(
    a: &A,
    x: Seq<A::T>,
    b: int,
    n: int,
    mean: Seq<A::T>,
    std: Seq<A::T>,
) -> bool {
    &&& mean.len() == b
    &&& std.len() == b
    &&& forall|i: int|
        #![trigger mean[i]]
        0 <= i < b ==> are_stats(a, norm::run(x, i, n), mean[i], std[i])
}

/// `r` may be `(v - m) / (d + 1e-5)`.
pub open spec fn is_standardized_value<A: Arith>(
    a: &A,
    v: A::T,
    m: A::T,
    d: A::T,
    r: A::T,
) -> bool {
    exists|eps: A::T, s: A::T, e: A::T|
        {
            &&& #[trigger] arith::is_ratio(a, 1, 100000, eps)
            &&& #[trigger] arith::is_sum(a, d, eps, s)
            &&& #[trigger] arith::is_difference(a, v, m, e)
            &&& arith::is_quotient(a, e, s, r)
        }
}

/// `out` is `x` with the elements of each of the `b` runs of `n` elements standardized.
#[verifier::opaque]
pub open spec fn is_standardized<A: Arith>(
    a: &A,
    x: Seq<A::T>,
    b: int,
    n: int,
    mean: Seq<A::T>,
    std: Seq<A::T>,
    out: Seq<A::T>,
) -> bool {
    &&& out.len() == x.len()
    &&& forall|i: int|
        0 <= i < x.len() ==> if i < b * n {
            is_standardized_value(a, x[i], mean[i / n], std[i / n], #[trigger] out[i])
        } else {
            out[i] == x[i]
        }
}

/// `r` may be `v * d + m`.
pub open spec fn is_restored_value<A: Arith>(a: &A, v: A::T, m: A::T, d: A::T, r: A::T) -> bool {
    exists|p: A::T| #[trigger] arith::is_product(a, v, d, p) && arith::is_sum(a, p, m, r)
}

/// `out` is `x` with the elements of each of the `b` runs of `n` elements scaled and shifted
/// back.
#[verifier::opaque]
pub open spec fn is_restored<A: Arith>(
    a: &A,
    x: Seq<A::T>,
    b: int,
    n: int,
    mean: Seq<A::T>,
    std: Seq<A::T>,
    out: Seq<A::T>,
) -> bool {
    &&& out.len() == x.len()
    &&& forall|i: int|
        0 <= i < x.len() ==> if i < b * n {
            is_restored_value(a, x[i], mean[i / n], std[i / n], #[trigger] out[i])
        } else {
            out[i] == x[i]
        }
}

/// The mean and the standard deviation of each of the `b` runs of `n` elements.
fn per_batch_mean_std<A: Arith>(
    a: &A,
    x: &[A::T],
    b: usize,
    n: usize,
) -> (r: (Vec<A::T>, Vec<A::T>))
    requires
        b * n <= x@.len(),
    ensures
        are_batch_stats(a, x@, b as int, n as int, r.0@, r.1@),
        r.0@.len() == b,
        r.1@.len() == b,
{
    let len: usize = x.len();
    let mut mean: Vec<A::T> = Vec::new();
    let mut std: Vec<A::T> = Vec::new();
    let mut i: usize = 0;
    while i < b
        invariant
            i <= b,
            b * n <= x@.len(),
            len == x@.len(),
            mean@.len() == i,
            std@.len() == i,
            forall|j: int|
                #![trigger mean@[j]]
                0 <= j < i ==> are_stats(a, norm::run(x@, j, n as int), mean@[j], std@[j]),
        decreases b - i,
    {
        proof {
            assert(0 <= i * n && (i + 1) * n <= b * n && (i + 1) * n == i * n + n)
                by (nonlinear_arith)
                requires
                    0 <= i < b,
                    n >= 0,
            ;
        }
        let lo: usize = i * n;
        let m: A::T = norm::mean(a, x, lo, lo + n);
        let v: A::T = norm::variance(a, x, lo, lo + n, m);
        let d: A::T = arith::square_root(a, v);
        proof {
            assert(norm::run(x@, i as int, n as int) == x@.subrange(lo as int, lo + n));
            assert(are_stats(a, norm::run(x@, i as int, n as int), m, d));
        }
        mean.push(m);
        std.push(d);
        i = i + 1;
    }
    proof {
        reveal(are_batch_stats);
    }
    (mean, std)
}

/// Standardizes each of the `b` runs of `n` elements.
fn standardize<A: Arith>(a: &A, x: &[A::T], b: usize, n: usize, mean: &[A::T], std: &[A::T]) -> (r: Vec<
    A::T,
>)
    requires
        b * n <= x@.len(),
        mean@.len() == b,
        std@.len() == b,
    ensures
        r@.len() == x@.len(),
        is_standardized(a, x@, b as int, n as int, mean@, std@, r@),
{
    let len: usize = x.len();
    let total: usize = b * n;
    let mut out: Vec<A::T> = Vec::new();
    let mut i: usize = 0;
    while i < len
        invariant
            i <= len,
            len == x@.len(),
            total == b * n,
            mean@.len() == b,
            std@.len() == b,
            out@.len() == i,
            forall|j: int|
                0 <= j < i ==> if j < b * n {
                    is_standardized_value(
                        a,
                        x@[j],
                        mean@[j / n as int],
                        std@[j / n as int],
                        #[trigger] out@[j],
                    )
                } else {
                    out@[j] == x@[j]
                },
        decreases len - i,
    {
        if i < total {
            proof {
                index::lemma_unpair(i as int, b as int, n as int);
            }
            let k: usize = i / n;
            let eps: A::T = arith::ratio(a, 1, 100000);
            let s: A::T = arith::plus(a, std[k], eps);
            let e: A::T = arith::minus(a, x[i], mean[k]);
            let v: A::T = arith::over(a, e, s);
            assert(is_standardized_value(a, x@[i as int], mean@[k as int], std@[k as int], v));
            out.push(v);
        } else {
            out.push(x[i]);
        }
        i = i + 1;
    }
    proof {
        reveal(is_standardized);
    }
    out
}

/// Scales and shifts each of the `b` runs of `n` elements back.
fn restore<A: Arith>(a: &A, x: &mut [A::T], b: usize, n: usize, mean: &[A::T], std: &[A::T])
    requires
        b * n <= old(x)@.len(),
        b <= mean@.len(),
        b <= std@.len(),
    ensures
        final(x)@.len() == old(x)@.len(),
        is_restored(a, old(x)@, b as int, n as int, mean@, std@, final(x)@),
{
    let len: usize = x.len();
    let total: usize = b * n;
    let mut i: usize = 0;
    while i < total
        invariant
            i <= total <= len,
            total == b * n,
            len == x@.len(),
            len == old(x)@.len(),
            b <= mean@.len(),
            b <= std@.len(),
            forall|j: int| i <= j < len ==> x@[j] == old(x)@[j],
            forall|j: int|
                0 <= j < i ==> is_restored_value(
                    a,
                    old(x)@[j],
                    mean@[j / n as int],
                    std@[j / n as int],
                    #[trigger] x@[j],
                ),
        decreases total - i,
    {
        proof {
            index::lemma_unpair(i as int, b as int, n as int);
        }
        let k: usize = i / n;
        let v: A::T = x[i];
        let p: A::T = arith::times(a, v, std[k]);
        let r: A::T = arith::plus(a, p, mean[k]);
        assert(is_restored_value(a, v, mean@[k as int], std@[k as int], r));
        x[i] = r;
        i = i + 1;
    }
    proof {
        reveal(is_restored);
    }
}

/// Number of elements of one batch entry of a `[B, C, H, W]` tensor.
pub open spec fn per_batch4(s: [usize; 4]) -> int {
    s[1] * s[2] * s[3]
}

/// Number of elements of one batch entry of a `[B, C, L]` tensor.
pub open spec fn per_batch3(s: [usize; 3]) -> int {
    s[1] * s[2]
}

/// Standardizes each batch entry of a `[B, C, H, W]` tensor: `(x - mean) / (std + 1e-5)`.
/// Gives the result, the means and the deviations, each with its shape.
pub fn normalize_freq<A: Arith>(a: &A, x: &[A::T], shape: [usize; 4]) -> (r: (
    Vec<A::T>,
    [usize; 4],
    Vec<A::T>,
    [usize; 4],
    Vec<A::T>,
    [usize; 4],
))
    requires
        shape[1] * shape[2] <= usize::MAX,
        per_batch4(shape) <= usize::MAX,
        shape[0] * per_batch4(shape) <= x@.len(),
    ensures
        r.0@.len() == x@.len(),
        r.1 == shape,
        r.2@.len() == shape[0],
        r.3 == [shape[0], 1, 1, 1],
        r.4@.len() == shape[0],
        r.5 == [shape[0], 1, 1, 1],
        are_batch_stats(a, x@, shape[0] as int, per_batch4(shape), r.2@, r.4@),
        is_standardized(a, x@, shape[0] as int, per_batch4(shape), r.2@, r.4@, r.0@),
{
    let b: usize = shape[0];
    let n: usize = shape[1] * shape[2] * shape[3];
    let (mean, std) = per_batch_mean_std(a, x, b, n);
    let out: Vec<A::T> = standardize(a, x, b, n, &mean, &std);
    (out, shape, mean, [b, 1, 1, 1], std, [b, 1, 1, 1])
}

/// Standardizes each batch entry of a `[B, C, L]` tensor: `(x - mean) / (std + 1e-5)`.
/// Gives the result, the means and the deviations, each with its shape.
pub fn normalize_time<A: Arith>(a: &A, x: &[A::T], shape: [usize; 3]) -> (r: (
    Vec<A::T>,
    [usize; 3],
    Vec<A::T>,
    [usize; 3],
    Vec<A::T>,
    [usize; 3],
))
    requires
        per_batch3(shape) <= usize::MAX,
        shape[0] * per_batch3(shape) <= x@.len(),
    ensures
        r.0@.len() == x@.len(),
        r.1 == shape,
        r.2@.len() == shape[0],
        r.3 == [shape[0], 1, 1],
        r.4@.len() == shape[0],
        r.5 == [shape[0], 1, 1],
        are_batch_stats(a, x@, shape[0] as int, per_batch3(shape), r.2@, r.4@),
        is_standardized(a, x@, shape[0] as int, per_batch3(shape), r.2@, r.4@, r.0@),
{
    let b: usize = shape[0];
    let n: usize = shape[1] * shape[2];
    let (mean, std) = per_batch_mean_std(a, x, b, n);
    let out: Vec<A::T> = standardize(a, x, b, n, &mean, &std);
    (out, shape, mean, [b, 1, 1], std, [b, 1, 1])
}

/// Brings each batch entry of a `[B, C, H, W]` tensor back: `x * std + mean`. The batch
/// entries are `x.len() / B` elements each, whatever the rest of the shape says.
pub fn denormalize_freq<A: Arith>(
    a: &A,
    x: &mut [A::T],
    shape: [usize; 4],
    mean: &[A::T],
    std: &[A::T],
)
    requires
        shape[0] > 0,
        shape[0] <= mean@.len(),
        shape[0] <= std@.len(),
    ensures
        final(x)@.len() == old(x)@.len(),
        is_restored(
            a,
            old(x)@,
            shape[0] as int,
            old(x)@.len() as int / shape[0] as int,
            mean@,
            std@,
            final(x)@,
        ),
{
    let b: usize = shape[0];
    let len: usize = x.len();
    let n: usize = len / b;
    proof {
        vstd::arithmetic::div_mod::lemma_fundamental_div_mod(len as int, b as int);
    }
    restore(a, x, b, n, mean, std)
}

/// Brings each batch entry of a `[B, C, L]` tensor back: `x * std + mean`. The batch entries
/// are `x.len() / B` elements each, whatever the rest of the shape says.
pub fn denormalize_time<A: Arith>(
    a: &A,
    x: &mut [A::T],
    shape: [usize; 3],
    mean: &[A::T],
    std: &[A::T],
)
    requires
        shape[0] > 0,
        shape[0] <= mean@.len(),
        shape[0] <= std@.len(),
    ensures
        final(x)@.len() == old(x)@.len(),
        is_restored(
            a,
            old(x)@,
            shape[0] as int,
            old(x)@.len() as int / shape[0] as int,
            mean@,
            std@,
            final(x)@,
        ),
{
    let b: usize = shape[0];
    let len: usize = x.len();
    let n: usize = len / b;
    proof {
        vstd::arithmetic::div_mod::lemma_fundamental_div_mod(len as int, b as int);
    }
    restore(a, x, b, n, mean, std)
}

} // verus!
