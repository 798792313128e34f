//! Softmax.
use vstd::prelude::*;
use crate::arith;
use crate::arith::Arith;
use crate::index;
use crate::ops_cpu::layout;
use crate::ops_cpu::norm;

verus! {

/// `r` is the larger of `m` and `v`: `v` where the comparison says that it is greater.
pub open spec fn is_raised<A: Arith>(a: &A, m: A::T, v: A::T, r: A::T) -> bool {
    exists|g: bool| #[trigger]
        arith::is_greater(a, v, m, g) && r == (if g {
            v
        } else {
            m
        })
}

/// `p` may be the running maxima of `xs`: the lowest number first, then each the last one
/// raised to the next element.
pub open spec fn are_running_maxima<A: Arith>(a: &A, xs: Seq<A::T>, p: Seq<A::T>) -> bool {
    &&& p.len() == xs.len() + 1
    &&& arith::is_lowest(a, p[0])
    &&& forall|j: int| 0 <= j < xs.len() ==> #[trigger] is_raised(a, p[j], xs[j], p[j + 1])
}

/// `r` may be the maximum of `xs`.
pub open spec fn is_maximum<A: Arith>(a: &A, xs: Seq<A::T>, r: A::T) -> bool {
    exists|p: Seq<A::T>| #[trigger] are_running_maxima(a, xs, p) && r == p.last()
}

/// `r` may be `e^(v - m)`.
pub open spec fn is_shifted_exp<A: Arith>(a: &A, v: A::T, m: A::T, r: A::T) -> bool {
    exists|d: A::T| #[trigger] arith::is_difference(a, v, m, d) && arith::is_exponential(a, d, r)
}

/// `es` are the exponentials of `xs`, each less `m`.
pub open spec fn are_shifted_exps<A: Arith>(a: &A, xs: Seq<A::T>, m: A::T, es: Seq<A::T>) -> bool {
    &&& es.len() == xs.len()
    &&& forall|j: int| 0 <= j < xs.len() ==> is_shifted_exp(a, xs[j], m, #[trigger] es[j])
}

/// `out` is the softmax of `xs`: the exponentials, each less the maximum, divided by their
/// sum.
pub open spec fn is_softmax<A: Arith>(a: &A, xs: Seq<A::T>, out: Seq<A::T>) -> bool {
    exists|m: A::T, es: Seq<A::T>, s: A::T, one: A::T, inv: A::T|
        {
            &&& #[trigger] is_maximum(a, xs, m)
            &&& #[trigger] are_shifted_exps(a, xs, m, es)
            &&& #[trigger] norm::is_total(a, es, s)
            &&& arith::is_ratio(a, 1, 1, one)
            &&& #[trigger] arith::is_quotient(a, one, s, inv)
            &&& out.len() == xs.len()
            &&& forall|j: int|
                0 <= j < xs.len() ==> arith::is_product(a, es[j], inv, #[trigger] out[j])
        }
}

/// `out` is `x` with softmax applied to each run of `n` elements.
#[verifier::opaque]
pub open spec fn is_run_softmax<A: Arith>(a: &A, x: Seq<A::T>, n: int, out: Seq<A::T>) -> bool {
    &&& out.len() == x.len()
    &&& forall|k: int|
        0 <= k < x.len() as int / n ==> is_softmax(
            a,
            norm::run(x, k, n),
            #[trigger] norm::run(out, k, n),
        )
}

/// The maximum of the elements `lo..hi` of `x`.
fn maximum<A: Arith>(a: &A, x: &[A::T], lo: usize, hi: usize) -> (r: A::T)
    requires
        lo <= hi <= x@.len(),
    ensures
        is_maximum(a, x@.subrange(lo as int, hi as int), r),
{
    let mut m: A::T = arith::lowest(a);
    let ghost mut p = seq![m];
    let mut i: usize = lo;
    assert(are_running_maxima(a, x@.subrange(lo as int, i as int), p));
    while i < hi
        invariant
            lo <= i <= hi <= x@.len(),
            are_running_maxima(a, x@.subrange(lo as int, i as int), p),
            m == p.last(),
        decreases hi - i,
    {
        let v: A::T = x[i];
        let g: bool = arith::greater(a, v, m);
        let next: A::T = if g {
            v
        } else {
            m
        };
        proof {
            assert(is_raised(a, m, v, next));
            let xs = x@.subrange(lo as int, i as int);
            let ys = x@.subrange(lo as int, i + 1);
            let q = p.push(next);
            assert forall|j: int| 0 <= j < ys.len() implies #[trigger] is_raised(
                a,
                q[j],
                ys[j],
                q[j + 1],
            ) by {
                if j < xs.len() {
                    assert(is_raised(a, p[j], xs[j], p[j + 1]));
                }
            }
            p = q;
        }
        m = next;
        i = i + 1;
    }
    m
}

/// Applies softmax to the elements `lo..lo + n` of `x`.
fn softmax_run<A: Arith>(a: &A, x: &mut [A::T], lo: usize, n: usize)
    requires
        lo + n <= old(x)@.len(),
    ensures
        final(x)@.len() == old(x)@.len(),
        forall|j: int|
            0 <= j < old(x)@.len() && !(lo <= j < lo + n) ==> final(x)@[j] == old(x)@[j],
        is_softmax(
            a,
            old(x)@.subrange(lo as int, lo + n),
            final(x)@.subrange(lo as int, lo + n),
        ),
{
    let len: usize = x.len();
    let ghost xs = old(x)@.subrange(lo as int, lo + n);
    let m: A::T = maximum(a, x, lo, lo + n);
    let mut es: Vec<A::T> = Vec::new();
    let mut i: usize = 0;
    while i < n
        invariant
            i <= n,
            lo + n <= len,
            len == x@.len(),
            x@ == old(x)@,
            xs == old(x)@.subrange(lo as int, lo + n),
            es@.len() == i,
            forall|j: int| 0 <= j < i ==> is_shifted_exp(a, xs[j], m, #[trigger] es@[j]),
        decreases n - i,
    {
        let d: A::T = arith::minus(a, x[lo + i], m);
        let e: A::T = arith::exponential(a, d);
        assert(is_shifted_exp(a, xs[i as int], m, e));
        es.push(e);
        i = i + 1;
    }
    let s: A::T = norm::total(a, es.as_slice(), 0, n);
    assert(es@.subrange(0, n as int) =~= es@);
    let one: A::T = arith::ratio(a, 1, 1);
    let inv: A::T = arith::over(a, one, s);
    let mut k: usize = 0;
    while k < n
        invariant
            k <= n,
            lo + n <= len,
            len == x@.len(),
            len == old(x)@.len(),
            es@.len() == n,
            forall|j: int| 0 <= j < len && !(lo <= j < lo + k) ==> x@[j] == old(x)@[j],
            forall|j: int|
                0 <= j < k ==> arith::is_product(
                    a,
                    es@[j],
                    inv,
                    #[trigger] x@.subrange(lo as int, lo + n)[j],
                ),
        decreases n - k,
    {
        let ghost before = x@;
        let v: A::T = arith::times(a, es[k], inv);
        x[lo + k] = v;
        assert forall|j: int| 0 <= j < k + 1 implies arith::is_product(
            a,
            es@[j],
            inv,
            #[trigger] x@.subrange(lo as int, lo + n)[j],
        ) by {
            if j < k {
                assert(x@.subrange(lo as int, lo + n)[j] == before.subrange(lo as int, lo + n)[j]);
            }
        }
        k = k + 1;
    }
    assert(are_shifted_exps(a, xs, m, es@));
}

/// Applies softmax to each run of `n` elements of `x`.
pub fn softmax_runs<A: Arith>(a: &A, x: &mut [A::T], n: usize)
    requires
        n > 0,
        old(x)@.len() % (n as nat) == 0,
    ensures
        final(x)@.len() == old(x)@.len(),
        is_run_softmax(a, old(x)@, n as int, final(x)@),
{
    let len: usize = x.len();
    let runs: usize = len / n;
    proof {
        assert(runs * n == len) by (nonlinear_arith)
            requires
                runs == len / n,
                len % n == 0,
                n > 0,
        ;
    }
    let mut k: usize = 0;
    while k < runs
        invariant
            k <= runs,
            runs * n == len,
            n > 0,
            len == x@.len(),
            len == old(x)@.len(),
            forall|j: int| k * n <= j < len ==> x@[j] == old(x)@[j],
            forall|i: int|
                0 <= i < k ==> is_softmax(
                    a,
                    norm::run(old(x)@, i, n as int),
                    #[trigger] norm::run(x@, i, n as int),
                ),
        decreases runs - k,
    {
        proof {
            assert(0 <= k * n && (k + 1) * n <= runs * n && (k + 1) * n == k * n + n)
                by (nonlinear_arith)
                requires
                    0 <= k < runs,
                    n > 0,
            ;
        }
        let lo: usize = k * n;
        let ghost before = x@;
        softmax_run(a, x, lo, n);
        proof {
            assert(norm::run(old(x)@, k as int, n as int) =~= before.subrange(lo as int, lo + n));
            assert forall|i: int| 0 <= i < k + 1 implies is_softmax(
                a,
                norm::run(old(x)@, i, n as int),
                #[trigger] norm::run(x@, i, n as int),
            ) by {
                if i < k {
                    assert(0 <= i * n && (i + 1) * n <= k * n && (i + 1) * n == i * n + n)
                        by (nonlinear_arith)
                        requires
                            0 <= i < k,
                            n > 0,
                    ;
                    assert(norm::run(x@, i, n as int) =~= norm::run(before, i, n as int));
                }
            }
        }
        k = k + 1;
    }
    proof {
        reveal(is_run_softmax);
    }
}

/// Softmax of a `[B, S, D]` tensor along its sequence axis, which is axis 1, the one axis
/// that is supported.
pub fn softmax<A: Arith>(a: &A, x: &mut [A::T], shape: [usize; 3], axis: usize)
    requires
        axis == 1,
        index::size3(shape) <= old(x)@.len(),
    ensures
        final(x)@.len() == old(x)@.len(),
        shape[1] == 0 ==> final(x)@ == old(x)@,
        shape[1] > 0 ==> exists|y: Seq<A::T>| #[trigger]
            is_run_softmax(
                a,
                layout::swapped(old(x)@, shape[0] as int, shape[1] as int, shape[2] as int, 1),
                shape[1] as int,
                y,
            ) && final(x)@ =~= layout::swapped(
                y,
                shape[0] as int,
                shape[2] as int,
                shape[1] as int,
                1,
            ) + old(x)@.skip(index::size3(shape)),
{
    let b: usize = shape[0];
    let s: usize = shape[1];
    let d: usize = shape[2];
    if s == 0 {
        return;
    }
    let len: usize = x.len();
    let mut lanes: Vec<A::T> = layout::swap_middle(x, b, s, d, 1);
    proof {
        assert(b * d * s * 1 == b * s * d && (b * d) * s == b * d * s * 1) by (nonlinear_arith);
        index::lemma_extent(b as int, s as int);
        index::lemma_extent(b * s, d as int);
        index::lemma_extent(b as int, d as int);
        if b * d > 0 {
            index::lemma_runs(b * d, s as int, 1);
        }
        vstd::arithmetic::div_mod::lemma_mod_multiples_basic(b * d, s as int);
    }
    softmax_runs(a, &mut lanes, s);
    let ghost y = lanes@;
    let back: Vec<A::T> = layout::swap_middle(&lanes, b, d, s, 1);
    let n: usize = back.len();
    proof {
        assert(n == index::size3(shape)) by {
            assert(b * s * d * 1 == b * s * d);
        }
    }
    let mut i: usize = 0;
    while i < n
        invariant
            i <= n <= len,
            n == back@.len(),
            len == x@.len(),
            len == old(x)@.len(),
            forall|j: int| 0 <= j < i ==> x@[j] == back@[j],
            forall|j: int| i <= j < len ==> x@[j] == old(x)@[j],
        decreases n - i,
    {
        x[i] = back[i];
        i = i + 1;
    }
    assert(x@ =~= back@ + old(x)@.skip(n as int));
}

} // verus!
