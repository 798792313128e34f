//! Long audio in overlapping chunks: where the chunks lie, and how their results are put
//! together.
use vstd::prelude::*;
use crate::arith;
use crate::arith::Arith;
use crate::TRAINING_LENGTH;

verus! {

/// Distance from the start of one chunk to the start of the next: three quarters of a chunk.
pub const CHUNK_STRIDE: usize = 257985;

/// `x / d`, rounded up.
pub open spec fn ceil_div(x: int, d: int) -> int {
    (x + d - 1) / d
}

/// Number of chunks that `n` samples are processed in.
pub open spec fn chunk_count(n: int) -> int {
    if n <= TRAINING_LENGTH {
        1
    } else {
        ceil_div(n - TRAINING_LENGTH, CHUNK_STRIDE as int) + 1
    }
}

/// First sample of chunk `i`.
pub open spec fn chunk_start(i: int) -> int {
    i * CHUNK_STRIDE
}

/// End of chunk `i` of `n` samples.
pub open spec fn chunk_end(n: int, i: int) -> int {
    if chunk_start(i) + TRAINING_LENGTH <= n {
        chunk_start(i) + TRAINING_LENGTH
    } else {
        n
    }
}

/// What rounding up in [`chunk_count`] gives.
proof fn lemma_count(n: int)
    requires
        n > TRAINING_LENGTH,
    ensures
        ({
            let k = chunk_count(n) - 1;
            &&& k >= 1
            &&& k * CHUNK_STRIDE >= n - TRAINING_LENGTH
            &&& (k - 1) * CHUNK_STRIDE < n - TRAINING_LENGTH
        }),
{
    let x = n - TRAINING_LENGTH;
    let d = CHUNK_STRIDE as int;
    vstd::arithmetic::div_mod::lemma_fundamental_div_mod(x + d - 1, d);
    let k = (x + d - 1) / d;
    assert(d * k == k * d) by (nonlinear_arith);
    assert((k - 1) * d == k * d - d) by (nonlinear_arith);
    assert(k >= 1) by (nonlinear_arith)
        requires
            k * d >= x,
            x >= 1,
            d >= 1,
    ;
}

/// Audio is processed in one chunk exactly if it is no longer than a chunk.
pub proof fn one_chunk_iff_short(n: int)
    requires
        n >= 0,
    ensures
        chunk_count(n) >= 1,
        chunk_count(n) == 1 <==> n <= TRAINING_LENGTH,
{
    if n > TRAINING_LENGTH {
        lemma_count(n);
    }
}

/// Every chunk lies inside the audio, is not empty, and is no longer than a segment; every
/// chunk but the last is a whole segment.
pub proof fn chunks_inside(n: int, i: int)
    requires
        n > 0,
        0 <= i < chunk_count(n),
    ensures
        0 <= chunk_start(i) < chunk_end(n, i) <= n,
        chunk_end(n, i) - chunk_start(i) <= TRAINING_LENGTH,
        i + 1 < chunk_count(n) ==> chunk_end(n, i) - chunk_start(i) == TRAINING_LENGTH,
{
    if n > TRAINING_LENGTH {
        lemma_count(n);
        let k = chunk_count(n) - 1;
        assert(0 <= i * CHUNK_STRIDE <= k * CHUNK_STRIDE) by (nonlinear_arith)
            requires
                0 <= i <= k,
        ;
        assert((k - 1) * CHUNK_STRIDE == k * CHUNK_STRIDE - CHUNK_STRIDE) by (nonlinear_arith);
        if i < k {
            assert(i * CHUNK_STRIDE <= (k - 1) * CHUNK_STRIDE) by (nonlinear_arith)
                requires
                    i <= k - 1,
            ;
        }
    }
}

/// The last chunk ends where the audio ends, and no earlier one does.
pub proof fn last_chunk_ends_audio(n: int, i: int)
    requires
        n > 0,
        0 <= i < chunk_count(n),
    ensures
        i == chunk_count(n) - 1 <==> chunk_end(n, i) == n,
{
    if n > TRAINING_LENGTH {
        lemma_count(n);
        let k = chunk_count(n) - 1;
        if i < k {
            assert(i * CHUNK_STRIDE <= (k - 1) * CHUNK_STRIDE) by (nonlinear_arith)
                requires
                    i <= k - 1,
            ;
        }
    }
}

/// Each chunk overlaps the next by a quarter of a segment.
pub proof fn chunks_overlap(n: int, i: int)
    requires
        n > 0,
        0 <= i,
        i + 1 < chunk_count(n),
    ensures
        chunk_start(i + 1) < chunk_end(n, i),
        chunk_end(n, i) - chunk_start(i + 1) == TRAINING_LENGTH / 4,
{
    chunks_inside(n, i);
    assert((i + 1) * CHUNK_STRIDE == i * CHUNK_STRIDE + CHUNK_STRIDE) by (nonlinear_arith);
}

/// Every sample lies in some chunk.
pub proof fn chunks_cover(n: int, t: int) -> (i: int)
    requires
        0 <= t < n,
    ensures
        0 <= i < chunk_count(n),
        chunk_start(i) <= t < chunk_end(n, i),
{
    if n <= TRAINING_LENGTH {
        0
    } else {
        lemma_count(n);
        let k = chunk_count(n) - 1;
        let d = CHUNK_STRIDE as int;
        let j = t / d;
        vstd::arithmetic::div_mod::lemma_fundamental_div_mod(t, d);
        assert(d * j == j * d) by (nonlinear_arith);
        assert(j >= 0) by (nonlinear_arith)
            requires
                t >= 0,
                d > 0,
                j == t / d,
        ;
        if j <= k {
            assert(j * CHUNK_STRIDE <= t < j * CHUNK_STRIDE + CHUNK_STRIDE);
            j
        } else {
            assert(k * d <= j * d) by (nonlinear_arith)
                requires
                    k <= j,
                    d > 0,
            ;
            last_chunk_ends_audio(n, k);
            k
        }
    }
}

/// Number of chunks that `n_samples` samples are processed in.
pub fn num_chunks(n_samples: usize) -> (r: usize)
    ensures
        r == chunk_count(n_samples as int),
{
    if n_samples <= TRAINING_LENGTH {
        return 1;
    }
    let rest: usize = n_samples - TRAINING_LENGTH;
    let whole: usize = rest / CHUNK_STRIDE;
    proof {
        let d = CHUNK_STRIDE as int;
        vstd::arithmetic::div_mod::lemma_fundamental_div_mod(rest as int, d);
        let q = rest as int / d;
        let m = rest as int % d;
        if m == 0 {
            vstd::arithmetic::div_mod::lemma_fundamental_div_mod_converse(
                rest + d - 1,
                d,
                q,
                d - 1,
            );
        } else {
            assert(rest + d - 1 == (q + 1) * d + (m - 1)) by (nonlinear_arith)
                requires
                    rest == d * q + m,
            ;
            vstd::arithmetic::div_mod::lemma_fundamental_div_mod_converse(
                rest + d - 1,
                d,
                q + 1,
                m - 1,
            );
        }
    }
    if rest % CHUNK_STRIDE == 0 {
        whole + 1
    } else {
        whole + 2
    }
}

/// `r` may be `1 - |2 * i / (n - 1) - 1|`.
pub open spec fn is_triangle_value<A: Arith>(a: &A, n: int, i: int, r: A::T) -> bool {
    exists|two: A::T, k: A::T, m: A::T, den: A::T, q: A::T, one: A::T, e: A::T, f: A::T|
        {
            &&& arith::is_ratio(a, 2, 1, two)
            &&& #[trigger] arith::is_count(a, i, k)
            &&& #[trigger] arith::is_product(a, two, k, m)
            &&& #[trigger] arith::is_count(a, n - 1, den)
            &&& #[trigger] arith::is_quotient(a, m, den, q)
            &&& arith::is_ratio(a, 1, 1, one)
            &&& #[trigger] arith::is_difference(a, q, one, e)
            &&& #[trigger] arith::is_magnitude(a, e, f)
            &&& arith::is_difference(a, one, f, r)
        }
}

/// `out` is the triangular window of length `n`: from zero at the edges to one in the middle,
/// or just one where there is no more than one sample.
pub open spec fn is_triangular<A: Arith>(a: &A, n: int, out: Seq<A::T>) -> bool {
    &&& out.len() == n
    &&& forall|i: int|
        #![trigger out[i]]
        0 <= i < n ==> if n <= 1 {
            arith::is_ratio(a, 1, 1, out[i])
        } else {
            is_triangle_value(a, n, i, out[i])
        }
}

/// The triangular window of length `n`.
pub fn triangular_window<A: Arith>(a: &A, n: usize) -> (r: Vec<A::T>)
    ensures
        is_triangular(a, n as int, r@),
{
    let mut out: Vec<A::T> = Vec::new();
    if n <= 1 {
        if n == 1 {
            let one: A::T = arith::ratio(a, 1, 1);
            out.push(one);
        }
        return out;
    }
    let mut i: usize = 0;
    while i < n
        invariant
            i <= n,
            n > 1,
            out@.len() == i,
            forall|j: int| 0 <= j < i ==> is_triangle_value(a, n as int, j, #[trigger] out@[j]),
        decreases n - i,
    {
        let two: A::T = arith::ratio(a, 2, 1);
        let k: A::T = arith::count(a, i);
        let m: A::T = arith::times(a, two, k);
        let den: A::T = arith::count(a, n - 1);
        let q: A::T = arith::over(a, m, den);
        let one: A::T = arith::ratio(a, 1, 1);
        let e: A::T = arith::minus(a, q, one);
        let f: A::T = arith::magnitude(a, e);
        let r: A::T = arith::minus(a, one, f);
        assert(is_triangle_value(a, n as int, i as int, r));
        out.push(r);
        i = i + 1;
    }
    out
}

/// `r` may be `x + w * v`.
pub open spec fn is_weighted_sum<A: Arith>(a: &A, x: A::T, w: A::T, v: A::T, r: A::T) -> bool {
    exists|p: A::T| #[trigger] arith::is_product(a, w, v, p) && arith::is_sum(a, x, p, r)
}

/// `out` is `x` with `win * v` added from `start` on.
pub open spec fn is_window_added<A: Arith>(
    a: &A,
    x: Seq<A::T>,
    start: int,
    win: Seq<A::T>,
    v: Seq<A::T>,
    out: Seq<A::T>,
) -> bool {
    &&& out.len() == x.len()
    &&& forall|t: int|
        #![trigger out[t]]
        0 <= t < x.len() ==> if start <= t < start + win.len() {
            is_weighted_sum(a, x[t], win[t - start], v[t - start], out[t])
        } else {
            out[t] == x[t]
        }
}

/// Adds `win * v` to `x` from `start` on.
pub fn add_windowed<A: Arith>(a: &A, x: &mut Vec<A::T>, start: usize, win: &[A::T], v: &[A::T])
    requires
        start + win@.len() <= old(x)@.len() <= usize::MAX,
        win@.len() <= v@.len(),
    ensures
        final(x)@.len() == old(x)@.len(),
        is_window_added(a, old(x)@, start as int, win@, v@, final(x)@),
{
    let n: usize = win.len();
    let mut i: usize = 0;
    while i < n
        invariant
            i <= n,
            n == win@.len(),
            n <= v@.len(),
            start + n <= x@.len() <= usize::MAX,
            x@.len() == old(x)@.len(),
            forall|t: int|
                #![trigger x@[t]]
                0 <= t < x@.len() ==> if start <= t < start + i {
                    is_weighted_sum(a, old(x)@[t], win@[t - start], v@[t - start], x@[t])
                } else {
                    x@[t] == old(x)@[t]
                },
        decreases n - i,
    {
        let b: A::T = x[start + i];
        let p: A::T = arith::times(a, win[i], v[i]);
        let r: A::T = arith::plus(a, b, p);
        assert(is_weighted_sum(a, b, win@[i as int], v@[i as int], r));
        x[start + i] = r;
        i = i + 1;
    }
}

/// `out` is `x` with `win` added from `start` on.
pub open spec fn is_weight_added<A: Arith>(
    a: &A,
    x: Seq<A::T>,
    start: int,
    win: Seq<A::T>,
    out: Seq<A::T>,
) -> bool {
    &&& out.len() == x.len()
    &&& forall|t: int|
        #![trigger out[t]]
        0 <= t < x.len() ==> if start <= t < start + win.len() {
            arith::is_sum(a, x[t], win[t - start], out[t])
        } else {
            out[t] == x[t]
        }
}

/// Adds `win` to `x` from `start` on.
pub fn add_weight<A: Arith>(a: &A, x: &mut Vec<A::T>, start: usize, win: &[A::T])
    requires
        start + win@.len() <= old(x)@.len() <= usize::MAX,
    ensures
        final(x)@.len() == old(x)@.len(),
        is_weight_added(a, old(x)@, start as int, win@, final(x)@),
{
    let n: usize = win.len();
    let mut i: usize = 0;
    while i < n
        invariant
            i <= n,
            n == win@.len(),
            start + n <= x@.len() <= usize::MAX,
            x@.len() == old(x)@.len(),
            forall|t: int|
                #![trigger x@[t]]
                0 <= t < x@.len() ==> if start <= t < start + i {
                    arith::is_sum(a, old(x)@[t], win@[t - start], x@[t])
                } else {
                    x@[t] == old(x)@[t]
                },
        decreases n - i,
    {
        let r: A::T = arith::plus(a, x[start + i], win[i]);
        x[start + i] = r;
        i = i + 1;
    }
}

/// `r` is `x / w` where the comparison says that `w` is greater than zero, else `x`.
pub open spec fn is_unweighted_value<A: Arith>(a: &A, x: A::T, w: A::T, r: A::T) -> bool {
    exists|z: A::T, g: bool|
        {
            &&& #[trigger] arith::is_zero(a, z)
            &&& #[trigger] arith::is_greater(a, w, z, g)
            &&& if g {
                arith::is_quotient(a, x, w, r)
            } else {
                r == x
            }
        }
}

/// `out` is `x` divided by the weights `w`, where they are greater than zero.
pub open spec fn is_unweighted<A: Arith>(
    a: &A,
    x: Seq<A::T>,
    w: Seq<A::T>,
    out: Seq<A::T>,
) -> bool {
    &&& out.len() == x.len()
    &&& forall|t: int| 0 <= t < x.len() ==> is_unweighted_value(a, x[t], w[t], #[trigger] out[t])
}

/// Divides `x` by the weights `w`, where they are greater than zero.
pub fn unweight<A: Arith>(a: &A, x: &[A::T], w: &[A::T]) -> (r: Vec<A::T>)
    requires
        x@.len() <= w@.len(),
    ensures
        is_unweighted(a, x@, w@, r@),
{
    let n: usize = x.len();
    let mut out: Vec<A::T> = Vec::new();
    let mut i: usize = 0;
    while i < n
        invariant
            i <= n,
            n == x@.len(),
            n <= w@.len(),
            out@.len() == i,
            forall|t: int|
                0 <= t < i ==> is_unweighted_value(a, x@[t], w@[t], #[trigger] out@[t]),
        decreases n - i,
    {
        let z: A::T = arith::zero(a);
        let g: bool = arith::greater(a, w[i], z);
        let r: A::T = if g {
            arith::over(a, x[i], w[i])
        } else {
            x[i]
        };
        assert(is_unweighted_value(a, x@[i as int], w@[i as int], r));
        out.push(r);
        i = i + 1;
    }
    out
}

} // verus!
