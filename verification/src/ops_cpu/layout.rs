//! Movements of data between layouts: nothing here computes, every value of a result
//! is a value of the input or a given filler.
use vstd::prelude::*;
use crate::index;

verus! {

/// The tensor `[b, m, n, t]` with its two middle axes exchanged: `[b, n, m, t]`.
pub open spec fn swapped<T>(x: Seq<T>, b: int, m: int, n: int, t: int) -> Seq<T> {
    Seq::new(
        (b * n * m * t) as nat,
        |p: int| x[index::pos4(p / t / m / n, p / t % m, p / t / m % n, p % t, m, n, t)],
    )
}

/// The tensor `[m, n, l]` with its axes in reverse order: `[l, n, m]`.
pub open spec fn reversed<T>(x: Seq<T>, m: int, n: int, l: int) -> Seq<T> {
    Seq::new((l * n * m) as nat, |p: int| x[index::pos3(p % m, p / m % n, p / m / n, n, l)])
}

/// The tensor `[r, n, t]` cut down to the first `keep` entries of its middle axis.
pub open spec fn trimmed<T>(x: Seq<T>, r: int, n: int, t: int, keep: int) -> Seq<T> {
    Seq::new(
        (r * keep * t) as nat,
        |p: int| x[index::pos3(p / t / keep, p / t % keep, p % t, n, t)],
    )
}

/// The matrix `[r, n]` with each row filled up to length `len` by `filler`.
pub open spec fn padded<T>(x: Seq<T>, r: int, n: int, len: int, filler: T) -> Seq<T> {
    Seq::new(
        (r * len) as nat,
        |p: int|
            if p % len < n {
                x[index::pos2(p / len, p % len, n)]
            } else {
                filler
            },
    )
}

/// Copies a buffer.
pub fn to_vec<T: Copy>(x: &[T]) -> (r: Vec<T>)
    ensures
        r@ == x@,
{
    let n: usize = x.len();
    let mut out: Vec<T> = Vec::new();
    let mut i: usize = 0;
    while i < n
        invariant
            i <= n,
            n == x@.len(),
            out@ == x@.take(i as int),
        decreases n - i,
    {
        out.push(x[i]);
        i = i + 1;
        assert(x@.take(i as int) =~= x@.take(i - 1).push(x@[i - 1]));
    }
    assert(x@.take(n as int) =~= x@);
    out
}

/// Exchanges the two middle axes of the tensor `[b, m, n, t]`.
pub fn swap_middle<T: Copy>(x: &[T], b: usize, m: usize, n: usize, t: usize) -> (r: Vec<T>)
    requires
        b * m * n * t <= x@.len(),
    ensures
        r@ == swapped(x@, b as int, m as int, n as int, t as int),
{
    let len_in: usize = x.len();
    let mut out: Vec<T> = Vec::new();
    proof {
        index::lemma_swap_extent(b as int, m as int, n as int, t as int);
    }
    if b == 0 || m == 0 || n == 0 || t == 0 {
        assert(b * n * m * t == 0) by (nonlinear_arith)
            requires
                b == 0 || m == 0 || n == 0 || t == 0,
        ;
        return out;
    }
    proof {
        assert(b * m <= b * m * n * t && b * m * n <= b * m * n * t && b * n <= b * n * m * t
            && b * n * m <= b * n * m * t) by (nonlinear_arith)
            requires
                b > 0,
                m > 0,
                n > 0,
                t > 0,
        ;
    }
    let total: usize = b * m * n * t;
    let mut p: usize = 0;
    while p < total
        invariant
            0 <= p <= total,
            total == b * n * m * t,
            total == b * m * n * t,
            total <= x@.len(),
            len_in == x@.len(),
            out@.len() == p,
            m > 0,
            n > 0,
            t > 0,
            forall|q: int|
                0 <= q < p ==> out@[q] == #[trigger] swapped(
                    x@,
                    b as int,
                    m as int,
                    n as int,
                    t as int,
                )[q],
        decreases total - p,
    {
        let k: usize = p % t;
        let q: usize = p / t;
        let i: usize = q % m;
        let s: usize = q / m;
        let j: usize = s % n;
        let h: usize = s / n;
        proof {
            index::lemma_unquad(p as int, b as int, n as int, m as int, t as int);
            index::lemma_quad(
                h as int,
                i as int,
                j as int,
                k as int,
                b as int,
                m as int,
                n as int,
                t as int,
            );
            index::lemma_within4(
                h as int,
                i as int,
                j as int,
                k as int,
                m as int,
                n as int,
                t as int,
            );
        }
        let src: usize = ((h * m + i) * n + j) * t + k;
        out.push(x[src]);
        p = p + 1;
    }
    out
}

/// Reverses the order of the axes of the tensor `[m, n, l]`.
pub fn reverse_axes<T: Copy>(x: &[T], m: usize, n: usize, l: usize) -> (r: Vec<T>)
    requires
        m * n * l <= x@.len(),
    ensures
        r@ == reversed(x@, m as int, n as int, l as int),
{
    let len_in: usize = x.len();
    let mut out: Vec<T> = Vec::new();
    assert(l * n * m == m * n * l) by (nonlinear_arith);
    if m == 0 || n == 0 || l == 0 {
        assert(l * n * m == 0) by (nonlinear_arith)
            requires
                m == 0 || n == 0 || l == 0,
        ;
        return out;
    }
    proof {
        index::lemma_partial_extent(m * n, l as int, usize::MAX as int);
    }
    let total: usize = m * n * l;
    let mut p: usize = 0;
    while p < total
        invariant
            p <= total,
            total == m * n * l,
            total == l * n * m,
            total <= x@.len(),
            len_in == x@.len(),
            out@.len() == p,
            m > 0,
            n > 0,
            l > 0,
            forall|q: int|
                0 <= q < p ==> out@[q] == #[trigger] reversed(x@, m as int, n as int, l as int)[q],
        decreases total - p,
    {
        let i: usize = p % m;
        let q: usize = p / m;
        let j: usize = q % n;
        let k: usize = q / n;
        proof {
            index::lemma_untriple(p as int, l as int, n as int, m as int);
            index::lemma_triple(i as int, j as int, k as int, m as int, n as int, l as int);
            index::lemma_within3(i as int, j as int, k as int, n as int, l as int);
        }
        let src: usize = (i * n + j) * l + k;
        out.push(x[src]);
        p = p + 1;
    }
    out
}

/// Cuts the tensor `[r, n, t]` down to the first `keep` entries of its middle axis.
pub fn trim_middle<T: Copy>(x: &[T], r: usize, n: usize, t: usize, keep: usize) -> (y: Vec<T>)
    requires
        r * n * t <= x@.len(),
        keep <= n,
    ensures
        y@ == trimmed(x@, r as int, n as int, t as int, keep as int),
{
    let len_in: usize = x.len();
    let mut out: Vec<T> = Vec::new();
    if r == 0 || keep == 0 || t == 0 {
        assert(r * keep * t == 0) by (nonlinear_arith)
            requires
                r == 0 || keep == 0 || t == 0,
        ;
        return out;
    }
    proof {
        assert(r * keep * t <= r * n * t && r * keep <= r * keep * t) by (nonlinear_arith)
            requires
                r > 0,
                t > 0,
                0 < keep <= n,
        ;
    }
    let total: usize = r * keep * t;
    let mut p: usize = 0;
    while p < total
        invariant
            p <= total,
            total == r * keep * t,
            r * n * t <= x@.len(),
            keep <= n,
            len_in == x@.len(),
            out@.len() == p,
            keep > 0,
            t > 0,
            forall|q: int|
                0 <= q < p ==> out@[q] == #[trigger] trimmed(
                    x@,
                    r as int,
                    n as int,
                    t as int,
                    keep as int,
                )[q],
        decreases total - p,
    {
        let k: usize = p % t;
        let q: usize = p / t;
        let j: usize = q % keep;
        let i: usize = q / keep;
        proof {
            index::lemma_untriple(p as int, r as int, keep as int, t as int);
            index::lemma_triple(i as int, j as int, k as int, r as int, n as int, t as int);
            index::lemma_within3(i as int, j as int, k as int, n as int, t as int);
        }
        let src: usize = (i * n + j) * t + k;
        out.push(x[src]);
        p = p + 1;
    }
    out
}

/// Fills each row of the matrix `[r, n]` up to length `len`.
pub fn pad_rows<T: Copy>(x: &[T], r: usize, n: usize, len: usize, filler: T) -> (y: Vec<T>)
    requires
        r * n <= x@.len(),
        n <= len,
        r * len <= usize::MAX,
    ensures
        y@ == padded(x@, r as int, n as int, len as int, filler),
{
    let len_in: usize = x.len();
    let mut out: Vec<T> = Vec::new();
    let total: usize = r * len;
    let mut p: usize = 0;
    while p < total
        invariant
            p <= total,
            total == r * len,
            r * n <= x@.len(),
            n <= len,
            len_in == x@.len(),
            out@.len() == p,
            forall|q: int|
                0 <= q < p ==> out@[q] == #[trigger] padded(
                    x@,
                    r as int,
                    n as int,
                    len as int,
                    filler,
                )[q],
        decreases total - p,
    {
        proof {
            index::lemma_unpair(p as int, r as int, len as int);
        }
        let j: usize = p % len;
        let i: usize = p / len;
        if j < n {
            proof {
                index::lemma_pair(i as int, j as int, r as int, n as int);
                index::lemma_within2(i as int, j as int, n as int);
            }
            out.push(x[i * n + j]);
        } else {
            out.push(filler);
        }
        p = p + 1;
    }
    out
}

/// The element at `(h, j, i, k)` of the tensor with its middle axes exchanged is the one at
/// `(h, i, j, k)`.
pub proof fn swapped_element<T>(
    x: Seq<T>,
    b: int,
    m: int,
    n: int,
    t: int,
    h: int,
    i: int,
    j: int,
    k: int,
)
    requires
        0 <= h < b,
        0 <= i < m,
        0 <= j < n,
        0 <= k < t,
    ensures
        swapped(x, b, m, n, t)[index::pos4(h, j, i, k, n, m, t)] == x[index::pos4(
            h,
            i,
            j,
            k,
            m,
            n,
            t,
        )],
{
    index::lemma_quad(h, j, i, k, b, n, m, t);
}

/// Exchanging the middle axes twice gives the tensor back.
pub proof fn swapped_twice<T>(x: Seq<T>, b: int, m: int, n: int, t: int)
    requires
        0 <= b,
        0 <= m,
        0 <= n,
        0 <= t,
        x.len() == b * m * n * t,
    ensures
        swapped(swapped(x, b, m, n, t), b, n, m, t) == x,
{
    let y = swapped(x, b, m, n, t);
    index::lemma_swap_extent(b, m, n, t);
    assert forall|p: int| 0 <= p < x.len() implies swapped(y, b, n, m, t)[p] == x[p] by {
        index::lemma_unquad(p, b, m, n, t);
        swapped_element(x, b, m, n, t, p / t / n / m, p / t / n % m, p / t % n, p % t);
    }
    assert(swapped(y, b, n, m, t) =~= x);
}

/// The element at `(k, j, i)` of the tensor with its axes in reverse order is the one at
/// `(i, j, k)`.
pub proof fn reversed_element<T>(x: Seq<T>, m: int, n: int, l: int, i: int, j: int, k: int)
    requires
        0 <= i < m,
        0 <= j < n,
        0 <= k < l,
    ensures
        reversed(x, m, n, l)[index::pos3(k, j, i, n, m)] == x[index::pos3(i, j, k, n, l)],
{
    index::lemma_triple(k, j, i, l, n, m);
}

/// Reversing the axes twice gives the tensor back.
pub proof fn reversed_twice<T>(x: Seq<T>, m: int, n: int, l: int)
    requires
        0 <= m,
        0 <= n,
        0 <= l,
        x.len() == m * n * l,
    ensures
        reversed(reversed(x, m, n, l), l, n, m) == x,
{
    let y = reversed(x, m, n, l);
    assert(l * n * m == m * n * l) by (nonlinear_arith);
    assert forall|p: int| 0 <= p < x.len() implies reversed(y, l, n, m)[p] == x[p] by {
        index::lemma_untriple(p, m, n, l);
        reversed_element(x, m, n, l, p / l / n, p / l % n, p % l);
    }
    assert(reversed(y, l, n, m) =~= x);
}

/// Cutting off what was filled in gives the rows back.
pub proof fn padded_then_trimmed<T>(x: Seq<T>, r: int, n: int, len: int, filler: T)
    requires
        0 <= r,
        0 <= n <= len,
        x.len() == r * n,
    ensures
        trimmed(padded(x, r, n, len, filler), r, len, 1, n) == x,
{
    let y = padded(x, r, n, len, filler);
    assert(r * n * 1 == r * n);
    assert forall|p: int| 0 <= p < x.len() implies trimmed(y, r, len, 1, n)[p] == x[p] by {
        index::lemma_unpair(p, r, n);
        index::lemma_pair(p / n, p % n, r, len);
        let q = index::pos2(p / n, p % n, len);
        assert(trimmed(y, r, len, 1, n)[p] == y[index::pos3(p / 1 / n, p / 1 % n, p % 1, len, 1)]);
        assert(index::pos3(p / 1 / n, p / 1 % n, p % 1, len, 1) == q);
        assert(y[q] == x[index::pos2(q / len, q % len, n)]);
    }
    assert(trimmed(y, r, len, 1, n) =~= x);
}

} // verus!
