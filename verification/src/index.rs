//! Row-major positions: how a position in a flat buffer and the coordinates of a
//! tensor determine each other.
use vstd::prelude::*;
use vstd::arithmetic::div_mod;

verus! {

/// Position of `(i, j)` in a row-major matrix with rows of length `n`.
pub open spec fn pos2(i: int, j: int, n: int) -> int {
    i * n + j
}

/// Position of `(i, j, k)` in a row-major tensor whose last two extents are `n` and `l`.
pub open spec fn pos3(i: int, j: int, k: int, n: int, l: int) -> int {
    pos2(pos2(i, j, n), k, l)
}

/// Position of `(h, i, j, k)` in a row-major tensor whose last three extents are `m`,
/// `n` and `l`.
pub open spec fn pos4(h: int, i: int, j: int, k: int, m: int, n: int, l: int) -> int {
    pos2(pos3(h, i, j, m, n), k, l)
}

/// Number of elements of a tensor with three axes.
pub open spec fn size3(s: [usize; 3]) -> int {
    s[0] * s[1] * s[2]
}

/// Number of elements of a tensor with four axes.
pub open spec fn size4(s: [usize; 4]) -> int {
    s[0] * s[1] * s[2] * s[3]
}

/// Coordinates inside the extents give a position inside the buffer, from which both
/// can be read back.
pub proof fn lemma_pair(i: int, j: int, m: int, n: int)
    requires
        0 <= i < m,
        0 <= j < n,
    ensures
        0 <= pos2(i, j, n) < m * n,
        pos2(i, j, n) / n == i,
        pos2(i, j, n) % n == j,
{
    assert(i * n + j < m * n) by (nonlinear_arith)
        requires
            0 <= i < m,
            0 <= j < n,
    ;
    assert(0 <= i * n) by (nonlinear_arith)
        requires
            0 <= i,
            0 < n,
    ;
    div_mod::lemma_fundamental_div_mod_converse(i * n + j, n, i, j);
}

/// A position inside the buffer gives coordinates inside the extents.
pub proof fn lemma_unpair(p: int, m: int, n: int)
    requires
        0 <= p < m * n,
        0 <= n,
    ensures
        n > 0,
        0 <= p / n < m,
        0 <= p % n < n,
        p == pos2(p / n, p % n, n),
{
    assert(n > 0) by (nonlinear_arith)
        requires
            0 <= p < m * n,
            0 <= n,
    ;
    div_mod::lemma_fundamental_div_mod(p, n);
    assert(n * (p / n) == (p / n) * n) by (nonlinear_arith);
    assert(0 <= p / n < m) by (nonlinear_arith)
        requires
            0 <= p < m * n,
            p == n * (p / n) + p % n,
            0 <= p % n < n,
            n > 0,
    ;
}

/// A product of extents is not below zero.
pub proof fn lemma_extent(m: int, n: int)
    requires
        0 <= m,
        0 <= n,
    ensures
        0 <= m * n,
{
    assert(0 <= m * n) by (nonlinear_arith)
        requires
            0 <= m,
            0 <= n,
    ;
}

/// Three coordinates inside the extents: the position is inside the buffer, and the
/// coordinates can be read back.
pub proof fn lemma_triple(i: int, j: int, k: int, m: int, n: int, l: int)
    requires
        0 <= i < m,
        0 <= j < n,
        0 <= k < l,
    ensures
        0 <= pos3(i, j, k, n, l) < m * n * l,
        pos3(i, j, k, n, l) / l / n == i,
        pos3(i, j, k, n, l) / l % n == j,
        pos3(i, j, k, n, l) % l == k,
{
    lemma_pair(i, j, m, n);
    lemma_pair(pos2(i, j, n), k, m * n, l);
}

/// A position in a buffer of three extents gives three coordinates.
pub proof fn lemma_untriple(p: int, m: int, n: int, l: int)
    requires
        0 <= p < m * n * l,
        0 <= n,
        0 <= l,
    ensures
        n > 0,
        l > 0,
        0 <= p / l / n < m,
        0 <= p / l % n < n,
        0 <= p % l < l,
        p == pos3(p / l / n, p / l % n, p % l, n, l),
{
    lemma_unpair(p, m * n, l);
    lemma_unpair(p / l, m, n);
}

/// Four coordinates inside the extents: the position is inside the buffer, and the
/// coordinates can be read back.
pub proof fn lemma_quad(h: int, i: int, j: int, k: int, o: int, m: int, n: int, l: int)
    requires
        0 <= h < o,
        0 <= i < m,
        0 <= j < n,
        0 <= k < l,
    ensures
        0 <= pos4(h, i, j, k, m, n, l) < o * m * n * l,
        pos4(h, i, j, k, m, n, l) / l / n / m == h,
        pos4(h, i, j, k, m, n, l) / l / n % m == i,
        pos4(h, i, j, k, m, n, l) / l % n == j,
        pos4(h, i, j, k, m, n, l) % l == k,
{
    lemma_triple(h, i, j, o, m, n);
    lemma_pair(pos3(h, i, j, m, n), k, o * m * n, l);
}

/// A position in a buffer of four extents gives four coordinates.
pub proof fn lemma_unquad(p: int, o: int, m: int, n: int, l: int)
    requires
        0 <= p < o * m * n * l,
        0 <= m,
        0 <= n,
        0 <= l,
    ensures
        m > 0,
        n > 0,
        l > 0,
        0 <= p / l / n / m < o,
        0 <= p / l / n % m < m,
        0 <= p / l % n < n,
        0 <= p % l < l,
        p == pos4(p / l / n / m, p / l / n % m, p / l % n, p % l, m, n, l),
{
    lemma_unpair(p, o * m * n, l);
    lemma_untriple(p / l, o, m, n);
}

/// The partial results in computing a position do not exceed it.
pub proof fn lemma_within2(i: int, j: int, n: int)
    requires
        0 <= i,
        0 <= j,
        0 <= n,
    ensures
        0 <= i * n <= pos2(i, j, n),
{
    assert(0 <= i * n) by (nonlinear_arith)
        requires
            0 <= i,
            0 <= n,
    ;
}

/// The partial results in computing a position do not exceed it.
pub proof fn lemma_within3(i: int, j: int, k: int, n: int, l: int)
    requires
        0 <= i,
        0 <= j,
        0 <= k,
        0 < n,
        0 < l,
    ensures
        0 <= i * n <= pos2(i, j, n) <= pos2(i, j, n) * l <= pos3(i, j, k, n, l),
{
    lemma_within2(i, j, n);
    lemma_within2(pos2(i, j, n), k, l);
    lemma_partial_extent(pos2(i, j, n), l, pos2(i, j, n) * l);
}

/// The partial results in computing a position do not exceed it.
pub proof fn lemma_within4(h: int, i: int, j: int, k: int, m: int, n: int, l: int)
    requires
        0 <= h,
        0 <= i,
        0 <= j,
        0 <= k,
        0 < m,
        0 < n,
        0 < l,
    ensures
        0 <= h * m <= pos2(h, i, m) <= pos2(h, i, m) * n <= pos3(h, i, j, m, n),
        pos3(h, i, j, m, n) <= pos3(h, i, j, m, n) * l <= pos4(h, i, j, k, m, n, l),
{
    lemma_within3(h, i, j, m, n);
    lemma_within2(pos3(h, i, j, m, n), k, l);
    lemma_partial_extent(pos3(h, i, j, m, n), l, pos3(h, i, j, m, n) * l);
}

/// The product of four extents does not depend on the order of the middle two.
pub proof fn lemma_swap_extent(o: int, m: int, n: int, l: int)
    ensures
        o * m * n * l == o * n * m * l,
{
    assert(o * m * n * l == o * n * m * l) by (nonlinear_arith);
}

/// A factor of a product that fits leaves a product that fits.
pub proof fn lemma_partial_extent(m: int, n: int, max: int)
    requires
        0 <= m,
        0 < n,
        m * n <= max,
    ensures
        m <= max,
        m <= m * n,
{
    assert(m <= m * n) by (nonlinear_arith)
        requires
            0 <= m,
            0 < n,
    ;
}

/// A tensor `[b, c, l]` consists of `b` runs of `c * l` elements.
pub proof fn lemma_runs(b: int, c: int, l: int)
    requires
        0 <= b,
        0 < c,
        0 < l,
    ensures
        0 < c * l,
        0 <= b * c * l,
        b * c * l == b * (c * l),
        (b * c * l) % (c * l) == 0,
        (b * c * l) / (c * l) == b,
{
    assert(0 < c * l) by (nonlinear_arith)
        requires
            0 < c,
            0 < l,
    ;
    assert(b * c * l == b * (c * l) + 0) by (nonlinear_arith);
    lemma_extent(b, c * l);
    div_mod::lemma_fundamental_div_mod_converse(b * (c * l), c * l, b, 0);
}

/// `r` is `n` where that fits in `usize`, else nothing.
pub open spec fn fitted(n: int, r: Option<usize>) -> bool {
    match r {
        Some(p) => p == n,
        None => n > usize::MAX,
    }
}

/// The product of three extents, where it fits.
pub fn product3(a: usize, b: usize, c: usize) -> (r: Option<usize>)
    ensures
        fitted(a * b * c, r),
{
    if a == 0 || b == 0 || c == 0 {
        assert(a * b * c == 0) by (nonlinear_arith)
            requires
                a == 0 || b == 0 || c == 0,
        ;
        return Some(0);
    }
    match a.checked_mul(b) {
        None => {
            assert(a * b <= a * b * c) by (nonlinear_arith)
                requires
                    a >= 1,
                    b >= 1,
                    c >= 1,
            ;
            None
        },
        Some(p) => p.checked_mul(c),
    }
}

/// The product of four extents, where it fits.
pub fn product4(a: usize, b: usize, c: usize, d: usize) -> (r: Option<usize>)
    ensures
        fitted(a * b * c * d, r),
{
    if d == 0 {
        assert(a * b * c * d == 0) by (nonlinear_arith)
            requires
                d == 0,
        ;
        return Some(0);
    }
    match product3(a, b, c) {
        None => {
            assert(a * b * c <= a * b * c * d) by (nonlinear_arith)
                requires
                    a * b * c >= 0,
                    d >= 1,
            ;
            None
        },
        Some(p) => p.checked_mul(d),
    }
}

} // verus!
