//! What the embeddings of positions say: waves whose rates fall geometrically.
use vstd::prelude::*;
use crate::arith;
use crate::arith::Arith;
use crate::exact;
use crate::index;
use crate::ops_cpu::embedding;

verus! {

/// The larger of `n` and one.
pub open spec fn at_least_one(n: int) -> int {
    if n < 1 {
        1
    } else {
        n
    }
}

/// `f` is the phase of `pos` at step `i` of `n` equal ones, as factors, from `pos` itself down to
/// `pos / 10000`: the `n`-th power of `pos / f` is the `i`-th power of 10000.
pub open spec fn falls_by(f: real, pos: int, i: int, n: int) -> bool {
    &&& f >= 0 as real
    &&& exact::power(f, n) * exact::power(10000 as real, i) == exact::power(pos as real, n)
}

/// A power of a power, where the exponent is a quotient.
proof fn lemma_root(pw: spec_fn(real, real) -> real, i: int, n: int)
    requires
        exact::is_power_function(pw),
        0 <= i,
        0 < n,
    ensures
        exact::power(pw(10000 as real, i as real / n as real), n) == exact::power(
            10000 as real,
            i,
        ),
{
    let b = 10000 as real;
    let (x, y) = (i as real, n as real);
    let e = x / y;
    exact::power_of_sum(pw, b, e, n);
    exact::power_of_sum(pw, b, 1 as real, i);
    assert(y * e == x) by (nonlinear_arith)
        requires
            e == x / y,
            y > 0 as real,
    ;
    assert(x * (1 as real) == x) by (nonlinear_arith);
}

/// A phase falls as it should.
proof fn lemma_phase<A: Arith>(
    a: &A,
    val: spec_fn(A::T) -> real,
    pw: spec_fn(real, real) -> real,
    pos: int,
    i: int,
    half: int,
    f: A::T,
)
    requires
        exact::is_exact(a, val),
        exact::is_exact_order(a, val),
        exact::is_exact_power(a, val, pw),
        0 <= pos <= usize::MAX,
        0 <= i < half <= usize::MAX,
        embedding::is_phase(a, pos, i, half, f),
    ensures
        falls_by(val(f), pos, i, at_least_one(half - 1)),
        i == 0 ==> val(f) == pos as real,
        0 < i == half - 1 ==> val(f) == pos as real / 10000 as real,
{
    let m = at_least_one(half - 1);
    let (n, den, e, base, w, p) = choose|
        n: A::T,
        den: A::T,
        e: A::T,
        base: A::T,
        w: A::T,
        p: A::T,
    |
        {
            &&& #[trigger] arith::is_count(a, i, n)
            &&& #[trigger] embedding::is_exponent_divisor(a, half, den)
            &&& #[trigger] arith::is_quotient(a, n, den, e)
            &&& arith::is_ratio(a, 10000, 1, base)
            &&& #[trigger] arith::is_power(a, base, e, w)
            &&& #[trigger] arith::is_count(a, pos, p)
            &&& arith::is_quotient(a, p, w, f)
        };
    assert((10000 as real) / (1 as real) == 10000 as real) by (nonlinear_arith);
    assert((1 as real) / (1 as real) == 1 as real) by (nonlinear_arith);
    let b = 10000 as real;
    assert(val(den) == m as real);
    assert(val(e) == i as real / m as real);
    let u = val(w);
    assert(u == pw(b, i as real / m as real));
    assert(u > 0 as real);
    let (x, y) = (val(f), pos as real);
    assert(x == y / u);
    assert(x * u == y && x >= 0 as real) by (nonlinear_arith)
        requires
            x == y / u,
            u > 0 as real,
            y >= 0 as real,
    ;
    exact::power_of_product(x, u, m);
    lemma_root(pw, i, m);
    if i == 0 {
        let z = 0 as real;
        assert(z / (m as real) == z) by (nonlinear_arith)
            requires
                m as real > z,
                z == 0 as real,
        ;
        exact::power_of_sum(pw, b, 1 as real, 0);
        assert(z * (1 as real) == z) by (nonlinear_arith);
        assert(y / (1 as real) == y) by (nonlinear_arith);
    }
    if 0 < i == half - 1 {
        let q = m as real;
        assert(q / q == 1 as real) by (nonlinear_arith)
            requires
                q > 0 as real,
        ;
    }
}

/// Position `pos` is embedded as the cosines and the sines of one and the same series of phases,
/// which falls in equal steps, as factors, from `pos` to `pos / 10000`, however many there are; a
/// feature without a partner is zero.
pub proof fn embedding_in_time<A: Arith>(
    a: &A,
    val: spec_fn(A::T) -> real,
    pw: spec_fn(real, real) -> real,
    seq_len: int,
    d_model: int,
    out: Seq<A::T>,
    pos: int,
    i: int,
) -> (r: (A::T, A::T))
    requires
        exact::is_exact(a, val),
        exact::is_exact_order(a, val),
        exact::is_exact_power(a, val, pw),
        0 <= pos < seq_len <= usize::MAX,
        0 <= i < d_model / 2,
        d_model <= usize::MAX,
        embedding::is_embed_1d(a, seq_len, d_model, out),
    ensures
        arith::is_cosine(a, r.0, out[pos * d_model + i]),
        arith::is_sine(a, r.1, out[pos * d_model + d_model / 2 + i]),
        falls_by(val(r.0), pos, i, at_least_one(d_model / 2 - 1)),
        falls_by(val(r.1), pos, i, at_least_one(d_model / 2 - 1)),
        i == 0 ==> val(r.0) == pos as real && val(r.1) == pos as real,
        0 < i == d_model / 2 - 1 ==> val(r.0) == pos as real / 10000 as real && val(r.1)
            == pos as real / 10000 as real,
        d_model % 2 == 1 ==> arith::is_zero(a, out[pos * d_model + d_model - 1]),
{
    reveal(embedding::is_embed_1d);
    let half = d_model / 2;
    index::lemma_pair(pos, i, seq_len, d_model);
    index::lemma_pair(pos, half + i, seq_len, d_model);
    index::lemma_pair(pos, d_model - 1, seq_len, d_model);
    let (x, y) = (out[pos * d_model + i], out[pos * d_model + (half + i)]);
    let z = out[pos * d_model + (d_model - 1)];
    let f = choose|f: A::T| #[trigger]
        embedding::is_phase(a, pos, i, half, f) && arith::is_cosine(a, f, x);
    let g = choose|g: A::T| #[trigger]
        embedding::is_phase(a, pos, i, half, g) && arith::is_sine(a, g, y);
    lemma_phase(a, val, pw, pos, i, half, f);
    lemma_phase(a, val, pw, pos, i, half, g);
    (f, g)
}

/// The rate of a wave on the grid.
proof fn lemma_rate<A: Arith>(
    a: &A,
    val: spec_fn(A::T) -> real,
    ex: spec_fn(real) -> real,
    lg: spec_fn(real) -> real,
    k: int,
    half: int,
    r: A::T,
)
    requires
        exact::is_exact(a, val),
        exact::is_exact_order(a, val),
        exact::is_exact_exponential(a, val, ex, lg),
        0 <= k <= usize::MAX,
        0 < half <= usize::MAX,
        embedding::is_div_term(a, k, half, r),
    ensures
        val(r) > 0 as real,
        exact::power(val(r), half) * exact::power(10000 as real, 2 * k) == 1 as real,
{
    let (two, m, n, x, base, l, y, h, z) = choose|
        two: A::T,
        m: A::T,
        n: A::T,
        x: A::T,
        base: A::T,
        l: A::T,
        y: A::T,
        h: A::T,
        z: A::T,
    |
        {
            &&& arith::is_ratio(a, 2, 1, two)
            &&& #[trigger] arith::is_negation(a, two, m)
            &&& #[trigger] arith::is_count(a, k, n)
            &&& #[trigger] arith::is_product(a, m, n, x)
            &&& arith::is_ratio(a, 10000, 1, base)
            &&& #[trigger] arith::is_logarithm(a, base, l)
            &&& #[trigger] arith::is_product(a, x, l, y)
            &&& #[trigger] arith::is_count(a, half, h)
            &&& #[trigger] arith::is_quotient(a, y, h, z)
            &&& arith::is_exponential(a, z, r)
        };
    assert((10000 as real) / (1 as real) == 10000 as real) by (nonlinear_arith);
    assert((2 as real) / (1 as real) == 2 as real) by (nonlinear_arith);
    let b = 10000 as real;
    let q = lg(b);
    let (u, v, c) = (half as real, val(z), k as real);
    assert(val(l) == q && val(h) == u && val(n) == c && val(m) == -(2 as real));
    assert(val(y) == (-(2 as real) * c) * q);
    assert(u * v == (-(2 as real) * c) * q) by (nonlinear_arith)
        requires
            v == ((-(2 as real) * c) * q) / u,
            u > 0 as real,
    ;
    exact::exponential_of_multiple(ex, v, half);
    exact::exponential_of_multiple(ex, q, 2 * k);
    exact::exponential_of_multiple(ex, v, 0);
    assert((2 * k) as real == 2 as real * c);
    assert(u * v + (2 as real * c) * q == 0 as real) by (nonlinear_arith)
        requires
            u * v == (-(2 as real) * c) * q,
    ;
    assert((0 as real) * v == 0 as real) by (nonlinear_arith);
    assert(ex(u * v + (2 as real * c) * q) == ex(u * v) * ex((2 as real * c) * q));
}

/// A wave of position `n` at a rate.
proof fn lemma_wave<A: Arith>(
    a: &A,
    val: spec_fn(A::T) -> real,
    ex: spec_fn(real) -> real,
    lg: spec_fn(real) -> real,
    n: int,
    k: int,
    half: int,
    div: A::T,
    c: int,
    r: A::T,
) -> (f: A::T)
    requires
        exact::is_exact(a, val),
        exact::is_exact_order(a, val),
        exact::is_exact_exponential(a, val, ex, lg),
        0 <= n <= usize::MAX,
        0 <= k <= usize::MAX,
        0 < half <= usize::MAX,
        embedding::is_div_term(a, k, half, div),
        embedding::is_wave(a, n, div, c, r),
    ensures
        falls_by(val(f), n, 2 * k, half),
        if c % 2 == 0 {
            arith::is_sine(a, f, r)
        } else {
            arith::is_cosine(a, f, r)
        },
{
    lemma_rate(a, val, ex, lg, k, half, div);
    let (m, f) = choose|m: A::T, f: A::T|
        {
            &&& #[trigger] arith::is_count(a, n, m)
            &&& #[trigger] arith::is_product(a, m, div, f)
            &&& if c % 2 == 0 {
                arith::is_sine(a, f, r)
            } else {
                arith::is_cosine(a, f, r)
            }
        };
    let (x, d) = (n as real, val(div));
    assert(val(f) == x * d);
    exact::power_of_product(x, d, half);
    assert(x * d >= 0 as real) by (nonlinear_arith)
        requires
            x >= 0 as real,
            d > 0 as real,
    ;
    let (p, q, s) = (
        exact::power(x, half),
        exact::power(d, half),
        exact::power(10000 as real, 2 * k),
    );
    assert((p * q) * s == p) by (nonlinear_arith)
        requires
            q * s == 1 as real,
    ;
    f
}

/// The point at time `t` and frequency `fr` is embedded as sines and cosines, by turns: of phases
/// of the time in the first half of the features and of phases of the frequency in the second,
/// both falling in equal steps, as factors, by 10000 to the power of `2 / half` each.
pub proof fn embedding_on_the_grid<A: Arith>(
    a: &A,
    val: spec_fn(A::T) -> real,
    ex: spec_fn(real) -> real,
    lg: spec_fn(real) -> real,
    d_model: int,
    height: int,
    width: int,
    out: Seq<A::T>,
    t: int,
    fr: int,
    k: int,
) -> (r: (A::T, A::T, A::T, A::T))
    requires
        exact::is_exact(a, val),
        exact::is_exact_order(a, val),
        exact::is_exact_exponential(a, val, ex, lg),
        0 <= t < width <= usize::MAX,
        0 <= fr < height <= usize::MAX,
        0 <= k < d_model / 4,
        d_model <= usize::MAX,
        embedding::is_embed_2d(a, d_model, height, width, out),
    ensures
        ({
            let half = d_model / 2;
            let at = (t * height + fr) * d_model;
            &&& arith::is_sine(a, r.0, out[at + 2 * k])
            &&& arith::is_cosine(a, r.1, out[at + 2 * k + 1])
            &&& arith::is_sine(a, r.2, out[at + half + 2 * k])
            &&& arith::is_cosine(a, r.3, out[at + half + 2 * k + 1])
            &&& falls_by(val(r.0), t, 2 * k, half)
            &&& falls_by(val(r.1), t, 2 * k, half)
            &&& falls_by(val(r.2), fr, 2 * k, half)
            &&& falls_by(val(r.3), fr, 2 * k, half)
        }),
{
    reveal(embedding::is_embed_2d);
    let half = d_model / 2;
    let divs = choose|divs: Seq<A::T>| #[trigger]
        embedding::are_div_terms(a, d_model, divs) && out.len() == width * height * d_model
            && forall|p: int|
            0 <= p < out.len() ==> embedding::is_embed_2d_value(
                a,
                d_model,
                divs,
                p / d_model / height,
                p / d_model % height,
                p % d_model,
                #[trigger] out[p],
            );
    let g = t * height + fr;
    let at = g * d_model;
    index::lemma_pair(t, fr, width, height);
    index::lemma_pair(g, 2 * k, width * height, d_model);
    index::lemma_pair(g, 2 * k + 1, width * height, d_model);
    index::lemma_pair(g, half + 2 * k, width * height, d_model);
    index::lemma_pair(g, half + 2 * k + 1, width * height, d_model);
    let div = divs[k];
    let (c0, c1) = (out[at + 2 * k], out[at + (2 * k + 1)]);
    let (c2, c3) = (out[at + (half + 2 * k)], out[at + (half + 2 * k + 1)]);
    assert((2 * k) / 2 == k && (2 * k + 1) / 2 == k);
    let r0 = lemma_wave(a, val, ex, lg, t, k, half, div, 2 * k, c0);
    let r1 = lemma_wave(a, val, ex, lg, t, k, half, div, 2 * k + 1, c1);
    let r2 = lemma_wave(a, val, ex, lg, fr, k, half, div, 2 * k, c2);
    let r3 = lemma_wave(a, val, ex, lg, fr, k, half, div, 2 * k + 1, c3);
    (r0, r1, r2, r3)
}

} // verus!
