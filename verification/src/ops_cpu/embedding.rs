//! Sinusoidal embeddings of positions.
use vstd::prelude::*;
use crate::arith;
use crate::arith::Arith;
use crate::index;

verus! {

/// `r` may be the divisor of an exponent: `half - 1`, or one where that is zero.
pub open spec fn is_exponent_divisor<A: Arith>(a: &A, half: int, r: A::T) -> bool {
    if half > 1 {
        arith::is_count(a, half - 1, r)
    } else {
        arith::is_ratio(a, 1, 1, r)
    }
}

/// `r` may be `pos / 10000^(i / (half - 1))`.
pub open spec fn is_phase<A: Arith>(a: &A, pos: int, i: int, half: int, r: A::T) -> bool {
    exists|n: A::T, den: A::T, e: A::T, base: A::T, w: A::T, p: A::T|
        {
            &&& #[trigger] arith::is_count(a, i, n)
            &&& #[trigger] is_exponent_divisor(a, half, den)
            &&& #[trigger] arith::is_quotient(a, n, den, e)
            &&& arith::is_ratio(a, 10000, 1, base)
            &&& #[trigger] arith::is_power(a, base, e, w)
            &&& #[trigger] arith::is_count(a, pos, p)
            &&& arith::is_quotient(a, p, w, r)
        }
}

/// `r` may be feature `c` of the embedding of `pos`: the cosines of the phases, then their
/// sines, then zero where `d_model` is odd.
pub open spec fn is_embed_1d_value<A: Arith>(
    a: &A,
    d_model: int,
    pos: int,
    c: int,
    r: A::T,
) -> bool {
    let half = d_model / 2;
    if c < half {
        exists|f: A::T| #[trigger]
            is_phase(a, pos, c, half, f) && arith::is_cosine(a, f, r)
    } else if c < 2 * half {
        exists|f: A::T| #[trigger]
            is_phase(a, pos, c - half, half, f) && arith::is_sine(
                a,
                f,
                r,
            )
    } else {
        arith::is_zero(a, r)
    }
}

/// `out` is the result of [`sin_embed_1d`].
#[verifier::opaque]
pub open spec fn is_embed_1d<A: Arith>(a: &A, seq_len: int, d_model: int, out: Seq<A::T>) -> bool {
    &&& out.len() == seq_len * d_model
    &&& forall|p: int|
        0 <= p < out.len() ==> is_embed_1d_value(
            a,
            d_model,
            p / d_model,
            p % d_model,
            #[trigger] out[p],
        )
}

/// `pos / 10000^(i / (half - 1))`.
fn phase<A: Arith>(a: &A, pos: usize, i: usize, half: usize) -> (r: A::T)
    ensures
        is_phase(a, pos as int, i as int, half as int, r),
{
    let n: A::T = arith::count(a, i);
    let den: A::T = if half > 1 {
        arith::count(a, half - 1)
    } else {
        arith::ratio(a, 1, 1)
    };
    assert(is_exponent_divisor(a, half as int, den));
    let e: A::T = arith::over(a, n, den);
    let base: A::T = arith::ratio(a, 10000, 1);
    let w: A::T = arith::power(a, base, e);
    let p: A::T = arith::count(a, pos);
    arith::over(a, p, w)
}

/// Embedding of the positions `0..seq_len`: `[seq_len, d_model]`, the first half of the
/// features the cosines of the phases, the second half their sines.
pub fn sin_embed_1d<A: Arith>(a: &A, seq_len: usize, d_model: usize) -> (r: Vec<A::T>)
    requires
        seq_len * d_model <= usize::MAX,
    ensures
        r@.len() == seq_len * d_model,
        is_embed_1d(a, seq_len as int, d_model as int, r@),
{
    let mut out: Vec<A::T> = Vec::new();
    let total: usize = seq_len * d_model;
    let half: usize = d_model / 2;
    let mut p: usize = 0;
    while p < total
        invariant
            p <= total,
            total == seq_len * d_model,
            half == d_model / 2,
            out@.len() == p,
            forall|q: int|
                0 <= q < p ==> is_embed_1d_value(
                    a,
                    d_model as int,
                    q / d_model as int,
                    q % d_model as int,
                    #[trigger] out@[q],
                ),
        decreases total - p,
    {
        proof {
            index::lemma_unpair(p as int, seq_len as int, d_model as int);
        }
        let pos: usize = p / d_model;
        let c: usize = p % d_model;
        let v: A::T = if c < half {
            let f: A::T = phase(a, pos, c, half);
            arith::cosine(a, f)
        } else if c < 2 * half {
            let f: A::T = phase(a, pos, c - half, half);
            arith::sine(a, f)
        } else {
            arith::zero(a)
        };
        assert(is_embed_1d_value(a, d_model as int, pos as int, c as int, v));
        out.push(v);
        p = p + 1;
    }
    proof {
        reveal(is_embed_1d);
    }
    out
}

/// `r` may be `e^(-2 * k * ln(10000) / half)`.
pub open spec fn is_div_term<A: Arith>(a: &A, k: int, half: int, r: A::T) -> bool {
    exists|two: A::T, m: A::T, n: A::T, x: A::T, base: A::T, l: A::T, y: A::T, h: A::T, z: A::T|
        {
            &&& arith::is_ratio(a, 2, 1, two)
            &&& #[trigger] arith::is_negation(a, two, m)
            &&& #[trigger] arith::is_count(a, k, n)
            &&& #[trigger] arith::is_product(a, m, n, x)
            &&& arith::is_ratio(a, 10000, 1, base)
            &&& #[trigger] arith::is_logarithm(a, base, l)
            &&& #[trigger] arith::is_product(a, x, l, y)
            &&& #[trigger] arith::is_count(a, half, h)
            &&& #[trigger] arith::is_quotient(a, y, h, z)
            &&& arith::is_exponential(a, z, r)
        }
}

/// `r` may be the sine of `n * div` where `c` is even, its cosine where `c` is odd.
pub open spec fn is_wave<A: Arith>(a: &A, n: int, div: A::T, c: int, r: A::T) -> bool {
    exists|m: A::T, f: A::T|
        {
            &&& #[trigger] arith::is_count(a, n, m)
            &&& #[trigger] arith::is_product(a, m, div, f)
            &&& if c % 2 == 0 {
                arith::is_sine(a, f, r)
            } else {
                arith::is_cosine(a, f, r)
            }
        }
}

/// `r` may be feature `c` of the embedding of time `t` and frequency `fr`: waves in time in
/// the first half of the features, waves in frequency in the second, and zero for a feature
/// that has no partner.
pub open spec fn is_embed_2d_value<A: Arith>(
    a: &A,
    d_model: int,
    divs: Seq<A::T>,
    t: int,
    fr: int,
    c: int,
    r: A::T,
) -> bool {
    let half = d_model / 2;
    let quarter = half / 2;
    if c < 2 * quarter {
        is_wave(a, t, divs[c / 2], c, r)
    } else if half <= c < half + 2 * quarter {
        is_wave(a, fr, divs[(c - half) / 2], c - half, r)
    } else {
        arith::is_zero(a, r)
    }
}

/// `divs` are the rates of the waves.
pub open spec fn are_div_terms<A: Arith>(a: &A, d_model: int, divs: Seq<A::T>) -> bool {
    &&& divs.len() == d_model / 2 / 2
    &&& forall|k: int|
        0 <= k < divs.len() ==> is_div_term(
            a,
            k,
            d_model / 2,
            #[trigger] divs[k],
        )
}

/// `out` is the result of [`sin_embed_2d`].
#[verifier::opaque]
pub open spec fn is_embed_2d<A: Arith>(
    a: &A,
    d_model: int,
    height: int,
    width: int,
    out: Seq<A::T>,
) -> bool {
    exists|divs: Seq<A::T>| #[trigger]
        are_div_terms(a, d_model, divs) && out.len() == width * height * d_model && forall|p: int|
            0 <= p < out.len() ==> is_embed_2d_value(
                a,
                d_model,
                divs,
                p / d_model / height,
                p / d_model % height,
                p % d_model,
                #[trigger] out[p],
            )
}

/// The sine of `n * div` where `even` holds, else the cosine.
fn wave<A: Arith>(a: &A, n: usize, div: A::T, even: bool) -> (r: A::T)
    ensures
        is_wave(
            a,
            n as int,
            div,
            if even {
                0
            } else {
                1
            },
            r,
        ),
{
    let m: A::T = arith::count(a, n);
    let f: A::T = arith::times(a, m, div);
    if even {
        arith::sine(a, f)
    } else {
        arith::cosine(a, f)
    }
}

/// The rates of the waves.
fn div_terms<A: Arith>(a: &A, d_model: usize) -> (r: Vec<A::T>)
    ensures
        are_div_terms(a, d_model as int, r@),
{
    let half: usize = d_model / 2;
    let quarter: usize = half / 2;
    let mut divs: Vec<A::T> = Vec::new();
    let mut k: usize = 0;
    while k < quarter
        invariant
            k <= quarter,
            half == d_model / 2,
            divs@.len() == k,
            forall|j: int| 0 <= j < k ==> is_div_term(a, j, half as int, #[trigger] divs@[j]),
        decreases quarter - k,
    {
        let two: A::T = arith::ratio(a, 2, 1);
        let m: A::T = arith::negate(a, two);
        let n: A::T = arith::count(a, k);
        let x: A::T = arith::times(a, m, n);
        let base: A::T = arith::ratio(a, 10000, 1);
        let l: A::T = arith::logarithm(a, base);
        let y: A::T = arith::times(a, x, l);
        let h: A::T = arith::count(a, half);
        let z: A::T = arith::over(a, y, h);
        let r: A::T = arith::exponential(a, z);
        assert(is_div_term(a, k as int, half as int, r));
        divs.push(r);
        k = k + 1;
    }
    divs
}

/// Embedding of the points of a grid of `width` times and `height` frequencies:
/// `[width * height, d_model]`, the time varying slowest.
pub fn sin_embed_2d<A: Arith>(a: &A, d_model: usize, height: usize, width: usize) -> (r: Vec<A::T>)
    requires
        width * height <= usize::MAX,
        width * height * d_model <= usize::MAX,
    ensures
        r@.len() == width * height * d_model,
        is_embed_2d(a, d_model as int, height as int, width as int, r@),
{
    let half: usize = d_model / 2;
    let quarter: usize = half / 2;
    let divs: Vec<A::T> = div_terms(a, d_model);
    let mut out: Vec<A::T> = Vec::new();
    let total: usize = width * height * d_model;
    let mut p: usize = 0;
    while p < total
        invariant
            p <= total,
            total == width * height * d_model,
            half == d_model / 2,
            quarter == half / 2,
            divs@.len() == quarter,
            out@.len() == p,
            forall|q: int|
                0 <= q < p ==> is_embed_2d_value(
                    a,
                    d_model as int,
                    divs@,
                    q / d_model as int / height as int,
                    q / d_model as int % height as int,
                    q % d_model as int,
                    #[trigger] out@[q],
                ),
        decreases total - p,
    {
        proof {
            index::lemma_untriple(p as int, width as int, height as int, d_model as int);
        }
        let c: usize = p % d_model;
        let fr: usize = p / d_model % height;
        let t: usize = p / d_model / height;
        let v: A::T = if c < 2 * quarter {
            wave(a, t, divs[c / 2], c % 2 == 0)
        } else if c >= half && c - half < 2 * quarter {
            wave(a, fr, divs[(c - half) / 2], (c - half) % 2 == 0)
        } else {
            arith::zero(a)
        };
        assert(is_embed_2d_value(
            a,
            d_model as int,
            divs@,
            t as int,
            fr as int,
            c as int,
            v,
        ));
        out.push(v);
        p = p + 1;
    }
    proof {
        reveal(is_embed_2d);
    }
    out
}

} // verus!
