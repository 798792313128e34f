//! Operators that treat every element on its own.
use vstd::prelude::*;
use crate::arith;
use crate::arith::Arith;
use crate::index;
use crate::model::LayerScale;

verus! {

/// `r` may be `1 / sqrt(2)`.
pub open spec fn is_inv_sqrt2<A: Arith>(a: &A, r: A::T) -> bool {
    exists|two: A::T, root: A::T, one: A::T|
        {
            &&& #[trigger] arith::is_ratio(a, 2, 1, two)
            &&& #[trigger] arith::is_square_root(a, two, root)
            &&& #[trigger] arith::is_ratio(a, 1, 1, one)
            &&& arith::is_quotient(a, one, root, r)
        }
}

/// `r` may be `0.5 * v * (1 + erf(v * inv))`.
pub open spec fn is_gelu_value<A: Arith>(a: &A, inv: A::T, v: A::T, r: A::T) -> bool {
    exists|e: A::T, half: A::T, hv: A::T, one: A::T, s: A::T|
        {
            &&& #[trigger] arith::is_scaled_erf(a, v, inv, e)
            &&& #[trigger] arith::is_ratio(a, 1, 2, half)
            &&& #[trigger] arith::is_product(a, half, v, hv)
            &&& #[trigger] arith::is_sum(a, one, e, s)
            &&& arith::is_ratio(a, 1, 1, one)
            &&& arith::is_product(a, hv, s, r)
        }
}

/// `out` is `x` with GELU applied to every element.
#[verifier::opaque]
pub open spec fn is_gelu<A: Arith>(a: &A, x: Seq<A::T>, out: Seq<A::T>) -> bool {
    exists|inv: A::T| #[trigger]
        is_inv_sqrt2(a, inv) && out.len() == x.len() && forall|i: int|
            0 <= i < x.len() ==> is_gelu_value(a, inv, x[i], #[trigger] out[i])
}

/// The exact GELU: `x * 0.5 * (1 + erf(x / sqrt(2)))`.
pub fn gelu<A: Arith>(a: &A, x: &mut [A::T])
    ensures
        final(x)@.len() == old(x)@.len(),
        is_gelu(a, old(x)@, final(x)@),
{
    proof {
        reveal(is_gelu);
    }
    let two: A::T = arith::ratio(a, 2, 1);
    let root: A::T = arith::square_root(a, two);
    let one: A::T = arith::ratio(a, 1, 1);
    let inv: A::T = arith::over(a, one, root);
    assert(is_inv_sqrt2(a, inv));
    let n: usize = x.len();
    let mut i: usize = 0;
    while i < n
        invariant
            i <= n,
            n == x@.len(),
            n == old(x)@.len(),
            forall|j: int| i <= j < n ==> x@[j] == old(x)@[j],
            forall|j: int| 0 <= j < i ==> is_gelu_value(a, inv, old(x)@[j], #[trigger] x@[j]),
        decreases n - i,
    {
        let v: A::T = x[i];
        let e: A::T = arith::scaled_erf(a, v, inv);
        let half: A::T = arith::ratio(a, 1, 2);
        let hv: A::T = arith::times(a, half, v);
        let unit: A::T = arith::ratio(a, 1, 1);
        let s: A::T = arith::plus(a, unit, e);
        let r: A::T = arith::times(a, hv, s);
        assert(is_gelu_value(a, inv, v, r));
        x[i] = r;
        i = i + 1;
    }
}

/// `r` may be `1 / (1 + e^(-g))`.
pub open spec fn is_sigmoid<A: Arith>(a: &A, g: A::T, r: A::T) -> bool {
    exists|n: A::T, e: A::T, s: A::T, one: A::T|
        {
            &&& #[trigger] arith::is_negation(a, g, n)
            &&& #[trigger] arith::is_exponential(a, n, e)
            &&& #[trigger] arith::is_sum(a, one, e, s)
            &&& arith::is_ratio(a, 1, 1, one)
            &&& arith::is_quotient(a, one, s, r)
        }
}

/// `r` may be `v` gated by the sigmoid of `g`.
pub open spec fn is_gated<A: Arith>(a: &A, v: A::T, g: A::T, r: A::T) -> bool {
    exists|s: A::T| #[trigger] is_sigmoid(a, g, s) && arith::is_product(a, v, s, r)
}

/// `out`, of shape `[b, c, area]`, is `x`, of shape `[b, 2 * c, area]`, with the first half
/// of the channels gated by the second.
#[verifier::opaque]
pub open spec fn is_glu<A: Arith>(
    a: &A,
    x: Seq<A::T>,
    b: int,
    c: int,
    area: int,
    out: Seq<A::T>,
) -> bool {
    &&& out.len() == b * c * area
    &&& forall|i: int|
        0 <= i < out.len() ==> is_gated(
            a,
            x[index::pos3(i / area / c, i / area % c, i % area, 2 * c, area)],
            x[index::pos3(i / area / c, c + i / area % c, i % area, 2 * c, area)],
            #[trigger] out[i],
        )
}

/// Gates the first half of the channels of `[b, 2 * c, area]` by the second half.
pub fn glu_planes<A: Arith>(a: &A, x: &[A::T], b: usize, c: usize, area: usize) -> (r: Vec<A::T>)
    requires
        b * (2 * c) * area <= x@.len(),
    ensures
        r@.len() == b * c * area,
        is_glu(a, x@, b as int, c as int, area as int, r@),
{
    proof {
        reveal(is_glu);
    }
    let len_in: usize = x.len();
    let mut out: Vec<A::T> = Vec::new();
    if b == 0 || c == 0 || area == 0 {
        assert(b * c * area == 0) by (nonlinear_arith)
            requires
                b == 0 || c == 0 || area == 0,
        ;
        return out;
    }
    proof {
        assert(b * c <= b * c * area && b * c * area <= b * (2 * c) * area && 2 * c <= b * (2 * c)
            * area) by (nonlinear_arith)
            requires
                b >= 1,
                c >= 1,
                area >= 1,
        ;
    }
    let total: usize = b * c * area;
    let c2: usize = 2 * c;
    let mut i: usize = 0;
    while i < total
        invariant
            i <= total,
            total == b * c * area,
            c2 == 2 * c,
            b * (2 * c) * area <= x@.len(),
            len_in == x@.len(),
            c >= 1,
            area >= 1,
            out@.len() == i,
            forall|q: int|
                0 <= q < i ==> is_gated(
                    a,
                    x@[index::pos3(
                        q / area as int / c as int,
                        q / area as int % c as int,
                        q % area as int,
                        2 * c,
                        area as int,
                    )],
                    x@[index::pos3(
                        q / area as int / c as int,
                        c + q / area as int % c as int,
                        q % area as int,
                        2 * c,
                        area as int,
                    )],
                    #[trigger] out@[q],
                ),
        decreases total - i,
    {
        let at: usize = i % area;
        let ci: usize = i / area % c;
        let bi: usize = i / area / c;
        proof {
            index::lemma_untriple(i as int, b as int, c as int, area as int);
            index::lemma_triple(bi as int, ci as int, at as int, b as int, 2 * c, area as int);
            index::lemma_within3(bi as int, ci as int, at as int, 2 * c, area as int);
            index::lemma_triple(bi as int, c + ci, at as int, b as int, 2 * c, area as int);
            index::lemma_within3(bi as int, c + ci, at as int, 2 * c, area as int);
        }
        let v: A::T = x[(bi * c2 + ci) * area + at];
        let g: A::T = x[(bi * c2 + (c + ci)) * area + at];
        let n: A::T = arith::negate(a, g);
        let e: A::T = arith::exponential(a, n);
        let one: A::T = arith::ratio(a, 1, 1);
        let s: A::T = arith::plus(a, one, e);
        let sig: A::T = arith::over(a, one, s);
        assert(is_sigmoid(a, g, sig));
        let r: A::T = arith::times(a, v, sig);
        assert(is_gated(a, v, g, r));
        out.push(r);
        i = i + 1;
    }
    out
}

/// GLU along the channels: `[B, 2 * C, L]` to `[B, C, L]`.
pub fn glu_channel<A: Arith>(a: &A, x: &[A::T], shape: [usize; 3]) -> (r: (Vec<A::T>, [usize; 3]))
    requires
        shape[1] % 2 == 0,
        shape[2] > 0,
        shape[0] * shape[1] * shape[2] <= x@.len(),
    ensures
        r.1 == [shape[0], shape[1] / 2, shape[2]],
        r.0@.len() == index::size3(r.1),
        is_glu(a, x@, shape[0] as int, shape[1] as int / 2, shape[2] as int, r.0@),
{
    let c: usize = shape[1] / 2;
    let out: Vec<A::T> = glu_planes(a, x, shape[0], c, shape[2]);
    let s: [usize; 3] = [shape[0], c, shape[2]];
    (out, s)
}

/// `out` is the sum of `x` and `y`, element by element.
#[verifier::opaque]
pub open spec fn is_added<A: Arith>(a: &A, x: Seq<A::T>, y: Seq<A::T>, out: Seq<A::T>) -> bool {
    &&& out.len() == x.len()
    &&& forall|i: int| 0 <= i < x.len() ==> arith::is_sum(a, x[i], y[i], #[trigger] out[i])
}

/// Adds `y` to `x`, element by element.
pub fn add_to<A: Arith>(a: &A, x: &mut [A::T], y: &[A::T])
    requires
        old(x)@.len() <= y@.len(),
    ensures
        final(x)@.len() == old(x)@.len(),
        is_added(a, old(x)@, y@, final(x)@),
{
    proof {
        reveal(is_added);
    }
    let n: usize = x.len();
    let mut i: usize = 0;
    while i < n
        invariant
            i <= n,
            n == x@.len(),
            n == old(x)@.len(),
            n <= y@.len(),
            forall|j: int| i <= j < n ==> x@[j] == old(x)@[j],
            forall|j: int| 0 <= j < i ==> arith::is_sum(a, old(x)@[j], y@[j], #[trigger] x@[j]),
        decreases n - i,
    {
        let r: A::T = arith::plus(a, x[i], y[i]);
        x[i] = r;
        i = i + 1;
    }
}

/// `out` is `x` with element `i` multiplied by entry `i / l % c` of `scale`.
#[verifier::opaque]
pub open spec fn is_scaled<A: Arith>(
    a: &A,
    x: Seq<A::T>,
    c: int,
    l: int,
    scale: Seq<A::T>,
    out: Seq<A::T>,
) -> bool {
    &&& out.len() == x.len()
    &&& forall|i: int|
        0 <= i < x.len() ==> arith::is_product(a, x[i], scale[i / l % c], #[trigger] out[i])
}

/// Multiplies element `i` of `x` by entry `i / l % c` of `scale`.
fn scale_by<A: Arith>(a: &A, x: &mut [A::T], c: usize, l: usize, scale: &[A::T])
    requires
        c > 0,
        l > 0,
        c <= scale@.len(),
    ensures
        final(x)@.len() == old(x)@.len(),
        is_scaled(a, old(x)@, c as int, l as int, scale@, final(x)@),
{
    proof {
        reveal(is_scaled);
    }
    let n: usize = x.len();
    let mut i: usize = 0;
    while i < n
        invariant
            i <= n,
            n == x@.len(),
            n == old(x)@.len(),
            c > 0,
            l > 0,
            c <= scale@.len(),
            forall|j: int| i <= j < n ==> x@[j] == old(x)@[j],
            forall|j: int|
                0 <= j < i ==> arith::is_product(
                    a,
                    old(x)@[j],
                    scale@[j / l as int % c as int],
                    #[trigger] x@[j],
                ),
        decreases n - i,
    {
        let r: A::T = arith::times(a, x[i], scale[i / l % c]);
        x[i] = r;
        i = i + 1;
    }
}

/// Multiplies each channel of `[B, C, L]` by its scale.
pub fn layer_scale<A: Arith>(a: &A, x: &mut [A::T], shape: [usize; 3], scale: &LayerScale<A::T>)
    requires
        shape[1] > 0,
        shape[2] > 0,
        shape[1] * shape[2] <= usize::MAX,
        shape[1] <= scale.scale@.len(),
    ensures
        final(x)@.len() == old(x)@.len(),
        is_scaled(a, old(x)@, shape[1] as int, shape[2] as int, scale.scale@, final(x)@),
{
    scale_by(a, x, shape[1], shape[2], scale.scale.as_slice())
}

/// Multiplies each entry of the last axis of `[B, S, D]` by its scale.
pub fn layer_scale_last<A: Arith>(
    a: &A,
    x: &mut [A::T],
    shape: [usize; 3],
    scale: &LayerScale<A::T>,
)
    requires
        shape[2] > 0,
        old(x)@.len() % (shape[2] as nat) == 0,
        shape[2] <= scale.scale@.len(),
    ensures
        final(x)@.len() == old(x)@.len(),
        is_scaled(a, old(x)@, shape[2] as int, 1, scale.scale@, final(x)@),
{
    scale_by(a, x, shape[2], 1, scale.scale.as_slice())
}

} // verus!
