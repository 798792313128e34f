//! How the forward and the transposed convolution of one dimension belong together.
use vstd::prelude::*;
use crate::arith;
use crate::arith::Arith;
use crate::exact;
use crate::index;
use crate::model::Conv1dWeight;
use crate::ops_cpu::conv;
use crate::ops_cpu::conv::Axis;

verus! {

/// The input position that a tap of the forward convolution reads for an output, and the input
/// position that the same tap of the transposed convolution reads, are inverse to each other.
pub proof fn taps_are_inverse(
    n_in: usize,
    n_out: usize,
    pad: usize,
    k: usize,
    stride: usize,
    o: int,
    i: int,
    d: int,
)
    requires
        stride >= 1,
        0 <= o < n_out,
        0 <= i < n_in,
        0 <= d < k,
    ensures
        conv::tap(conv::forward_axis(n_in, pad, k, stride, 1), o, d) == i <==> conv::tap(
            conv::transposed_axis(n_out, pad, k, stride),
            i,
            d,
        ) == o,
{
    let st = stride as int;
    let s = i + pad - d;
    if o * stride + d - pad == i {
        assert(s == o * st);
        vstd::arithmetic::div_mod::lemma_div_multiples_vanish(o, st);
        vstd::arithmetic::div_mod::lemma_mod_multiples_basic(o, st);
        assert(o * st >= 0) by (nonlinear_arith)
            requires
                o >= 0,
                st >= 1,
        ;
        assert(s / st == o && s % st == 0) by {
            assert(st * o == o * st) by (nonlinear_arith);
        }
    }
    if s >= 0 && s % st == 0 && s / st == o {
        vstd::arithmetic::div_mod::lemma_fundamental_div_mod(s, st);
        assert(st * o == o * st) by (nonlinear_arith);
    }
}

/// The number at position `t` of channel `c` of a `[b, channels, n]` tensor; zero for a
/// position before the first.
pub open spec fn at<T>(
    val: spec_fn(T) -> real,
    x: Seq<T>,
    channels: int,
    n: int,
    b: int,
    c: int,
    t: int,
) -> real {
    if t >= 0 {
        val(x[index::pos3(b, c, t, channels, n)])
    } else {
        0 as real
    }
}

/// Where the kernel of a convolution holds the factor of tap `d` between the channels `ci` of
/// the input and `co` of the output.
pub open spec fn kernel_at(
    c_in: int,
    c_out: int,
    k: int,
    by_input: bool,
    ci: int,
    co: int,
    d: int,
) -> int {
    if by_input {
        index::pos3(ci, d, co, k, c_out)
    } else {
        index::pos3(co, ci, d, c_in, k)
    }
}

/// Without rounding and without a bias, a number that a convolution of one dimension gives is
/// the sum, over the channels and the taps, of what the tap reads times its factor.
proof fn lemma_convolved<A: Arith>(
    a: &A,
    val: spec_fn(A::T) -> real,
    x: Seq<A::T>,
    b: int,
    c_in: int,
    ah: Axis,
    c_out: int,
    wt: Seq<A::T>,
    by_input: bool,
    bias: Seq<A::T>,
    out: Seq<A::T>,
    bi: int,
    co: int,
    o: int,
)
    requires
        exact::is_exact(a, val),
        exact::is_exact_gemm(a, val),
        ah.k >= 1,
        0 <= c_in,
        0 <= c_out <= usize::MAX,
        b * ah.n_out <= usize::MAX,
        c_in * ah.k <= usize::MAX,
        forall|j: int| 0 <= j < c_out ==> val(#[trigger] bias[j]) == 0 as real,
        conv::is_conv(a, x, b, c_in, ah, conv::unit_axis(), c_out, wt, by_input, bias, out),
        0 <= bi < b,
        0 <= co < c_out,
        0 <= o < ah.n_out,
    ensures
        val(out[index::pos3(bi, co, o, c_out, ah.n_out as int)]) == exact::total(
            c_in,
            |ci: int|
                exact::total(
                    ah.k as int,
                    |d: int|
                        at(val, x, c_in, ah.n_in as int, bi, ci, conv::tap(ah, o, d)) * val(
                            wt[kernel_at(c_in, c_out, ah.k as int, by_input, ci, co, d)],
                        ),
                ),
        ),
{
    let aw = conv::unit_axis();
    let n = ah.n_out as int;
    let k = ah.k as int;
    let patch = c_in * ah.k * aw.k;
    let rows = b * ah.n_out * aw.n_out;
    assert(aw.n_in == 1 && aw.n_out == 1 && aw.k == 1);
    assert(patch == c_in * k && rows == b * n && n * aw.n_out == n) by (nonlinear_arith)
        requires
            patch == c_in * ah.k * aw.k,
            rows == b * ah.n_out * aw.n_out,
            aw.k == 1,
            aw.n_out == 1,
            k == ah.k,
            n == ah.n_out,
    ;
    assert(0 <= patch) by (nonlinear_arith)
        requires
            patch == c_in * k,
            0 <= c_in,
            1 <= k,
    ;
    let g = conv::conv_gemm(rows, c_out, patch, by_input);
    let (z, one, p) = choose|z: A::T, one: A::T, p: A::Product|
        {
            &&& #[trigger] arith::is_zero(a, z)
            &&& #[trigger] arith::is_ratio(a, 1, 1, one)
            &&& #[trigger] arith::is_gemm(
                a,
                g,
                conv::unfolded(x, b, c_in, ah, aw, z),
                wt,
                one,
                p,
            )
            &&& conv::is_biased_planes(a, p, b, c_out, ah.n_out * aw.n_out, bias, out)
        };
    let lhs = conv::unfolded(x, b, c_in, ah, aw, z);
    let pos = index::pos3(bi, co, o, c_out, n);
    index::lemma_triple(bi, co, o, b, c_out, n);
    index::lemma_pair(bi, o, b, n);
    let row = index::pos2(bi, o, n);
    assert(conv::is_biased_entry(a, p, row, co, bias[co], out[pos]));
    let e = choose|e: A::T| #[trigger]
        arith::is_entry(a, p, row, co, e) && arith::is_sum(a, e, bias[co], out[pos]);
    let product = |t: int|
        val(lhs[row * g.lhs_rs + t * g.lhs_cs]) * val(wt[t * g.rhs_rs + co * g.rhs_cs]);
    assert(val(e) == val(one) * exact::total(g.k as int, product));
    assert(val(one) == 1 as real) by {
        assert((1 as int as real) / (1 as int as real) == 1 as real) by (nonlinear_arith);
    }
    let sum = exact::total(g.k as int, product);
    assert((1 as real) * sum == sum) by (nonlinear_arith);
    assert(val(out[pos]) == sum);
    let term = |ci: int, d: int|
        at(val, x, c_in, ah.n_in as int, bi, ci, conv::tap(ah, o, d)) * val(
            wt[kernel_at(c_in, c_out, k, by_input, ci, co, d)],
        );
    let flat = |t: int| term(t / k, t % k);
    assert forall|t: int| 0 <= t < patch implies #[trigger] product(t) == flat(t) by {
        lemma_unfolded(x, b, c_in, ah, z, bi, o, t);
        index::lemma_unpair(t, c_in, k);
        let (ci, d) = (t / k, t % k);
        assert(row * g.lhs_rs + t * g.lhs_cs == index::pos2(row, t, patch));
        if by_input {
            assert(t * g.rhs_rs + co * g.rhs_cs == index::pos3(ci, d, co, k, c_out));
        } else {
            assert(t * g.rhs_rs + co * g.rhs_cs == index::pos3(co, ci, d, c_in, k)) by {
                assert(co * (c_in * k) + (ci * k + d) == (co * c_in + ci) * k + d)
                    by (nonlinear_arith);
            }
        }
    }
    exact::total_same(patch, product, flat);
    exact::total_of_pairs(c_in, k, term);
    let nested = |ci: int| exact::total(k, |d: int| term(ci, d));
    let stated = |ci: int|
        exact::total(
            ah.k as int,
            |d: int|
                at(val, x, c_in, ah.n_in as int, bi, ci, conv::tap(ah, o, d)) * val(
                    wt[kernel_at(c_in, c_out, ah.k as int, by_input, ci, co, d)],
                ),
        );
    assert forall|ci: int| 0 <= ci < c_in implies #[trigger] nested(ci) == stated(ci) by {
        exact::total_same(
            k,
            |d: int| term(ci, d),
            |d: int|
                at(val, x, c_in, ah.n_in as int, bi, ci, conv::tap(ah, o, d)) * val(
                    wt[kernel_at(c_in, c_out, ah.k as int, by_input, ci, co, d)],
                ),
        );
    }
    exact::total_same(c_in, nested, stated);
}

/// What the row of an output position holds for tap `t % k` of channel `t / k`.
proof fn lemma_unfolded<T>(x: Seq<T>, b: int, c_in: int, ah: Axis, z: T, bi: int, o: int, t: int)
    requires
        ah.k >= 1,
        0 <= bi < b,
        0 <= o < ah.n_out,
        0 <= t < c_in * ah.k,
    ensures
        conv::unfolded(x, b, c_in, ah, conv::unit_axis(), z)[index::pos2(
            index::pos2(bi, o, ah.n_out as int),
            t,
            c_in * ah.k * 1,
        )] == if conv::tap(ah, o, t % (ah.k as int)) >= 0 {
            x[index::pos3(
                bi,
                t / (ah.k as int),
                conv::tap(ah, o, t % (ah.k as int)),
                c_in,
                ah.n_in as int,
            )]
        } else {
            z
        },
{
    let aw = conv::unit_axis();
    let n = ah.n_out as int;
    let k = ah.k as int;
    let patch = c_in * ah.k * aw.k;
    let row = index::pos2(bi, o, n);
    assert(patch == c_in * k * 1 && patch == c_in * k);
    index::lemma_pair(bi, o, b, n);
    index::lemma_pair(row, t, b * n, patch);
    let p = index::pos2(row, t, patch);
    assert(b * ah.n_out * aw.n_out * patch == b * n * patch) by (nonlinear_arith)
        requires
            aw.n_out == 1,
            n == ah.n_out,
    ;
    assert(row / 1 == row && row % 1 == 0 && t / 1 == t && t % 1 == 0);
    assert(conv::tap(aw, 0, 0) == 0);
    let q = conv::tap(ah, o, t % k);
    assert(index::pos4(bi, t / k, q, 0, c_in, ah.n_in as int, 1) == index::pos3(
        bi,
        t / k,
        q,
        c_in,
        ah.n_in as int,
    ));
}

/// The sum of the products of the entries of two `[b, c, n]` tensors.
pub open spec fn inner<T>(
    val: spec_fn(T) -> real,
    p: Seq<T>,
    q: Seq<T>,
    b: int,
    c: int,
    n: int,
) -> real {
    exact::total(
        b,
        |bi: int|
            exact::total(
                c,
                |ci: int|
                    exact::total(
                        n,
                        |i: int|
                            val(p[index::pos3(bi, ci, i, c, n)]) * val(
                                q[index::pos3(bi, ci, i, c, n)],
                            ),
                    ),
            ),
    )
}

/// A sum of products with sums, with the first factor taken inside.
proof fn lemma_taken_inside(
    n: int,
    m: int,
    k: int,
    p: spec_fn(int) -> real,
    q: spec_fn(int, int, int) -> real,
    w: spec_fn(int, int) -> real,
)
    ensures
        exact::total(
            n,
            |o: int|
                p(o) * exact::total(m, |c: int| exact::total(k, |d: int| q(c, d, o) * w(c, d))),
        ) == exact::total(
            m,
            |c: int|
                exact::total(
                    k,
                    |d: int| w(c, d) * exact::total(n, |o: int| p(o) * q(c, d, o)),
                ),
        ),
{
    let term = |o: int, c: int, d: int| p(o) * (q(c, d, o) * w(c, d));
    let part = |o: int, c: int| exact::total(k, |d: int| term(o, c, d));
    let outer = |o: int|
        p(o) * exact::total(m, |c: int| exact::total(k, |d: int| q(c, d, o) * w(c, d)));
    let spread = |o: int| exact::total(m, |c: int| part(o, c));
    assert forall|o: int| 0 <= o < n implies #[trigger] outer(o) == spread(o) by {
        let row = |c: int| exact::total(k, |d: int| q(c, d, o) * w(c, d));
        exact::total_scaled(m, p(o), row);
        let scaled = |c: int| p(o) * row(c);
        let direct = |c: int| part(o, c);
        assert forall|c: int| 0 <= c < m implies #[trigger] scaled(c) == direct(c) by {
            let cell = |d: int| q(c, d, o) * w(c, d);
            exact::total_scaled(k, p(o), cell);
            exact::total_same(k, |d: int| p(o) * cell(d), |d: int| term(o, c, d));
            exact::total_same(k, cell, |d: int| q(c, d, o) * w(c, d));
        }
        exact::total_same(m, scaled, direct);
        exact::total_same(m, row, |c: int| exact::total(k, |d: int| q(c, d, o) * w(c, d)));
    }
    exact::total_same(n, outer, spread);
    exact::total_exchanged(n, m, part);
    let columns = |c: int| exact::total(n, |o: int| part(o, c));
    let wanted = |c: int|
        exact::total(k, |d: int| w(c, d) * exact::total(n, |o: int| p(o) * q(c, d, o)));
    assert forall|c: int| 0 <= c < m implies #[trigger] columns(c) == wanted(c) by {
        let plane = |o: int, d: int| term(o, c, d);
        exact::total_exchanged(n, k, plane);
        let (of_part, of_plane) = (
            |o: int| part(o, c),
            |o: int| exact::total(k, |d: int| plane(o, d)),
        );
        assert forall|o: int| 0 <= o < n implies #[trigger] of_part(o) == of_plane(o) by {
            exact::total_same(k, |d: int| term(o, c, d), |d: int| plane(o, d));
        }
        exact::total_same(n, of_part, of_plane);
        let by_tap = |d: int| exact::total(n, |o: int| plane(o, d));
        let scaled = |d: int| w(c, d) * exact::total(n, |o: int| p(o) * q(c, d, o));
        assert forall|d: int| 0 <= d < k implies #[trigger] by_tap(d) == scaled(d) by {
            let cell = |o: int| p(o) * q(c, d, o);
            exact::total_scaled(n, w(c, d), cell);
            let (l, r) = (|o: int| plane(o, d), |o: int| w(c, d) * cell(o));
            assert forall|o: int| 0 <= o < n implies #[trigger] l(o) == r(o) by {
                let (x, y, z) = (p(o), q(c, d, o), w(c, d));
                assert(x * (y * z) == z * (x * y)) by (nonlinear_arith);
            }
            exact::total_same(n, l, r);
        }
        exact::total_same(k, by_tap, scaled);
    }
    exact::total_same(m, columns, wanted);
}

/// One channel against another, by one tap: it does not matter which of the two is gone
/// through.
proof fn lemma_one_tap(
    n: int,
    m: int,
    p: spec_fn(int) -> real,
    q: spec_fn(int) -> real,
    to: spec_fn(int) -> int,
    back: spec_fn(int) -> int,
)
    requires
        forall|o: int| 0 <= o < n ==> #[trigger] to(o) < m,
        forall|i: int| 0 <= i < m ==> #[trigger] back(i) < n,
        forall|o: int, i: int|
            #![trigger to(o), back(i)]
            0 <= o < n && 0 <= i < m ==> (to(o) == i <==> back(i) == o),
    ensures
        exact::total(
            n,
            |o: int|
                p(o) * if to(o) >= 0 {
                    q(to(o))
                } else {
                    0 as real
                },
        ) == exact::total(
            m,
            |i: int|
                q(i) * if back(i) >= 0 {
                    p(back(i))
                } else {
                    0 as real
                },
        ),
{
    let pair = |o: int, i: int|
        if to(o) == i {
            p(o) * q(i)
        } else {
            0 as real
        };
    exact::total_exchanged(n, m, pair);
    let (l, lp) = (
        |o: int|
            p(o) * if to(o) >= 0 {
                q(to(o))
            } else {
                0 as real
            },
        |o: int| exact::total(m, |i: int| pair(o, i)),
    );
    assert forall|o: int| 0 <= o < n implies #[trigger] l(o) == lp(o) by {
        let f = |i: int| pair(o, i);
        let x = p(o);
        assert(x * (0 as real) == 0 as real) by (nonlinear_arith);
        if to(o) >= 0 {
            exact::total_of_one(m, to(o), f);
        } else {
            exact::total_of_zeros(m, f);
        }
    }
    exact::total_same(n, l, lp);
    let (r, rp) = (
        |i: int|
            q(i) * if back(i) >= 0 {
                p(back(i))
            } else {
                0 as real
            },
        |i: int| exact::total(n, |o: int| pair(o, i)),
    );
    assert forall|i: int| 0 <= i < m implies #[trigger] rp(i) == r(i) by {
        let f = |o: int| pair(o, i);
        let y = q(i);
        assert(y * (0 as real) == 0 as real) by (nonlinear_arith);
        assert forall|o: int| 0 <= o < n && o != back(i) implies #[trigger] f(o) == 0 as real by {
            assert(to(o) == i <==> back(i) == o);
        }
        if back(i) >= 0 {
            let o = back(i);
            exact::total_of_one(n, o, f);
            assert(to(o) == i);
            let x = p(o);
            assert(x * y == y * x) by (nonlinear_arith);
        } else {
            exact::total_of_zeros(n, f);
        }
    }
    exact::total_same(m, rp, r);
}

/// The same for all channels and taps together.
proof fn lemma_all_taps(
    c_out: int,
    n: int,
    c_in: int,
    m: int,
    k: int,
    p: spec_fn(int, int) -> real,
    q: spec_fn(int, int) -> real,
    w: spec_fn(int, int, int) -> real,
    to: spec_fn(int, int) -> int,
    back: spec_fn(int, int) -> int,
)
    requires
        forall|o: int, d: int| 0 <= o < n && 0 <= d < k ==> #[trigger] to(o, d) < m,
        forall|i: int, d: int| 0 <= i < m && 0 <= d < k ==> #[trigger] back(i, d) < n,
        forall|o: int, i: int, d: int|
            #![trigger to(o, d), back(i, d)]
            0 <= o < n && 0 <= i < m && 0 <= d < k ==> (to(o, d) == i <==> back(i, d) == o),
    ensures
        exact::total(
            c_out,
            |co: int|
                exact::total(
                    n,
                    |o: int|
                        p(co, o) * exact::total(
                            c_in,
                            |ci: int|
                                exact::total(
                                    k,
                                    |d: int|
                                        (if to(o, d) >= 0 {
                                            q(ci, to(o, d))
                                        } else {
                                            0 as real
                                        }) * w(co, ci, d),
                                ),
                        ),
                ),
        ) == exact::total(
            c_in,
            |ci: int|
                exact::total(
                    m,
                    |i: int|
                        q(ci, i) * exact::total(
                            c_out,
                            |co: int|
                                exact::total(
                                    k,
                                    |d: int|
                                        (if back(i, d) >= 0 {
                                            p(co, back(i, d))
                                        } else {
                                            0 as real
                                        }) * w(co, ci, d),
                                ),
                        ),
                ),
        ),
{
    let read = |ci: int, d: int, o: int|
        if to(o, d) >= 0 {
            q(ci, to(o, d))
        } else {
            0 as real
        };
    let reread = |co: int, d: int, i: int|
        if back(i, d) >= 0 {
            p(co, back(i, d))
        } else {
            0 as real
        };
    let cell = |co: int, ci: int|
        exact::total(
            k,
            |d: int| w(co, ci, d) * exact::total(n, |o: int| p(co, o) * read(ci, d, o)),
        );
    let l = |co: int|
        exact::total(
            n,
            |o: int|
                p(co, o) * exact::total(
                    c_in,
                    |ci: int|
                        exact::total(
                            k,
                            |d: int|
                                (if to(o, d) >= 0 {
                                    q(ci, to(o, d))
                                } else {
                                    0 as real
                                }) * w(co, ci, d),
                        ),
                ),
        );
    let lc = |co: int| exact::total(c_in, |ci: int| cell(co, ci));
    assert forall|co: int| 0 <= co < c_out implies #[trigger] l(co) == lc(co) by {
        let pc = |o: int| p(co, o);
        let wc = |ci: int, d: int| w(co, ci, d);
        lemma_taken_inside(n, c_in, k, pc, read, wc);
        let (a1, a2) = (
            |o: int|
                p(co, o) * exact::total(
                    c_in,
                    |ci: int|
                        exact::total(
                            k,
                            |d: int|
                                (if to(o, d) >= 0 {
                                    q(ci, to(o, d))
                                } else {
                                    0 as real
                                }) * w(co, ci, d),
                        ),
                ),
            |o: int|
                pc(o) * exact::total(
                    c_in,
                    |ci: int| exact::total(k, |d: int| read(ci, d, o) * wc(ci, d)),
                ),
        );
        assert forall|o: int| 0 <= o < n implies #[trigger] a1(o) == a2(o) by {
            let (b1, b2) = (
                |ci: int|
                    exact::total(
                        k,
                        |d: int|
                            (if to(o, d) >= 0 {
                                q(ci, to(o, d))
                            } else {
                                0 as real
                            }) * w(co, ci, d),
                    ),
                |ci: int| exact::total(k, |d: int| read(ci, d, o) * wc(ci, d)),
            );
            assert forall|ci: int| 0 <= ci < c_in implies #[trigger] b1(ci) == b2(ci) by {
                exact::total_same(
                    k,
                    |d: int|
                        (if to(o, d) >= 0 {
                            q(ci, to(o, d))
                        } else {
                            0 as real
                        }) * w(co, ci, d),
                    |d: int| read(ci, d, o) * wc(ci, d),
                );
            }
            exact::total_same(c_in, b1, b2);
        }
        exact::total_same(n, a1, a2);
        let (e1, e2) = (
            |ci: int|
                exact::total(
                    k,
                    |d: int| wc(ci, d) * exact::total(n, |o: int| pc(o) * read(ci, d, o)),
                ),
            |ci: int| cell(co, ci),
        );
        assert forall|ci: int| 0 <= ci < c_in implies #[trigger] e1(ci) == e2(ci) by {
            let (h1, h2) = (
                |d: int| wc(ci, d) * exact::total(n, |o: int| pc(o) * read(ci, d, o)),
                |d: int| w(co, ci, d) * exact::total(n, |o: int| p(co, o) * read(ci, d, o)),
            );
            assert forall|d: int| 0 <= d < k implies #[trigger] h1(d) == h2(d) by {
                exact::total_same(
                    n,
                    |o: int| pc(o) * read(ci, d, o),
                    |o: int| p(co, o) * read(ci, d, o),
                );
            }
            exact::total_same(k, h1, h2);
        }
        exact::total_same(c_in, e1, e2);
    }
    exact::total_same(c_out, l, lc);
    exact::total_exchanged(c_out, c_in, cell);
    let r = |ci: int|
        exact::total(
            m,
            |i: int|
                q(ci, i) * exact::total(
                    c_out,
                    |co: int|
                        exact::total(
                            k,
                            |d: int|
                                (if back(i, d) >= 0 {
                                    p(co, back(i, d))
                                } else {
                                    0 as real
                                }) * w(co, ci, d),
                        ),
                ),
        );
    let rc = |ci: int| exact::total(c_out, |co: int| cell(co, ci));
    assert forall|ci: int| 0 <= ci < c_in implies #[trigger] rc(ci) == r(ci) by {
        let qc = |i: int| q(ci, i);
        let wc = |co: int, d: int| w(co, ci, d);
        lemma_taken_inside(m, c_out, k, qc, reread, wc);
        let (a1, a2) = (
            |i: int|
                q(ci, i) * exact::total(
                    c_out,
                    |co: int|
                        exact::total(
                            k,
                            |d: int|
                                (if back(i, d) >= 0 {
                                    p(co, back(i, d))
                                } else {
                                    0 as real
                                }) * w(co, ci, d),
                        ),
                ),
            |i: int|
                qc(i) * exact::total(
                    c_out,
                    |co: int| exact::total(k, |d: int| reread(co, d, i) * wc(co, d)),
                ),
        );
        assert forall|i: int| 0 <= i < m implies #[trigger] a1(i) == a2(i) by {
            let (b1, b2) = (
                |co: int|
                    exact::total(
                        k,
                        |d: int|
                            (if back(i, d) >= 0 {
                                p(co, back(i, d))
                            } else {
                                0 as real
                            }) * w(co, ci, d),
                    ),
                |co: int| exact::total(k, |d: int| reread(co, d, i) * wc(co, d)),
            );
            assert forall|co: int| 0 <= co < c_out implies #[trigger] b1(co) == b2(co) by {
                exact::total_same(
                    k,
                    |d: int|
                        (if back(i, d) >= 0 {
                            p(co, back(i, d))
                        } else {
                            0 as real
                        }) * w(co, ci, d),
                    |d: int| reread(co, d, i) * wc(co, d),
                );
            }
            exact::total_same(c_out, b1, b2);
        }
        exact::total_same(m, a1, a2);
        let (e1, e2) = (
            |co: int| cell(co, ci),
            |co: int|
                exact::total(
                    k,
                    |d: int| wc(co, d) * exact::total(m, |i: int| qc(i) * reread(co, d, i)),
                ),
        );
        assert forall|co: int| 0 <= co < c_out implies #[trigger] e1(co) == e2(co) by {
            let (h1, h2) = (
                |d: int| w(co, ci, d) * exact::total(n, |o: int| p(co, o) * read(ci, d, o)),
                |d: int| wc(co, d) * exact::total(m, |i: int| qc(i) * reread(co, d, i)),
            );
            assert forall|d: int| 0 <= d < k implies #[trigger] h1(d) == h2(d) by {
                let pc = |o: int| p(co, o);
                let (td, bd) = (|o: int| to(o, d), |i: int| back(i, d));
                assert forall|o: int, i: int|
                    #![trigger td(o), bd(i)]
                    0 <= o < n && 0 <= i < m implies (td(o) == i <==> bd(i) == o) by {
                    assert(to(o, d) == i <==> back(i, d) == o);
                }
                lemma_one_tap(n, m, pc, qc, td, bd);
                exact::total_same(
                    n,
                    |o: int| p(co, o) * read(ci, d, o),
                    |o: int|
                        pc(o) * if td(o) >= 0 {
                            qc(td(o))
                        } else {
                            0 as real
                        },
                );
                exact::total_same(
                    m,
                    |i: int| qc(i) * reread(co, d, i),
                    |i: int|
                        qc(i) * if bd(i) >= 0 {
                            pc(bd(i))
                        } else {
                            0 as real
                        },
                );
            }
            exact::total_same(k, h1, h2);
        }
        exact::total_same(c_out, e1, e2);
    }
    exact::total_same(c_in, rc, r);
}

/// Two kernels hold the same factors, the first for the forward and the second for the
/// transposed convolution.
pub open spec fn same_kernel<T>(w: &Conv1dWeight<T>, wt: &Conv1dWeight<T>) -> bool {
    &&& wt.in_ch == w.out_ch
    &&& wt.out_ch == w.in_ch
    &&& wt.k == w.k
    &&& forall|co: int, ci: int, d: int|
        0 <= co < w.out_ch && 0 <= ci < w.in_ch && 0 <= d < w.k ==> wt.data@[index::pos3(
            co,
            d,
            ci,
            w.k as int,
            w.in_ch as int,
        )] == #[trigger] w.data@[index::pos3(co, ci, d, w.in_ch as int, w.k as int)]
}

/// Nothing is added.
pub open spec fn no_bias<T>(val: spec_fn(T) -> real, bias: Seq<T>, n: int) -> bool {
    forall|j: int| 0 <= j < n ==> val(#[trigger] bias[j]) == 0 as real
}

/// The transposed convolution is the adjoint of the forward one: without rounding, and without
/// biases, the inner product of `u` with what the forward convolution makes of `x` is that of
/// `x` with what the transposed convolution makes of `u`, which is of the shape of `x` where the
/// stride leaves no input over.
pub proof fn transposed_is_adjoint<A: Arith>(
    a: &A,
    val: spec_fn(A::T) -> real,
    x: Seq<A::T>,
    s: [usize; 3],
    w: &Conv1dWeight<A::T>,
    bias: Seq<A::T>,
    y: Seq<A::T>,
    u: Seq<A::T>,
    su: [usize; 3],
    wt: &Conv1dWeight<A::T>,
    bias_t: Seq<A::T>,
    z: Seq<A::T>,
    pad: usize,
    stride: usize,
)
    requires
        exact::is_exact(a, val),
        exact::is_exact_gemm(a, val),
        conv::conv1d_ok(x.len() as int, s, w, bias, pad, stride, 1),
        conv::conv_transpose1d_ok(u.len() as int, su, wt, bias_t, pad, stride),
        su == conv::conv1d_shape(s, w, pad, stride, 1),
        conv::transposed_extent(su[2] as int, pad as int, w.k as int, stride as int) == s[2],
        same_kernel(w, wt),
        no_bias(val, bias, w.out_ch as int),
        no_bias(val, bias_t, wt.out_ch as int),
        conv::is_conv1d(a, x, s, w, bias, pad, stride, 1, y),
        conv::is_conv_transpose1d(a, u, su, wt, bias_t, pad, stride, z),
    ensures
        conv::conv_transpose1d_shape(su, wt, pad, stride) == s,
        inner(val, u, y, su[0] as int, su[1] as int, su[2] as int) == inner(
            val,
            x,
            z,
            s[0] as int,
            s[1] as int,
            s[2] as int,
        ),
{
    reveal(conv::conv1d_ok);
    reveal(conv::conv_transpose1d_ok);
    reveal(conv::is_conv1d);
    reveal(conv::is_conv_transpose1d);
    let (b, c_in, m) = (s[0] as int, s[1] as int, s[2] as int);
    let (c_out, n, k) = (su[1] as int, su[2] as int, w.k as int);
    let af = conv::forward_axis(s[2], pad, w.k, stride, 1);
    let at_axis = conv::transposed_axis(su[2], pad, wt.k, stride);
    conv::lemma_forward_extent(m, pad as int, k, stride as int, 1);
    assert(af.n_out == n && at_axis.n_out == m);
    assert(conv::conv_transpose1d_shape(su, wt, pad, stride) =~= s);
    assert(c_in * w.k <= usize::MAX && b * n <= usize::MAX) by {
        assert(c_in * af.k * conv::unit_axis().k == c_in * w.k) by (nonlinear_arith)
            requires
                conv::unit_axis().k == 1,
                af.k == w.k,
        ;
        assert(b * af.n_out * conv::unit_axis().n_out == b * n) by (nonlinear_arith)
            requires
                conv::unit_axis().n_out == 1,
                af.n_out == n,
        ;
    }
    assert(c_out * wt.k <= usize::MAX && b * m <= usize::MAX) by {
        assert(c_out * at_axis.k * conv::unit_axis().k == c_out * wt.k) by (nonlinear_arith)
            requires
                conv::unit_axis().k == 1,
                at_axis.k == wt.k,
        ;
        assert(b * at_axis.n_out * conv::unit_axis().n_out == b * m) by (nonlinear_arith)
            requires
                conv::unit_axis().n_out == 1,
                at_axis.n_out == m,
        ;
    }
    let l = |bi: int|
        exact::total(
            c_out,
            |co: int|
                exact::total(
                    n,
                    |o: int|
                        val(u[index::pos3(bi, co, o, c_out, n)]) * val(
                            y[index::pos3(bi, co, o, c_out, n)],
                        ),
                ),
        );
    let r = |bi: int|
        exact::total(
            c_in,
            |ci: int|
                exact::total(
                    m,
                    |i: int|
                        val(x[index::pos3(bi, ci, i, c_in, m)]) * val(
                            z[index::pos3(bi, ci, i, c_in, m)],
                        ),
                ),
        );
    assert forall|bi: int| 0 <= bi < b implies #[trigger] l(bi) == r(bi) by {
        let p = |co: int, o: int| val(u[index::pos3(bi, co, o, c_out, n)]);
        let q = |ci: int, i: int| val(x[index::pos3(bi, ci, i, c_in, m)]);
        let f = |co: int, ci: int, d: int| val(w.data@[index::pos3(co, ci, d, c_in, k)]);
        let to = |o: int, d: int| conv::tap(af, o, d);
        let back = |i: int, d: int| conv::tap(at_axis, i, d);
        assert forall|o: int, i: int, d: int|
            #![trigger to(o, d), back(i, d)]
            0 <= o < n && 0 <= i < m && 0 <= d < k implies (to(o, d) == i <==> back(i, d) == o) by {
            taps_are_inverse(s[2], su[2], pad, w.k, stride, o, i, d);
        }
        lemma_all_taps(c_out, n, c_in, m, k, p, q, f, to, back);
        let (l1, l2) = (
            |co: int|
                exact::total(
                    n,
                    |o: int|
                        val(u[index::pos3(bi, co, o, c_out, n)]) * val(
                            y[index::pos3(bi, co, o, c_out, n)],
                        ),
                ),
            |co: int|
                exact::total(
                    n,
                    |o: int|
                        p(co, o) * exact::total(
                            c_in,
                            |ci: int|
                                exact::total(
                                    k,
                                    |d: int|
                                        (if to(o, d) >= 0 {
                                            q(ci, to(o, d))
                                        } else {
                                            0 as real
                                        }) * f(co, ci, d),
                                ),
                        ),
                ),
        );
        assert forall|co: int| 0 <= co < c_out implies #[trigger] l1(co) == l2(co) by {
            let (a1, a2) = (
                |o: int|
                    val(u[index::pos3(bi, co, o, c_out, n)]) * val(
                        y[index::pos3(bi, co, o, c_out, n)],
                    ),
                |o: int|
                    p(co, o) * exact::total(
                        c_in,
                        |ci: int|
                            exact::total(
                                k,
                                |d: int|
                                    (if to(o, d) >= 0 {
                                        q(ci, to(o, d))
                                    } else {
                                        0 as real
                                    }) * f(co, ci, d),
                            ),
                    ),
            );
            assert forall|o: int| 0 <= o < n implies #[trigger] a1(o) == a2(o) by {
                lemma_convolved(a, val, x, b, c_in, af, c_out, w.data@, false, bias, y, bi, co, o);
                let (e1, e2) = (
                    |ci: int|
                        exact::total(
                            af.k as int,
                            |d: int|
                                at(val, x, c_in, af.n_in as int, bi, ci, conv::tap(af, o, d)) * val(
                                    w.data@[kernel_at(
                                        c_in,
                                        c_out,
                                        af.k as int,
                                        false,
                                        ci,
                                        co,
                                        d,
                                    )],
                                ),
                        ),
                    |ci: int|
                        exact::total(
                            k,
                            |d: int|
                                (if to(o, d) >= 0 {
                                    q(ci, to(o, d))
                                } else {
                                    0 as real
                                }) * f(co, ci, d),
                        ),
                );
                assert forall|ci: int| 0 <= ci < c_in implies #[trigger] e1(ci) == e2(ci) by {
                    exact::total_same(
                        k,
                        |d: int|
                            at(val, x, c_in, af.n_in as int, bi, ci, conv::tap(af, o, d)) * val(
                                w.data@[kernel_at(c_in, c_out, af.k as int, false, ci, co, d)],
                            ),
                        |d: int|
                            (if to(o, d) >= 0 {
                                q(ci, to(o, d))
                            } else {
                                0 as real
                            }) * f(co, ci, d),
                    );
                }
                exact::total_same(c_in, e1, e2);
            }
            exact::total_same(n, a1, a2);
        }
        exact::total_same(c_out, l1, l2);
        let (r1, r2) = (
            |ci: int|
                exact::total(
                    m,
                    |i: int|
                        val(x[index::pos3(bi, ci, i, c_in, m)]) * val(
                            z[index::pos3(bi, ci, i, c_in, m)],
                        ),
                ),
            |ci: int|
                exact::total(
                    m,
                    |i: int|
                        q(ci, i) * exact::total(
                            c_out,
                            |co: int|
                                exact::total(
                                    k,
                                    |d: int|
                                        (if back(i, d) >= 0 {
                                            p(co, back(i, d))
                                        } else {
                                            0 as real
                                        }) * f(co, ci, d),
                                ),
                        ),
                ),
        );
        assert forall|ci: int| 0 <= ci < c_in implies #[trigger] r1(ci) == r2(ci) by {
            let (a1, a2) = (
                |i: int|
                    val(x[index::pos3(bi, ci, i, c_in, m)]) * val(
                        z[index::pos3(bi, ci, i, c_in, m)],
                    ),
                |i: int|
                    q(ci, i) * exact::total(
                        c_out,
                        |co: int|
                            exact::total(
                                k,
                                |d: int|
                                    (if back(i, d) >= 0 {
                                        p(co, back(i, d))
                                    } else {
                                        0 as real
                                    }) * f(co, ci, d),
                            ),
                    ),
            );
            assert forall|i: int| 0 <= i < m implies #[trigger] a1(i) == a2(i) by {
                lemma_convolved(
                    a,
                    val,
                    u,
                    b,
                    c_out,
                    at_axis,
                    c_in,
                    wt.data@,
                    true,
                    bias_t,
                    z,
                    bi,
                    ci,
                    i,
                );
                let (e1, e2) = (
                    |co: int|
                        exact::total(
                            at_axis.k as int,
                            |d: int|
                                at(
                                    val,
                                    u,
                                    c_out,
                                    at_axis.n_in as int,
                                    bi,
                                    co,
                                    conv::tap(at_axis, i, d),
                                ) * val(
                                    wt.data@[kernel_at(
                                        c_out,
                                        c_in,
                                        at_axis.k as int,
                                        true,
                                        co,
                                        ci,
                                        d,
                                    )],
                                ),
                        ),
                    |co: int|
                        exact::total(
                            k,
                            |d: int|
                                (if back(i, d) >= 0 {
                                    p(co, back(i, d))
                                } else {
                                    0 as real
                                }) * f(co, ci, d),
                        ),
                );
                assert forall|co: int| 0 <= co < c_out implies #[trigger] e1(co) == e2(co) by {
                    let (g1, g2) = (
                        |d: int|
                            at(
                                val,
                                u,
                                c_out,
                                at_axis.n_in as int,
                                bi,
                                co,
                                conv::tap(at_axis, i, d),
                            ) * val(
                                wt.data@[kernel_at(
                                    c_out,
                                    c_in,
                                    at_axis.k as int,
                                    true,
                                    co,
                                    ci,
                                    d,
                                )],
                            ),
                        |d: int|
                            (if back(i, d) >= 0 {
                                p(co, back(i, d))
                            } else {
                                0 as real
                            }) * f(co, ci, d),
                    );
                    assert forall|d: int| 0 <= d < k implies #[trigger] g1(d) == g2(d) by {
                        assert(wt.data@[index::pos3(co, d, ci, k, c_in)] == w.data@[index::pos3(
                            co,
                            ci,
                            d,
                            c_in,
                            k,
                        )]);
                    }
                    exact::total_same(k, g1, g2);
                }
                exact::total_same(c_out, e1, e2);
            }
            exact::total_same(m, a1, a2);
        }
        exact::total_same(c_in, r1, r2);
    }
    exact::total_same(b, l, r);
}

} // verus!
