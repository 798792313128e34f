//! Long audio is the weighted mean of its chunks, stem by stem.
use vstd::prelude::*;
use crate::arith;
use crate::arith::Arith;
use crate::chunk;
use crate::dsp::Dsp;
use crate::engine;
use crate::engine::Engine;
use crate::engine::Network;
use crate::exact;
use crate::metadata::StemId;
use crate::Stem;
use crate::TRAINING_LENGTH;

verus! {

/// First sample of part `i` of long audio: the parts follow each other at three quarters of their
/// length.
pub open spec fn part_start(i: int) -> int {
    i * (TRAINING_LENGTH * 3 / 4)
}

/// The end of part `i` of audio of `n` samples.
pub open spec fn part_end(n: int, i: int) -> int {
    if part_start(i) + TRAINING_LENGTH < n {
        part_start(i) + TRAINING_LENGTH
    } else {
        n
    }
}

/// Part `i` of a channel.
pub open spec fn part<T>(x: Seq<T>, i: int) -> Seq<T> {
    x.subrange(part_start(i), part_end(x.len() as int, i))
}

/// How much sample `t` of part `i` counts, of audio of `n` samples: nothing outside the part and
/// at its ends, one in its middle, and in between by the distance to the nearer end.
pub open spec fn weight_of(n: int, i: int, t: int) -> real {
    let p = t - part_start(i);
    let last = part_end(n, i) - part_start(i) - 1;
    if p < 0 || p > last {
        0 as real
    } else if last == 0 {
        1 as real
    } else if p <= last - p {
        (2 * p) as real / last as real
    } else {
        (2 * (last - p)) as real / last as real
    }
}

/// One of the two channels of a stem.
pub open spec fn side<T>(s: Stem<T>, right: bool) -> Seq<T> {
    if right {
        s.right@
    } else {
        s.left@
    }
}

/// Sample `p` of the stem `id` among `stems`.
pub open spec fn given<T>(
    val: spec_fn(T) -> real,
    stems: Seq<Stem<T>>,
    id: StemId,
    right: bool,
    p: int,
) -> real {
    exact::total(
        stems.len() as int,
        |j: int|
            if stems[j].id == id {
                val(side(stems[j], right)[p])
            } else {
                0 as real
            },
    )
}

/// What the parts give of the stem `id` at sample `t`, each by its weight.
pub open spec fn weighted<T>(
    val: spec_fn(T) -> real,
    n: int,
    parts: Seq<Seq<Stem<T>>>,
    id: StemId,
    right: bool,
    t: int,
) -> real {
    exact::total(
        parts.len() as int,
        |i: int| weight_of(n, i, t) * given(val, parts[i], id, right, t - part_start(i)),
    )
}

/// The sum of the weights at sample `t`.
pub open spec fn weights_at(n: int, count: int, t: int) -> real {
    exact::total(count, |i: int| weight_of(n, i, t))
}

/// Sample `t` of `x` is the mean of what the parts give of the stem `id` there.
pub open spec fn is_mean<T>(
    val: spec_fn(T) -> real,
    parts: Seq<Seq<Stem<T>>>,
    id: StemId,
    right: bool,
    x: Seq<T>,
    t: int,
) -> bool {
    let n = x.len() as int;
    let w = weights_at(n, parts.len() as int, t);
    let sum = weighted(val, n, parts, id, right, t);
    if w > 0 as real {
        val(x[t]) == sum / w
    } else {
        val(x[t]) == sum
    }
}

/// Both names for the start and the end of a part.
proof fn lemma_parts(n: int, i: int)
    ensures
        part_start(i) == chunk::chunk_start(i),
        part_end(n, i) == chunk::chunk_end(n, i),
{
}

/// The position of a stem in a list without repetition.
proof fn lemma_row(order: Seq<StemId>, id: StemId, k: int, s: int)
    requires
        order.no_duplicates(),
        0 <= k <= s < order.len(),
    ensures
        engine::row_from(order, id, k) == s <==> order[s] == id,
    decreases order.len() - k,
{
    if order[k] == id {
    } else if k < s {
        lemma_row(order, id, k + 1, s);
    } else {
        lemma_row_after(order, id, k + 1);
    }
}

/// A position is looked for forwards.
proof fn lemma_row_after(order: Seq<StemId>, id: StemId, k: int)
    requires
        0 <= k <= order.len(),
    ensures
        k <= engine::row_from(order, id, k) <= order.len(),
    decreases order.len() - k,
{
    if k < order.len() && order[k] != id {
        lemma_row_after(order, id, k + 1);
    }
}

/// The window has the weights of the part.
proof fn lemma_window<A: Arith>(
    a: &A,
    val: spec_fn(A::T) -> real,
    n: int,
    i: int,
    t: int,
    win: Seq<A::T>,
)
    requires
        exact::is_exact(a, val),
        exact::is_exact_order(a, val),
        part_start(i) <= t < part_end(n, i),
        part_end(n, i) - part_start(i) <= TRAINING_LENGTH,
        chunk::is_triangular(a, part_end(n, i) - part_start(i), win),
    ensures
        val(win[t - part_start(i)]) == weight_of(n, i, t),
{
    let len = part_end(n, i) - part_start(i);
    let p = t - part_start(i);
    let r = win[p];
    assert((1 as real) / (1 as real) == 1 as real) by (nonlinear_arith);
    if len > 1 {
        let (two, k, m, den, q, one, e, f) = choose|
            two: A::T,
            k: A::T,
            m: A::T,
            den: A::T,
            q: A::T,
            one: A::T,
            e: A::T,
            f: A::T,
        |
            {
                &&& arith::is_ratio(a, 2, 1, two)
                &&& #[trigger] arith::is_count(a, p, k)
                &&& #[trigger] arith::is_product(a, two, k, m)
                &&& #[trigger] arith::is_count(a, len - 1, den)
                &&& #[trigger] arith::is_quotient(a, m, den, q)
                &&& arith::is_ratio(a, 1, 1, one)
                &&& #[trigger] arith::is_difference(a, q, one, e)
                &&& #[trigger] arith::is_magnitude(a, e, f)
                &&& arith::is_difference(a, one, f, r)
            };
        assert(val(k) == p as real);
        assert(val(den) == (len - 1) as real);
        assert((2 as real) / (1 as real) == 2 as real) by (nonlinear_arith);
        let (x, y) = (p as real, (len - 1) as real);
        assert((2 * p) as real == 2 as real * x);
        let z = (2 as real * x) / y;
        assert(val(q) == z);
        assert(z * y == 2 as real * x) by (nonlinear_arith)
            requires
                y > 0 as real,
                z == (2 as real * x) / y,
        ;
        if p <= len - 1 - p {
            assert(z <= 1 as real) by (nonlinear_arith)
                requires
                    z * y == 2 as real * x,
                    2 as real * x <= y,
                    y > 0 as real,
            ;
        } else {
            assert(z > 1 as real) by (nonlinear_arith)
                requires
                    z * y == 2 as real * x,
                    2 as real * x > y,
                    y > 0 as real,
            ;
            let v = (2 * (len - 1 - p)) as real;
            assert(v == 2 as real * y - 2 as real * x);
            assert(v / y == 2 as real - z) by (nonlinear_arith)
                requires
                    z * y == 2 as real * x,
                    v == 2 as real * y - 2 as real * x,
                    y > 0 as real,
            ;
        }
    }
}

/// What one part adds to the row of a stem.
proof fn lemma_part_added<A: Arith>(
    a: &A,
    val: spec_fn(A::T) -> real,
    order: Seq<StemId>,
    stems: Seq<Stem<A::T>>,
    right: bool,
    start: int,
    win: Seq<A::T>,
    rows: Seq<Seq<Seq<A::T>>>,
    s: int,
    t: int,
    j: int,
)
    requires
        exact::is_exact(a, val),
        order.no_duplicates(),
        rows.len() == stems.len() + 1,
        rows[0].len() == order.len(),
        0 <= s < order.len(),
        0 <= t < rows[0][s].len(),
        0 <= j <= stems.len(),
        forall|i: int|
            #![trigger stems[i]]
            0 <= i < stems.len() ==> engine::is_row_added(
                a,
                rows[i],
                engine::row_from(order, stems[i].id, 0),
                start,
                win,
                side(stems[i], right),
                rows[i + 1],
            ),
    ensures
        rows[j].len() == order.len(),
        rows[j][s].len() == rows[0][s].len(),
        val(rows[j][s][t]) == val(rows[0][s][t]) + if start <= t < start + win.len() {
            val(win[t - start]) * given(val, stems.take(j), order[s], right, t - start)
        } else {
            0 as real
        },
    decreases j,
{
    let id = order[s];
    let p = t - start;
    if j == 0 {
        assert(val(win[p]) * (0 as real) == 0 as real) by (nonlinear_arith);
    } else {
        lemma_part_added(a, val, order, stems, right, start, win, rows, s, t, j - 1);
        let x = stems[j - 1];
        lemma_row(order, x.id, 0, s);
        let out = rows[j];
        assert(engine::is_row_added(
            a,
            rows[j - 1],
            engine::row_from(order, x.id, 0),
            start,
            win,
            side(x, right),
            rows[j],
        ));
        let row = out[s];
        let before = stems.take(j - 1);
        let f = |i: int|
            if stems.take(j)[i].id == id {
                val(side(stems.take(j)[i], right)[p])
            } else {
                0 as real
            };
        let g = |i: int|
            if before[i].id == id {
                val(side(before[i], right)[p])
            } else {
                0 as real
            };
        assert forall|i: int| 0 <= i < j - 1 implies #[trigger] f(i) == g(i) by {}
        exact::total_same(j - 1, f, g);
        let w = val(win[p]);
        let (u, v) = (exact::total(j - 1, f), f(j - 1));
        assert(given(val, stems.take(j), id, right, p) == u + v);
        assert(w * (u + v) == w * u + w * v) by (nonlinear_arith);
        assert(w * (0 as real) == 0 as real) by (nonlinear_arith);
        if x.id == id {
            if start <= t < start + win.len() {
                let y = row[t];
                assert(chunk::is_weighted_sum(
                    a,
                    rows[j - 1][s][t],
                    win[p],
                    side(x, right)[p],
                    y,
                ));
            } else {
                let y = row[t];
            }
        }
    }
}

/// The sums after some parts.
proof fn lemma_sums<D: Dsp, M: Network<D>>(
    d: &D,
    val: spec_fn(D::T) -> real,
    e: &Engine<M>,
    left: Seq<D::T>,
    right: Seq<D::T>,
    chunks: Seq<Seq<Stem<D::T>>>,
    wins: Seq<Seq<D::T>>,
    ls: Seq<Seq<Seq<D::T>>>,
    rs: Seq<Seq<Seq<D::T>>>,
    ws: Seq<Seq<D::T>>,
    s: int,
    t: int,
    c: int,
)
    requires
        exact::is_exact(d, val),
        exact::is_exact_order(d, val),
        e.info.stems@.no_duplicates(),
        left.len() > TRAINING_LENGTH,
        engine::is_history(d, e, left, right, chunks, wins, ls, rs, ws),
        chunks.len() == chunk::chunk_count(left.len() as int),
        0 <= s < e.info.stems@.len(),
        0 <= t < left.len(),
        0 <= c <= chunks.len(),
    ensures
        ls[c].len() == e.info.stems@.len(),
        rs[c].len() == e.info.stems@.len(),
        ls[c][s].len() == left.len(),
        rs[c][s].len() == left.len(),
        ws[c].len() == left.len(),
        val(ls[c][s][t]) == weighted(
            val,
            left.len() as int,
            chunks.take(c),
            e.info.stems@[s],
            false,
            t,
        ),
        val(rs[c][s][t]) == weighted(
            val,
            left.len() as int,
            chunks.take(c),
            e.info.stems@[s],
            true,
            t,
        ),
        val(ws[c][t]) == weights_at(left.len() as int, c, t),
    decreases c,
{
    let n = left.len() as int;
    let order = e.info.stems@;
    if c == 0 {
        let (x, y) = (ls[0][s], rs[0][s]);
        assert(arith::is_zero(d, x[t]) && arith::is_zero(d, y[t]) && arith::is_zero(d, ws[0][t]));
    } else {
        lemma_sums(d, val, e, left, right, chunks, wins, ls, rs, ws, s, t, c - 1);
        let i = c - 1;
        let stems = chunks[i];
        lemma_parts(n, i);
        chunk::chunks_inside(n, i);
        let start = chunk::chunk_start(i);
        let win = wins[i];
        let (l, r) = choose|l: Seq<Seq<Seq<D::T>>>, r: Seq<Seq<Seq<D::T>>>|
            {
                &&& #[trigger] engine::are_stem_sums(d, order, stems, start, win, l, r)
                &&& l[0] == ls[i]
                &&& r[0] == rs[i]
                &&& l.last() == ls[c]
                &&& r.last() == rs[c]
            };
        let m = stems.len() as int;
        lemma_part_added(d, val, order, stems, false, start, win, l, s, t, m);
        lemma_part_added(d, val, order, stems, true, start, win, r, s, t, m);
        assert(stems.take(m) =~= stems);
        if start <= t < start + win.len() {
            lemma_window(d, val, n, i, t, win);
        }
        let y = ws[c][t];
        lemma_one_more(val, n, chunks, order[s], false, t, c);
        lemma_one_more(val, n, chunks, order[s], true, t, c);
        let g = given(val, stems, order[s], false, t - start);
        let h = given(val, stems, order[s], true, t - start);
        assert((0 as real) * g == 0 as real) by (nonlinear_arith);
        assert((0 as real) * h == 0 as real) by (nonlinear_arith);
    }
}

/// One part more.
proof fn lemma_one_more<T>(
    val: spec_fn(T) -> real,
    n: int,
    parts: Seq<Seq<Stem<T>>>,
    id: StemId,
    right: bool,
    t: int,
    c: int,
)
    requires
        0 < c <= parts.len(),
    ensures
        weighted(val, n, parts.take(c), id, right, t) == weighted(
            val,
            n,
            parts.take(c - 1),
            id,
            right,
            t,
        ) + weight_of(n, c - 1, t) * given(val, parts[c - 1], id, right, t - part_start(c - 1)),
{
    let x = parts.take(c);
    let y = parts.take(c - 1);
    let f = |i: int| weight_of(n, i, t) * given(val, x[i], id, right, t - part_start(i));
    let g = |i: int| weight_of(n, i, t) * given(val, y[i], id, right, t - part_start(i));
    assert forall|i: int| 0 <= i < c - 1 implies #[trigger] f(i) == g(i) by {
        assert(x[i] == y[i]);
    }
    exact::total_same(c - 1, f, g);
}

/// Audio longer than a segment is separated in parts, and each stem is, sample by sample, the
/// weighted mean of what the parts gave of that same stem: of no other stem, on no other side, and
/// of all parts in which the sample lies.
pub proof fn long_audio_is_the_mean_of_its_parts<D: Dsp, M: Network<D>>(
    d: &D,
    val: spec_fn(D::T) -> real,
    e: &Engine<M>,
    left: Seq<D::T>,
    right: Seq<D::T>,
    out: Seq<Stem<D::T>>,
) -> (parts: Seq<Seq<Stem<D::T>>>)
    requires
        exact::is_exact(d, val),
        exact::is_exact_order(d, val),
        e.info.stems@.no_duplicates(),
        left.len() > TRAINING_LENGTH,
        right.len() >= left.len(),
        engine::is_native(d, e, left, right, out),
    ensures
        forall|i: int|
            #![trigger parts[i]]
            0 <= i < parts.len() ==> engine::is_segment(
                d,
                e,
                part(left, i),
                part(right.take(left.len() as int), i),
                parts[i],
            ),
        part_start(parts.len() - 1) < left.len() <= part_start(parts.len() - 1) + TRAINING_LENGTH,
        out.len() == e.info.stems@.len(),
        forall|s: int| 0 <= s < out.len() ==> (#[trigger] out[s]).id == e.info.stems@[s],
        forall|s: int, t: int|
            #![trigger out[s].left@[t]]
            0 <= s < out.len() && 0 <= t < left.len() ==> is_mean(
                val,
                parts,
                out[s].id,
                false,
                out[s].left@,
                t,
            ),
        forall|s: int, t: int|
            #![trigger out[s].right@[t]]
            0 <= s < out.len() && 0 <= t < left.len() ==> is_mean(
                val,
                parts,
                out[s].id,
                true,
                out[s].right@,
                t,
            ),
{
    let n = left.len() as int;
    let (chunks, wins, ls, rs, ws) = choose|
        chunks: Seq<Seq<Stem<D::T>>>,
        wins: Seq<Seq<D::T>>,
        ls: Seq<Seq<Seq<D::T>>>,
        rs: Seq<Seq<Seq<D::T>>>,
        ws: Seq<Seq<D::T>>,
    |
        {
            &&& #[trigger] engine::is_history(d, e, left, right, chunks, wins, ls, rs, ws)
            &&& chunks.len() == chunk::chunk_count(n)
            &&& out.len() == e.info.stems@.len()
            &&& forall|s: int|
                #![trigger out[s]]
                0 <= s < out.len() ==> {
                    &&& out[s].id == e.info.stems@[s]
                    &&& chunk::is_unweighted(d, ls.last()[s], ws.last(), out[s].left@)
                    &&& chunk::is_unweighted(d, rs.last()[s], ws.last(), out[s].right@)
                }
        };
    let count = chunks.len() as int;
    chunk::one_chunk_iff_short(n);
    chunk::chunks_inside(n, count - 1);
    chunk::last_chunk_ends_audio(n, count - 1);
    lemma_parts(n, count - 1);
    assert forall|i: int|
        #![trigger chunks[i]]
        0 <= i < chunks.len() implies engine::is_segment(
        d,
        e,
        part(left, i),
        part(right.take(n), i),
        chunks[i],
    ) by {
        lemma_parts(n, i);
        chunk::chunks_inside(n, i);
        assert(part(left, i) =~= engine::chunk_of(left, n, i));
        assert(part(right.take(n), i) =~= engine::chunk_of(right, n, i));
    }
    assert(chunks.take(count) =~= chunks);
    assert forall|s: int, t: int|
        #![trigger out[s].left@[t]]
        0 <= s < out.len() && 0 <= t < left.len() implies is_mean(
        val,
        chunks,
        out[s].id,
        false,
        out[s].left@,
        t,
    ) by {
        lemma_sums(d, val, e, left, right, chunks, wins, ls, rs, ws, s, t, count);
        let r = out[s].left@[t];
        assert(chunk::is_unweighted_value(d, ls.last()[s][t], ws.last()[t], r));
    }
    assert forall|s: int, t: int|
        #![trigger out[s].right@[t]]
        0 <= s < out.len() && 0 <= t < left.len() implies is_mean(
        val,
        chunks,
        out[s].id,
        true,
        out[s].right@,
        t,
    ) by {
        lemma_sums(d, val, e, left, right, chunks, wins, ls, rs, ws, s, t, count);
        let r = out[s].right@[t];
        assert(chunk::is_unweighted_value(d, rs.last()[s][t], ws.last()[t], r));
    }
    chunks
}

/// Where every part gives the number `c` for a stem at sample `t`, that stem is `c` there.
pub proof fn means_of_equal_numbers<T>(
    val: spec_fn(T) -> real,
    parts: Seq<Seq<Stem<T>>>,
    id: StemId,
    right: bool,
    x: Seq<T>,
    t: int,
    c: real,
)
    requires
        is_mean(val, parts, id, right, x, t),
        weights_at(x.len() as int, parts.len() as int, t) > 0 as real,
        forall|i: int|
            #![trigger parts[i]]
            0 <= i < parts.len() && part_start(i) <= t < part_end(x.len() as int, i) ==> given(
                val,
                parts[i],
                id,
                right,
                t - part_start(i),
            ) == c,
    ensures
        val(x[t]) == c,
{
    let n = x.len() as int;
    let count = parts.len() as int;
    let f = |i: int| weight_of(n, i, t) * given(val, parts[i], id, right, t - part_start(i));
    let w = |i: int| weight_of(n, i, t);
    let g = |i: int| c * w(i);
    assert forall|i: int| 0 <= i < count implies #[trigger] f(i) == g(i) by {
        let p = parts[i];
        let (u, v) = (weight_of(n, i, t), given(val, p, id, right, t - part_start(i)));
        assert(u * v == c * u) by (nonlinear_arith)
            requires
                v == c || u == 0 as real,
        ;
    }
    exact::total_same(count, f, g);
    exact::total_scaled(count, c, w);
    exact::total_same(count, w, |i: int| weight_of(n, i, t));
    let (s, z) = (weighted(val, n, parts, id, right, t), weights_at(n, count, t));
    assert(s == c * z);
    assert(s / z == c) by (nonlinear_arith)
        requires
            s == c * z,
            z > 0 as real,
    ;
}

} // verus!
