//! How the two branches enter and leave the transformer, without rounding.
use vstd::prelude::*;
use crate::arith::Arith;
use crate::exact;
use crate::index;
use crate::model::CrossDomainTransformer;
use crate::model::LayerNorm1;
use crate::ops_cpu::attention;
use crate::ops_cpu::elementwise;
use crate::ops_cpu::embedding;
use crate::ops_cpu::layout;
use crate::ops_cpu::operator_laws;
use crate::ops_cpu::transformer;

verus! {

/// Token `p` of `out` holds the features `y`, normalized among themselves, by the gain and the
/// shift of each feature, plus the embedding of the position.
pub open spec fn is_entered<T>(
    val: spec_fn(T) -> real,
    y: Seq<T>,
    ln: &LayerNorm1<T>,
    pe: Seq<T>,
    p: int,
    mean: real,
    var: real,
    inv: real,
    out: Seq<T>,
) -> bool {
    let d = y.len() as int;
    &&& operator_laws::are_moments(val, y, mean, var)
    &&& inv > 0 as real
    &&& (inv * inv) * (var + 1 as real / 100000 as real) == 1 as real
    &&& forall|c: int|
        0 <= c < d ==> val(#[trigger] out[p * d + c]) == ((val(y[c]) - mean) * inv) * val(
            ln.gamma@[c],
        ) + val(ln.beta@[c]) + val(pe[p * d + c])
}

/// One token of a normalized and embedded sequence.
proof fn lemma_entered<A: Arith>(
    a: &A,
    val: spec_fn(A::T) -> real,
    x: Seq<A::T>,
    ln: &LayerNorm1<A::T>,
    d: int,
    tokens: int,
    n: Seq<A::T>,
    pe: Seq<A::T>,
    out: Seq<A::T>,
    p: int,
) -> (r: (real, real, real))
    requires
        exact::is_exact(a, val),
        exact::is_exact_order(a, val),
        exact::is_exact_root(a, val),
        0 < d,
        x.len() == tokens * d,
        x.len() <= usize::MAX,
        attention::is_layernorm(a, x, ln, d, n),
        elementwise::is_added(a, n, pe, out),
        0 <= p < tokens,
    ensures
        is_entered(val, x.subrange(p * d, p * d + d), ln, pe, p, r.0, r.1, r.2, out),
{
    assert(x.len() as int / (d * 1) == tokens) by {
        assert(tokens * d == d * tokens) by (nonlinear_arith);
        vstd::arithmetic::div_mod::lemma_div_multiples_vanish(tokens, d);
    }
    let r = operator_laws::runs_are_normalized(a, val, x, d, 1, ln.gamma@, ln.beta@, n, p);
    assert(d * 1 == d && p * (d * 1) == p * d && (p + 1) * (d * 1) == p * d + d)
        by (nonlinear_arith);
    index::lemma_pair(p, d - 1, tokens, d);
    index::lemma_pair(p, 0, tokens, d);
    let y = x.subrange(p * d, p * d + d);
    assert(n.len() == x.len()) by {
        reveal(crate::ops_cpu::norm::is_run_normalized);
    }
    assert forall|c: int| 0 <= c < d implies val(#[trigger] out[p * d + c]) == ((val(y[c]) - r.0)
        * r.2) * val(ln.gamma@[c]) + val(ln.beta@[c]) + val(pe[p * d + c]) by {
        index::lemma_pair(p, c, tokens, d);
        operator_laws::adding_is_by_number(a, val, n, pe, out, p * d + c);
        assert(n[p * (d * 1) + c] == n[p * d + c]);
        assert(x[p * (d * 1) + c] == y[c]);
        assert(c / 1 == c);
    }
    r
}

/// The spectrogram enters as one token for each frame and frequency, the frequencies of one frame
/// together; a token holds the channels, brought to the width of the transformer, normalized, with
/// the embedding of the place on the grid added.
pub proof fn frames_enter_frequency_by_frequency<A: Arith>(
    a: &A,
    val: spec_fn(A::T) -> real,
    x: Seq<A::T>,
    s: [usize; 4],
    ct: &CrossDomainTransformer<A::T>,
    f: Seq<A::T>,
    t: int,
    fr: int,
) -> (r: (Seq<A::T>, Seq<A::T>, Seq<A::T>, real, real, real))
    requires
        exact::is_exact(a, val),
        exact::is_exact_order(a, val),
        exact::is_exact_root(a, val),
        0 < ct.norm_in.dim,
        s[3] * s[2] * ct.norm_in.dim <= usize::MAX,
        0 <= t < s[3],
        0 <= fr < s[2],
        transformer::is_freq_input(a, x, s, ct, f),
    ensures
        ({
            let (u, pe, y, mean, var, inv) = r;
            let d = ct.norm_in.dim as int;
            &&& transformer::is_resampled4(
                a,
                x,
                s,
                &ct.channel_upsampler,
                &ct.channel_upsampler_bias,
                u,
            )
            &&& embedding::is_embed_2d(a, d, s[2] as int, s[3] as int, pe)
            &&& y.len() == d
            &&& forall|c: int| 0 <= c < d ==> #[trigger] y[c] == u[(c * s[2] + fr) * s[3] + t]
            &&& is_entered(val, y, &ct.norm_in, pe, t * s[2] + fr, mean, var, inv, f)
        }),
{
    reveal(transformer::is_freq_input);
    let d = ct.norm_in.dim as int;
    let (h, w) = (s[2] as int, s[3] as int);
    let (u, n, pe) = choose|u: Seq<A::T>, n: Seq<A::T>, pe: Seq<A::T>|
        {
            &&& #[trigger] transformer::is_resampled4(
                a,
                x,
                s,
                &ct.channel_upsampler,
                &ct.channel_upsampler_bias,
                u,
            )
            &&& #[trigger] attention::is_layernorm(
                a,
                layout::reversed(u, d, h, w),
                &ct.norm_in,
                d,
                n,
            )
            &&& #[trigger] embedding::is_embed_2d(a, d, h, w, pe)
            &&& elementwise::is_added(a, n, pe, f)
        };
    let v = layout::reversed(u, d, h, w);
    let p = t * h + fr;
    index::lemma_pair(t, fr, w, h);
    assert(0 <= w * h * d) by (nonlinear_arith)
        requires
            0 <= w,
            0 <= h,
            0 <= d,
    ;
    let (mean, var, inv) = lemma_entered(a, val, v, &ct.norm_in, d, w * h, n, pe, f, p);
    let y = v.subrange(p * d, p * d + d);
    index::lemma_pair(p, d - 1, w * h, d);
    index::lemma_pair(p, 0, w * h, d);
    assert forall|c: int| 0 <= c < d implies #[trigger] y[c] == u[(c * s[2] + fr) * s[3] + t] by {
        layout::reversed_element(u, d, h, w, c, fr, t);
    }
    (u, pe, y, mean, var, inv)
}

/// The waveform enters as one token for each step; a token holds the channels, brought to the width
/// of the transformer, normalized, with the embedding of the step added.
pub proof fn steps_enter_one_by_one<A: Arith>(
    a: &A,
    val: spec_fn(A::T) -> real,
    x: Seq<A::T>,
    s: [usize; 3],
    ct: &CrossDomainTransformer<A::T>,
    f: Seq<A::T>,
    t: int,
) -> (r: (Seq<A::T>, Seq<A::T>, Seq<A::T>, real, real, real))
    requires
        exact::is_exact(a, val),
        exact::is_exact_order(a, val),
        exact::is_exact_root(a, val),
        0 < ct.norm_in.dim,
        s[2] * ct.norm_in.dim <= usize::MAX,
        0 <= t < s[2],
        transformer::is_time_input(a, x, s, ct, f),
    ensures
        ({
            let (u, pe, y, mean, var, inv) = r;
            let d = ct.norm_in.dim as int;
            &&& transformer::is_resampled3(
                a,
                x,
                s,
                &ct.channel_upsampler_t,
                &ct.channel_upsampler_t_bias,
                u,
            )
            &&& embedding::is_embed_1d(a, s[2] as int, d, pe)
            &&& y.len() == d
            &&& forall|c: int| 0 <= c < d ==> #[trigger] y[c] == u[c * s[2] + t]
            &&& is_entered(val, y, &ct.norm_in_t, pe, t, mean, var, inv, f)
        }),
{
    reveal(transformer::is_time_input);
    let d = ct.norm_in.dim as int;
    let w = s[2] as int;
    let (u, n, pe) = choose|u: Seq<A::T>, n: Seq<A::T>, pe: Seq<A::T>|
        {
            &&& #[trigger] transformer::is_resampled3(
                a,
                x,
                s,
                &ct.channel_upsampler_t,
                &ct.channel_upsampler_t_bias,
                u,
            )
            &&& #[trigger] attention::is_layernorm(
                a,
                layout::swapped(u, 1, d, w, 1),
                &ct.norm_in_t,
                d,
                n,
            )
            &&& #[trigger] embedding::is_embed_1d(a, w, d, pe)
            &&& elementwise::is_added(a, n, pe, f)
        };
    let v = layout::swapped(u, 1, d, w, 1);
    assert(v.len() == w * d) by {
        assert(1 * w * d * 1 == w * d) by (nonlinear_arith);
        assert(0 <= w * d) by (nonlinear_arith)
            requires
                0 <= w,
                0 <= d,
        ;
    }
    let (mean, var, inv) = lemma_entered(a, val, v, &ct.norm_in_t, d, w, n, pe, f, t);
    let y = v.subrange(t * d, t * d + d);
    index::lemma_pair(t, d - 1, w, d);
    index::lemma_pair(t, 0, w, d);
    assert forall|c: int| 0 <= c < d implies #[trigger] y[c] == u[c * s[2] + t] by {
        index::lemma_pair(t, c, w, d);
        layout::swapped_element(u, 1, d, w, 1, 0, c, t, 0);
        assert(index::pos4(0, t, c, 0, w, d, 1) == t * d + c) by {
            assert((0 * w + t) * d + c == t * d + c) by (nonlinear_arith);
        }
        assert(index::pos4(0, c, t, 0, d, w, 1) == c * w + t) by {
            assert((0 * d + c) * w + t == c * w + t) by (nonlinear_arith);
        }
    }
    (u, pe, y, mean, var, inv)
}

/// The tokens come back to the places that they came from, and are brought back to the width of the
/// layers; between lie five layers, each of which takes what the one before gave.
pub proof fn tokens_come_back_to_their_places<A: Arith>(
    a: &A,
    freq: Seq<A::T>,
    fs: [usize; 4],
    time: Seq<A::T>,
    ts: [usize; 3],
    ct: &CrossDomainTransformer<A::T>,
    freq_out: Seq<A::T>,
    time_out: Seq<A::T>,
) -> (r: (Seq<A::T>, Seq<A::T>, Seq<(Seq<A::T>, Seq<A::T>)>, Seq<A::T>, Seq<A::T>))
    requires
        0 < ct.norm_in.dim,
        transformer::is_cross_domain(a, freq, fs, time, ts, ct, freq_out, time_out),
    ensures
        ({
            let (f, t, trace, g, u) = r;
            let d = ct.norm_in.dim;
            &&& transformer::is_freq_input(a, freq, fs, ct, f)
            &&& transformer::is_time_input(a, time, ts, ct, t)
            &&& trace.len() == 5
            &&& forall|i: int|
                #![trigger trace[i]]
                0 <= i < 5 ==> transformer::is_layer_pair(
                    a,
                    if i == 0 {
                        f
                    } else {
                        trace[i - 1].0
                    },
                    [1, (fs[3] * fs[2]) as usize, d],
                    if i == 0 {
                        t
                    } else {
                        trace[i - 1].1
                    },
                    [1, ts[2], d],
                    &ct.layers@[i],
                    &ct.layers_t@[i],
                    trace[i].0,
                    trace[i].1,
                )
            &&& forall|c: int, fr: int, p: int|
                0 <= c < d && 0 <= fr < fs[2] && 0 <= p < fs[3] ==> #[trigger] g[index::pos3(
                    c,
                    fr,
                    p,
                    fs[2] as int,
                    fs[3] as int,
                )] == trace[4].0[(p * fs[2] + fr) * d + c]
            &&& forall|c: int, p: int|
                0 <= c < d && 0 <= p < ts[2] ==> #[trigger] u[index::pos2(c, p, ts[2] as int)]
                    == trace[4].1[p * d + c]
            &&& transformer::is_resampled4(
                a,
                g,
                [1, d, fs[2], fs[3]],
                &ct.channel_downsampler,
                &ct.channel_downsampler_bias,
                freq_out,
            )
            &&& transformer::is_resampled3(
                a,
                u,
                [1, d, ts[2]],
                &ct.channel_downsampler_t,
                &ct.channel_downsampler_t_bias,
                time_out,
            )
        }),
{
    reveal(transformer::is_cross_domain);
    reveal(transformer::is_cross_domain_traced);
    let trace = choose|trace: Seq<(Seq<A::T>, Seq<A::T>)>| #[trigger]
        transformer::is_cross_domain_traced(
            a,
            freq,
            fs,
            time,
            ts,
            ct,
            trace,
            freq_out,
            time_out,
        );
    let d = ct.norm_in.dim;
    let g = layout::reversed(trace[4].0, fs[3] as int, fs[2] as int, d as int);
    let u = layout::swapped(trace[4].1, 1, ts[2] as int, d as int, 1);
    let (f, t) = choose|f: Seq<A::T>, t: Seq<A::T>|
        {
            &&& #[trigger] transformer::is_freq_input(a, freq, fs, ct, f)
            &&& #[trigger] transformer::is_time_input(a, time, ts, ct, t)
            &&& trace.len() == 5
            &&& transformer::is_layer_trace(
                a,
                f,
                transformer::freq_seq_shape(fs, d),
                t,
                transformer::time_seq_shape(ts, d),
                ct,
                trace,
            )
            &&& transformer::is_resampled4(
                a,
                g,
                [1, d, fs[2], fs[3]],
                &ct.channel_downsampler,
                &ct.channel_downsampler_bias,
                freq_out,
            )
            &&& transformer::is_resampled3(
                a,
                u,
                [1, d, ts[2]],
                &ct.channel_downsampler_t,
                &ct.channel_downsampler_t_bias,
                time_out,
            )
        };
    assert forall|c: int, fr: int, p: int|
        0 <= c < d && 0 <= fr < fs[2] && 0 <= p < fs[3] implies #[trigger] g[index::pos3(
        c,
        fr,
        p,
        fs[2] as int,
        fs[3] as int,
    )] == trace[4].0[(p * fs[2] + fr) * d + c] by {
        layout::reversed_element(
            trace[4].0,
            fs[3] as int,
            fs[2] as int,
            d as int,
            p,
            fr,
            c,
        );
    }
    assert forall|c: int, p: int| 0 <= c < d && 0 <= p < ts[2] implies #[trigger] u[index::pos2(
        c,
        p,
        ts[2] as int,
    )] == trace[4].1[p * d + c] by {
        let w = ts[2] as int;
        layout::swapped_element(trace[4].1, 1, w, d as int, 1, 0, p, c, 0);
        assert(index::pos4(0, c, p, 0, d as int, w, 1) == c * w + p) by {
            assert((0 * d + c) * w + p == c * w + p) by (nonlinear_arith);
        }
        assert(index::pos4(0, p, c, 0, w, d as int, 1) == p * d + c) by {
            assert((0 * w + p) * d + c == p * d + c) by (nonlinear_arith);
        }
    }
    (f, t, trace, g, u)
}

} // verus!
