//! Where the two channels of audio lie on their way into the network, and that the stems are read
//! where they lie on their way out.
use vstd::prelude::*;
use crate::arith;
use crate::cpu_engine;
use crate::cpu_engine::N_BINS;
use crate::dsp;
use crate::dsp::cac;
use crate::dsp::Complex;
use crate::dsp::Dsp;
use crate::engine;
use crate::engine::Engine;
use crate::engine::Network;
use crate::index;
use crate::ops_cpu::stems;
use crate::Stem;
use crate::HOP_LENGTH;
use crate::N_FFT;
use crate::SAMPLE_RATE;
use crate::TRAINING_LENGTH;

verus! {

/// `out` has the bins of `spec`, frame by frame, and a silent one above them.
pub open spec fn is_with_silent_bin<D: Dsp>(
    d: &D,
    spec: Seq<Complex<D::T>>,
    bins: int,
    frames: int,
    out: Seq<Complex<D::T>>,
) -> bool {
    &&& out.len() == frames * (bins + 1)
    &&& forall|f: int, b: int|
        0 <= f < frames && 0 <= b < bins ==> #[trigger] out[f * (bins + 1) + b] == spec[f * bins
            + b]
    &&& forall|f: int|
        0 <= f < frames ==> arith::is_zero(d, (#[trigger] out[f * (bins + 1) + bins]).re)
            && arith::is_zero(d, out[f * (bins + 1) + bins].im)
}

/// The network is handed four planes: the real and the imaginary parts of the left channel, then
/// those of the right one, each by bins and frames.
pub proof fn spectrograms_lie_plane_by_plane<T>(
    ls: Seq<Complex<T>>,
    rs: Seq<Complex<T>>,
    bins: int,
    frames: int,
    b: int,
    f: int,
)
    requires
        0 < bins,
        0 < frames,
        ls.len() == bins * frames,
        rs.len() == bins * frames,
        0 <= b < bins,
        0 <= f < frames,
    ensures
        ({
            let x = cpu_engine::freq_tensor(
                cac::cac_of(ls, bins),
                cac::cac_of(rs, bins),
                bins,
                frames,
            );
            &&& x.len() == 4 * (bins * frames)
            &&& x[(0 * bins + b) * frames + f] == ls[f * bins + b].re
            &&& x[(1 * bins + b) * frames + f] == ls[f * bins + b].im
            &&& x[(2 * bins + b) * frames + f] == rs[f * bins + b].re
            &&& x[(3 * bins + b) * frames + f] == rs[f * bins + b].im
        }),
{
    lemma_cac(ls, bins, frames, b, f);
    lemma_cac(rs, bins, frames, b, f);
    let n = bins * frames;
    assert(2 * bins * frames == 2 * n && (0 * bins + b) * frames + f == b * frames + f && (1 * bins
        + b) * frames + f == n + (b * frames + f) && (2 * bins + b) * frames + f == 2 * n + (b
        * frames + f) && (3 * bins + b) * frames + f == 3 * n + (b * frames + f))
        by (nonlinear_arith)
        requires
            n == bins * frames,
    ;
    index::lemma_pair(b, f, bins, frames);
    assert(b * frames + f < n);
}

/// One channel by planes.
proof fn lemma_cac<T>(spec: Seq<Complex<T>>, bins: int, frames: int, b: int, f: int)
    requires
        0 < bins,
        0 < frames,
        spec.len() == bins * frames,
        0 <= b < bins,
        0 <= f < frames,
    ensures
        cac::cac_of(spec, bins).len() == 2 * bins * frames,
        cac::cac_of(spec, bins)[b * frames + f] == spec[f * bins + b].re,
        cac::cac_of(spec, bins)[bins * frames + (b * frames + f)] == spec[f * bins + b].im,
{
    assert(spec.len() as int / bins == frames) by {
        vstd::arithmetic::div_mod::lemma_div_multiples_vanish(frames, bins);
    }
    assert(0 <= 2 * bins * frames) by (nonlinear_arith)
        requires
            0 < bins,
            0 < frames,
    ;
    index::lemma_triple(0, b, f, 2, bins, frames);
    index::lemma_triple(1, b, f, 2, bins, frames);
    assert(index::pos3(1, b, f, bins, frames) == bins * frames + (b * frames + f)) by {
        assert((1 * bins + b) * frames + f == bins * frames + (b * frames + f)) by (nonlinear_arith);
    }
    assert(index::pos3(0, b, f, bins, frames) == b * frames + f);
}

/// The waveforms lie one after the other, the left one first.
pub proof fn waveforms_lie_one_after_the_other<T>(left: Seq<T>, right: Seq<T>, n: int, z: T)
    requires
        left.len() == n,
        right.len() == n,
    ensures
        cpu_engine::time_tensor(left, right, n, z) == left + right,
{
    assert(cpu_engine::time_tensor(left, right, n, z) =~= left + right);
}

/// Short audio is filled up behind.
pub proof fn segments_are_filled_up_behind<T>(x: Seq<T>, z: T)
    requires
        x.len() <= TRAINING_LENGTH,
    ensures
        engine::padded_segment(x, z).len() == TRAINING_LENGTH,
        engine::padded_segment(x, z).take(x.len() as int) == x,
        forall|t: int|
            x.len() <= t < TRAINING_LENGTH ==> #[trigger] engine::padded_segment(x, z)[t] == z,
{
    let y = engine::padded_segment(x, z);
    assert(1 * TRAINING_LENGTH == TRAINING_LENGTH);
    assert forall|t: int| 0 <= t < TRAINING_LENGTH implies #[trigger] y[t] == if t < x.len() {
        x[t]
    } else {
        z
    } by {
        vstd::arithmetic::div_mod::lemma_small_mod(t as nat, TRAINING_LENGTH as nat);
        assert(t / TRAINING_LENGTH as int == 0);
        assert(0 * x.len() as int + t == t);
    }
    assert(y.take(x.len() as int) =~= x);
}

/// The spectrogram of one channel of a stem, where the network gives back what it was handed.
proof fn lemma_read_back<D: Dsp>(
    d: &D,
    spec: Seq<Complex<D::T>>,
    x: Seq<D::T>,
    s: [usize; 4],
    frames: int,
    c: int,
    padded_len: usize,
    r: core::result::Result<Vec<D::T>, crate::error::DemucsError>,
) -> (out: Seq<Complex<D::T>>)
    requires
        0 < s[2],
        0 < frames,
        s[3] == frames,
        spec.len() == s[2] * frames,
        0 <= c,
        (c + 2) * (s[2] * frames) <= x.len(),
        x.subrange(c * (s[2] * frames), (c + 2) * (s[2] * frames)) == cac::cac_of(
            spec,
            s[2] as int,
        ),
        stems::is_channel_wave(d, x, s, frames, c, padded_len, r),
    ensures
        is_with_silent_bin(d, spec, s[2] as int, frames, out),
        dsp::is_istft(d, N_FFT, HOP_LENGTH, out, padded_len, r),
{
    let bins = s[2] as int;
    let pair = stems::channel_pair(x, bins, frames, frames, c);
    let n = bins * frames;
    let planes = x.subrange(c * n, (c + 2) * n);
    assert(0 < n) by (nonlinear_arith)
        requires
            n == bins * frames,
            0 < bins,
            0 < frames,
    ;
    assert(2 * bins * frames == 2 * n) by (nonlinear_arith)
        requires
            n == bins * frames,
    ;
    lemma_cac(spec, bins, frames, 0, 0);
    assert(pair =~= planes) by {
        assert(2 * bins * frames * 1 == 2 * n);
        assert forall|p: int| 0 <= p < 2 * n implies pair[p] == planes[p] by {
            index::lemma_unpair(p, 2 * bins, frames);
            assert(p / 1 == p && p % 1 == 0);
        }
    }
    let out = choose|out: Seq<Complex<D::T>>| #[trigger]
        cac::is_complex_of(d, pair, bins, frames, out) && dsp::is_istft(
            d,
            N_FFT,
            HOP_LENGTH,
            out,
            padded_len,
            r,
        );
    let z = choose|z: D::T| #[trigger]
        arith::is_zero(d, z) && out == cac::complex_of(
            pair,
            bins,
            frames,
            Complex { re: z, im: z },
        );
    assert(0 <= frames * (bins + 1)) by (nonlinear_arith)
        requires
            0 < bins,
            0 < frames,
    ;
    assert forall|f: int, b: int| 0 <= f < frames && 0 <= b < bins implies #[trigger] out[f * (bins
        + 1) + b] == spec[f * bins + b] by {
        index::lemma_pair(f, b, frames, bins + 1);
        index::lemma_pair(b, f, bins, frames);
        lemma_cac(spec, bins, frames, b, f);
        let e = spec[f * bins + b];
        assert(out[f * (bins + 1) + b] == Complex { re: e.re, im: e.im });
    }
    assert forall|f: int| 0 <= f < frames implies arith::is_zero(
        d,
        (#[trigger] out[f * (bins + 1) + bins]).re,
    ) && arith::is_zero(d, out[f * (bins + 1) + bins].im) by {
        index::lemma_pair(f, bins, frames, bins + 1);
    }
    out
}

/// A stem is read where the audio lies: where a network gives back, as stem `k`, the very planes
/// and waveforms that it was handed, each channel of the stem is what the transform makes of the
/// spectrogram of that channel, plus the waveform of that channel.
pub proof fn stems_are_read_where_audio_lies<D: Dsp>(
    d: &D,
    ls: Seq<Complex<D::T>>,
    rs: Seq<Complex<D::T>>,
    left: Seq<D::T>,
    right: Seq<D::T>,
    x: Seq<D::T>,
    s: [usize; 4],
    frames: int,
    padded_len: usize,
    time: Seq<D::T>,
    n: int,
    k: int,
    stem: Stem<D::T>,
) -> (r: (Seq<Complex<D::T>>, Seq<Complex<D::T>>, Vec<D::T>, Vec<D::T>))
    requires
        0 < s[2],
        0 < frames,
        s[3] == frames,
        ls.len() == s[2] * frames,
        rs.len() == s[2] * frames,
        left.len() == right.len(),
        0 <= n <= left.len(),
        0 <= k,
        (4 * k + 4) * (s[2] * frames) <= x.len(),
        (2 * k + 2) * left.len() <= time.len(),
        x.subrange((4 * k) * (s[2] * frames), (4 * k + 4) * (s[2] * frames))
            == cpu_engine::freq_tensor(
            cac::cac_of(ls, s[2] as int),
            cac::cac_of(rs, s[2] as int),
            s[2] as int,
            frames,
        ),
        time.subrange((2 * k) * left.len(), (2 * k + 2) * left.len()) == left + right,
        stems::is_stem(d, x, s, frames, padded_len, time, left.len() as int, n, k, stem),
    ensures
        is_with_silent_bin(d, ls, s[2] as int, frames, r.0),
        is_with_silent_bin(d, rs, s[2] as int, frames, r.1),
        dsp::is_istft(d, N_FFT, HOP_LENGTH, r.0, padded_len, Ok(r.2)),
        dsp::is_istft(d, N_FFT, HOP_LENGTH, r.1, padded_len, Ok(r.3)),
        stem.left@.len() == n,
        stem.right@.len() == n,
        forall|i: int|
            0 <= i < n ==> arith::is_sum(d, r.2@[i], left[i], #[trigger] stem.left@[i]),
        forall|i: int|
            0 <= i < n ==> arith::is_sum(d, r.3@[i], right[i], #[trigger] stem.right@[i]),
{
    let m = s[2] * frames;
    let l = left.len() as int;
    let bins = s[2] as int;
    let whole = cpu_engine::freq_tensor(
        cac::cac_of(ls, bins),
        cac::cac_of(rs, bins),
        bins,
        frames,
    );
    assert(0 < m) by (nonlinear_arith)
        requires
            m == s[2] * frames,
            0 < s[2],
            0 < frames,
    ;
    assert(2 * bins * frames == 2 * m) by (nonlinear_arith)
        requires
            m == bins * frames,
    ;
    assert((4 * k) * m >= 0 && (4 * k + 2) * m == (4 * k) * m + 2 * m && (4 * k + 4) * m == (4 * k)
        * m + 4 * m) by (nonlinear_arith)
        requires
            0 <= k,
            0 < m,
    ;
    assert((2 * k) * l >= 0 && (2 * k + 1) * l == (2 * k) * l + l && (2 * k + 2) * l == (2 * k) * l
        + 2 * l) by (nonlinear_arith)
        requires
            0 <= k,
            0 <= l,
    ;
    lemma_cac(ls, bins, frames, 0, 0);
    lemma_cac(rs, bins, frames, 0, 0);
    assert(whole.len() == 4 * m);
    assert(x.subrange((4 * k) * m, (4 * k + 2) * m) =~= cac::cac_of(ls, bins)) by {
        assert forall|p: int| 0 <= p < 2 * m implies x[(4 * k) * m + p] == cac::cac_of(
            ls,
            bins,
        )[p] by {
            assert(whole[p] == x.subrange((4 * k) * m, (4 * k + 4) * m)[p]);
        }
    }
    assert(x.subrange((4 * k + 2) * m, (4 * k + 2 + 2) * m) =~= cac::cac_of(rs, bins)) by {
        assert forall|p: int| 0 <= p < 2 * m implies x[(4 * k + 2) * m + p] == cac::cac_of(
            rs,
            bins,
        )[p] by {
            assert(whole[2 * m + p] == x.subrange((4 * k) * m, (4 * k + 4) * m)[2 * m + p]);
        }
    }
    let wl = choose|w: Vec<D::T>|
        {
            &&& #[trigger] stems::is_channel_wave(d, x, s, frames, 4 * k, padded_len, Ok(w))
            &&& n <= w@.len()
            &&& stems::is_mixed(d, w@, time, (2 * k) * l, n, stem.left@)
        };
    let wr = choose|w: Vec<D::T>|
        {
            &&& #[trigger] stems::is_channel_wave(d, x, s, frames, 4 * k + 2, padded_len, Ok(w))
            &&& n <= w@.len()
            &&& stems::is_mixed(d, w@, time, (2 * k + 1) * l, n, stem.right@)
        };
    let ol = lemma_read_back(d, ls, x, s, frames, 4 * k, padded_len, Ok(wl));
    let or = lemma_read_back(d, rs, x, s, frames, 4 * k + 2, padded_len, Ok(wr));
    let both = time.subrange((2 * k) * l, (2 * k + 2) * l);
    assert forall|i: int| 0 <= i < n implies arith::is_sum(
        d,
        wl@[i],
        left[i],
        #[trigger] stem.left@[i],
    ) by {
        assert(both[i] == left[i] && time[(2 * k) * l + i] == both[i]);
    }
    assert forall|i: int| 0 <= i < n implies arith::is_sum(
        d,
        wr@[i],
        right[i],
        #[trigger] stem.right@[i],
    ) by {
        assert(both[l + i] == right[i] && time[(2 * k + 1) * l + i] == both[l + i]);
    }
    (ol, or, wl, wr)
}

/// A segment is handed to the models in this way: both channels are filled up with zeros and
/// transformed, with windows of 4096 samples every 1024, and the models are given the planes of
/// the left and the right spectrogram, the left and the right waveform, and the length of the
/// audio.
pub proof fn segments_are_handed_over_in_order<D: Dsp, M: Network<D>>(
    d: &D,
    e: &Engine<M>,
    left: Seq<D::T>,
    right: Seq<D::T>,
    out: Seq<Stem<D::T>>,
) -> (r: (D::T, Vec<Complex<D::T>>, Vec<Complex<D::T>>, Seq<D::T>, int, Seq<D::T>))
    requires
        left.len() <= TRAINING_LENGTH,
        right.len() == left.len(),
        engine::is_segment(d, e, left, right, out),
    ensures
        ({
            let (z, ls, rs, freq, frames, time) = r;
            let n = TRAINING_LENGTH as int;
            let l = Seq::new(
                TRAINING_LENGTH as nat,
                |t: int|
                    if t < left.len() {
                        left[t]
                    } else {
                        z
                    },
            );
            let q = Seq::new(
                TRAINING_LENGTH as nat,
                |t: int|
                    if t < right.len() {
                        right[t]
                    } else {
                        z
                    },
            );
            &&& arith::is_zero(d, z)
            &&& dsp::is_stft(d, 4096, 1024, l, Ok(ls))
            &&& dsp::is_stft(d, 4096, 1024, q, Ok(rs))
            &&& ls@.len() == rs@.len()
            &&& frames == ls@.len() as int / 2048
            &&& ls@.len() == 2048 * frames ==> are_planes_of(ls@, rs@, 2048, frames, freq)
            &&& time == l + q
            &&& engine::are_engine_stems(d, e, freq, frames, time, left.len() as int, out)
        }),
{
    let (z, ls, rs, zt) = choose|z: D::T, ls: Vec<Complex<D::T>>, rs: Vec<Complex<D::T>>, zt: D::T|
        {
            let frames = ls@.len() as int / N_BINS as int;
            &&& #[trigger] arith::is_zero(d, z)
            &&& #[trigger] arith::is_zero(d, zt)
            &&& #[trigger] dsp::is_stft(
                d,
                N_FFT,
                HOP_LENGTH,
                engine::padded_segment(left, z),
                Ok(ls),
            )
            &&& #[trigger] dsp::is_stft(
                d,
                N_FFT,
                HOP_LENGTH,
                engine::padded_segment(right, z),
                Ok(rs),
            )
            &&& ls@.len() == rs@.len()
            &&& engine::are_engine_stems(
                d,
                e,
                cpu_engine::freq_tensor(
                    cac::cac_of(ls@, N_BINS as int),
                    cac::cac_of(rs@, N_BINS as int),
                    N_BINS as int,
                    frames,
                ),
                frames,
                cpu_engine::time_tensor(
                    engine::padded_segment(left, z),
                    engine::padded_segment(right, z),
                    TRAINING_LENGTH as int,
                    zt,
                ),
                left.len() as int,
                out,
            )
        };
    let frames = ls@.len() as int / N_BINS as int;
    let (pl, pr) = (engine::padded_segment(left, z), engine::padded_segment(right, z));
    segments_are_filled_up_behind(left, z);
    segments_are_filled_up_behind(right, z);
    let l = Seq::new(
        TRAINING_LENGTH as nat,
        |t: int|
            if t < left.len() {
                left[t]
            } else {
                z
            },
    );
    let q = Seq::new(
        TRAINING_LENGTH as nat,
        |t: int|
            if t < right.len() {
                right[t]
            } else {
                z
            },
    );
    assert(pl =~= l) by {
        assert forall|t: int| 0 <= t < left.len() implies pl[t] == l[t] by {
            assert(pl.take(left.len() as int)[t] == left[t]);
        }
    }
    assert(pr =~= q) by {
        assert forall|t: int| 0 <= t < right.len() implies pr[t] == q[t] by {
            assert(pr.take(right.len() as int)[t] == right[t]);
        }
    }
    waveforms_lie_one_after_the_other(pl, pr, TRAINING_LENGTH as int, zt);
    let freq = cpu_engine::freq_tensor(
        cac::cac_of(ls@, N_BINS as int),
        cac::cac_of(rs@, N_BINS as int),
        N_BINS as int,
        frames,
    );
    if ls@.len() == 2048 * frames {
        assert forall|b: int, f: int| 0 <= b < 2048 && 0 <= f < frames implies #[trigger] is_plane_entry(
            ls@,
            rs@,
            2048,
            frames,
            freq,
            b,
            f,
        ) by {
            spectrograms_lie_plane_by_plane(ls@, rs@, 2048, frames, b, f);
        }
    }
    (z, ls, rs, freq, frames, cpu_engine::time_tensor(pl, pr, TRAINING_LENGTH as int, zt))
}

/// The four planes of `x` have the parts of the two spectrograms at bin `b` and frame `f`.
pub open spec fn is_plane_entry<T>(
    ls: Seq<Complex<T>>,
    rs: Seq<Complex<T>>,
    bins: int,
    frames: int,
    x: Seq<T>,
    b: int,
    f: int,
) -> bool {
    &&& x[(0 * bins + b) * frames + f] == ls[f * bins + b].re
    &&& x[(1 * bins + b) * frames + f] == ls[f * bins + b].im
    &&& x[(2 * bins + b) * frames + f] == rs[f * bins + b].re
    &&& x[(3 * bins + b) * frames + f] == rs[f * bins + b].im
}

/// `x` is the four planes of two spectrograms.
pub open spec fn are_planes_of<T>(
    ls: Seq<Complex<T>>,
    rs: Seq<Complex<T>>,
    bins: int,
    frames: int,
    x: Seq<T>,
) -> bool {
    forall|b: int, f: int|
        0 <= b < bins && 0 <= f < frames ==> #[trigger] is_plane_entry(
            ls,
            rs,
            bins,
            frames,
            x,
            b,
            f,
        )
}

/// Audio at another rate is brought to the network's own, separated there, and every stem is
/// brought back, the left channel as the left and the right one as the right.
pub proof fn stems_are_resampled_side_by_side<D: Dsp, M: Network<D>>(
    d: &D,
    e: &Engine<M>,
    left: Seq<D::T>,
    right: Seq<D::T>,
    rate: u32,
    out: Seq<Stem<D::T>>,
) -> (r: (Vec<D::T>, Vec<D::T>, Seq<Stem<D::T>>))
    requires
        rate != 44100,
        engine::is_separated(d, e, left, right, rate, out),
    ensures
        dsp::is_resample(d, left, rate, 44100, Ok(r.0)),
        dsp::is_resample(d, right, rate, 44100, Ok(r.1)),
        engine::is_separated(d, e, r.0@, r.1@, 44100, r.2),
        out.len() == r.2.len(),
        forall|k: int|
            #![trigger out[k]]
            0 <= k < out.len() ==> {
                &&& out[k].id == r.2[k].id
                &&& dsp::is_resample(d, r.2[k].left@, 44100, rate, Ok(out[k].left))
                &&& dsp::is_resample(d, r.2[k].right@, 44100, rate, Ok(out[k].right))
            },
{
    let (l, r, all) = choose|l: Vec<D::T>, r: Vec<D::T>, all: Seq<Stem<D::T>>|
        {
            &&& #[trigger] dsp::is_resample(d, left, rate, SAMPLE_RATE as u32, Ok(l))
            &&& #[trigger] dsp::is_resample(d, right, rate, SAMPLE_RATE as u32, Ok(r))
            &&& engine::channels_ok(l@.len() as int, r@.len() as int)
            &&& #[trigger] engine::is_native(d, e, l@, r@, all)
            &&& engine::are_resampled_stems(
                d,
                engine::kept(all, e.selected_stems@),
                rate,
                out,
            )
        };
    (l, r, engine::kept(all, e.selected_stems@))
}

} // verus!
