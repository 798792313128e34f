//! From the tensors that the network gives to the audio of each stem.
use vstd::prelude::*;
use vstd::slice::slice_subrange;
use crate::arith;
use crate::arith::Arith;
use crate::catalogue_laws;
use crate::dsp;
use crate::dsp::cac;
use crate::dsp::Complex;
use crate::dsp::Dsp;
use crate::error::DemucsError;
use crate::index;
use crate::metadata;
use crate::metadata::ModelInfo;
use crate::metadata::StemId;
use crate::ops_cpu::layout;
use crate::ModelVariant;
use crate::Stem;
use crate::HOP_LENGTH;
use crate::N_FFT;

verus! {

/// The stems in the order in which a model with `n` of them gives them.
pub open spec fn stem_order(n: int) -> Seq<StemId> {
    if n == 4 {
        metadata::four_stems()
    } else {
        metadata::six_stems()
    }
}

/// Channels `c` and `c + 1` of a `[1, C, bins, t_full]` tensor, cut down to the first
/// `frames` frames: `[2, bins, frames]`.
pub open spec fn channel_pair<T>(x: Seq<T>, bins: int, t_full: int, frames: int, c: int) -> Seq<T> {
    layout::trimmed(
        x.subrange(c * (bins * t_full), (c + 2) * (bins * t_full)),
        2 * bins,
        t_full,
        1,
        frames,
    )
}

/// `r` may be the outcome of turning channels `c` and `c + 1`, the real and the imaginary
/// part of a spectrogram, into `padded_len` samples.
pub open spec fn is_channel_wave<D: Dsp>(
    d: &D,
    x: Seq<D::T>,
    s: [usize; 4],
    frames: int,
    c: int,
    padded_len: usize,
    r: Result<Vec<D::T>, DemucsError>,
) -> bool {
    exists|spec: Seq<Complex<D::T>>| #[trigger]
        cac::is_complex_of(
            d,
            channel_pair(x, s[2] as int, s[3] as int, frames, c),
            s[2] as int,
            frames,
            spec,
        ) && dsp::is_istft(d, N_FFT, HOP_LENGTH, spec, padded_len, r)
}

/// `out` is the sum of the first `n` samples of `wave` and the `n` samples of `time` from
/// `at` on.
pub open spec fn is_mixed<A: Arith>(
    a: &A,
    wave: Seq<A::T>,
    time: Seq<A::T>,
    at: int,
    n: int,
    out: Seq<A::T>,
) -> bool {
    &&& out.len() == n
    &&& forall|i: int| 0 <= i < n ==> arith::is_sum(a, wave[i], time[at + i], #[trigger] out[i])
}

/// `out` is one channel of a stem: what the spectrogram in channels `c` and `c + 1` gives,
/// plus the samples of `time` from `at` on.
pub open spec fn is_stem_channel<D: Dsp>(
    d: &D,
    x: Seq<D::T>,
    s: [usize; 4],
    frames: int,
    c: int,
    padded_len: usize,
    time: Seq<D::T>,
    at: int,
    n: int,
    out: Seq<D::T>,
) -> bool {
    exists|w: Vec<D::T>|
        {
            &&& #[trigger] is_channel_wave(d, x, s, frames, c, padded_len, Ok(w))
            &&& n <= w@.len()
            &&& is_mixed(d, w@, time, at, n, out)
        }
}

/// The text of the error for a signal that came back too short.
pub open spec fn short_wave_text() -> Seq<char> {
    "iSTFT gave too few samples"@
}

/// `e` is why channels `c` and `c + 1` gave no audio of `n` samples: the signal processing
/// failed with it, or gave too few samples.
pub open spec fn is_channel_failure<D: Dsp>(
    d: &D,
    x: Seq<D::T>,
    s: [usize; 4],
    frames: int,
    c: int,
    padded_len: usize,
    n: int,
    e: DemucsError,
) -> bool {
    ||| is_channel_wave(d, x, s, frames, c, padded_len, Err(e))
    ||| exists|w: Vec<D::T>|
        {
            &&& #[trigger] is_channel_wave(d, x, s, frames, c, padded_len, Ok(w))
            &&& w@.len() < n
            &&& e is Dsp
            &&& e->Dsp_0@ == short_wave_text()
        }
}

/// `e` is why no stems could be extracted of the spectrogram `x`, of shape `s`: that one of its
/// pairs of channels gives no channel of a stem.
pub open spec fn is_extract_failure<D: Dsp>(
    d: &D,
    x: Seq<D::T>,
    s: [usize; 4],
    frames: int,
    padded_len: usize,
    n: int,
    e: DemucsError,
) -> bool {
    exists|c: int|
        0 <= c < s[1] && c % 2 == 0 && #[trigger] is_channel_failure(
            d,
            x,
            s,
            frames,
            c,
            padded_len,
            n,
            e,
        )
}

/// `stem` is stem `k`: its left channel from channels `4 * k` and `4 * k + 1` and row `2 * k`
/// of `time`, its right channel from the next two and the next row.
pub open spec fn is_stem<D: Dsp>(
    d: &D,
    x: Seq<D::T>,
    s: [usize; 4],
    frames: int,
    padded_len: usize,
    time: Seq<D::T>,
    time_len: int,
    n: int,
    k: int,
    stem: Stem<D::T>,
) -> bool {
    &&& stem.id == stem_order(s[1] as int / 4)[k]
    &&& is_stem_channel(
        d,
        x,
        s,
        frames,
        4 * k,
        padded_len,
        time,
        (2 * k) * time_len,
        n,
        stem.left@,
    )
    &&& is_stem_channel(
        d,
        x,
        s,
        frames,
        4 * k + 2,
        padded_len,
        time,
        (2 * k + 1) * time_len,
        n,
        stem.right@,
    )
}

/// The inputs on which [`extract_stems`] is defined.
pub open spec fn extract_ok(
    freq_len: int,
    fs: [usize; 4],
    time_len: int,
    ts: [usize; 3],
    n_frames: int,
    n_samples: int,
) -> bool {
    &&& fs[1] == 16 || fs[1] == 24
    &&& 0 <= n_frames <= fs[3]
    &&& fs[1] * (fs[2] * fs[3]) <= freq_len <= usize::MAX
    &&& n_frames * (fs[2] + 1) <= usize::MAX
    &&& fs[2] < usize::MAX
    &&& n_samples <= ts[2]
    &&& (fs[1] as int / 2) * ts[2] <= time_len <= usize::MAX
}

/// One channel of a stem.
fn stem_channel<D: Dsp>(
    d: &D,
    x: &[D::T],
    s: [usize; 4],
    frames: usize,
    c: usize,
    padded_len: usize,
    time: &[D::T],
    at: usize,
    n: usize,
) -> (r: Result<Vec<D::T>, DemucsError>)
    requires
        c + 2 <= 24,
        frames <= s[3],
        (c + 2) * (s[2] * s[3]) <= x@.len() <= usize::MAX,
        frames * (s[2] + 1) <= usize::MAX,
        s[2] < usize::MAX,
        at + n <= time@.len() <= usize::MAX,
    ensures
        match r {
            Ok(v) => is_stem_channel(
                d,
                x@,
                s,
                frames as int,
                c as int,
                padded_len,
                time@,
                at as int,
                n as int,
                v@,
            ),
            Err(e) => is_channel_failure(
                d,
                x@,
                s,
                frames as int,
                c as int,
                padded_len,
                n as int,
                e,
            ),
        },
{
    let bins: usize = s[2];
    let t_full: usize = s[3];
    if bins == 0 || t_full == 0 {
        proof {
            assert(bins * t_full == 0) by (nonlinear_arith)
                requires
                    bins == 0 || t_full == 0,
            ;
        }
    }
    proof {
        index::lemma_extent(bins as int, t_full as int);
        assert(bins * t_full <= (c + 2) * (bins * t_full) && 0 <= c * (bins * t_full) && c * (bins
            * t_full) <= (c + 2) * (bins * t_full) && (c + 2) * (bins * t_full) - c * (bins * t_full)
            == 2 * bins * t_full) by (nonlinear_arith)
            requires
                0 <= bins * t_full,
                0 <= c,
        ;
        if t_full == 0 {
            assert(frames == 0);
        } else {
            assert(2 * bins <= 2 * bins * t_full) by (nonlinear_arith)
                requires
                    bins >= 0,
                    t_full >= 1,
            ;
        }
    }
    let plane: usize = bins * t_full;
    let part: &[D::T] = slice_subrange(x, c * plane, (c + 2) * plane);
    let pair: Vec<D::T> = if t_full == 0 {
        let none: Vec<D::T> = Vec::new();
        assert(2 * bins * frames * 1 == 0) by (nonlinear_arith)
            requires
                frames == 0,
        ;
        assert(none@ =~= layout::trimmed(part@, 2 * bins, t_full as int, 1, frames as int));
        none
    } else {
        layout::trim_middle(part, 2 * bins, t_full, 1, frames)
    };
    proof {
        assert(pair@ == channel_pair(x@, bins as int, t_full as int, frames as int, c as int));
        index::lemma_extent(bins as int, frames as int);
        assert(2 * bins * frames * 1 == 2 * (bins * frames)) by (nonlinear_arith);
    }
    let spec: Vec<Complex<D::T>> = cac::cac_data_to_complex(d, &pair, bins, frames);
    match dsp::istft(d, N_FFT, HOP_LENGTH, &spec, padded_len) {
        Err(e) => {
            assert(is_channel_wave(d, x@, s, frames as int, c as int, padded_len, Err(e)));
            Err(e)
        },
        Ok(w) => {
            assert(is_channel_wave(d, x@, s, frames as int, c as int, padded_len, Ok(w)));
            if w.len() < n {
                return Err(DemucsError::Dsp("iSTFT gave too few samples".to_owned()));
            }
            let mut out: Vec<D::T> = Vec::new();
            let mut i: usize = 0;
            while i < n
                invariant
                    i <= n,
                    n <= w@.len(),
                    at + n <= time@.len() <= usize::MAX,
                    out@.len() == i,
                    forall|j: int|
                        0 <= j < i ==> arith::is_sum(
                            d,
                            w@[j],
                            time@[at + j],
                            #[trigger] out@[j],
                        ),
                decreases n - i,
            {
                let v: D::T = arith::plus(d, w[i], time[at + i]);
                out.push(v);
                i = i + 1;
            }
            assert(is_mixed(d, w@, time@, at as int, n as int, out@));
            Ok(out)
        },
    }
}

/// The audio of each stem, from what the network gave: `freq_out`, of shape
/// `[1, stems * 4, bins, frames]`, of which the first `n_frames` frames are used, and
/// `time_out`, of shape `[1, stems * 2, samples]`.
pub fn extract_stems<D: Dsp>(
    d: &D,
    freq_out: &[D::T],
    freq_out_shape: [usize; 4],
    time_out: &[D::T],
    time_out_shape: [usize; 3],
    n_frames: usize,
    padded_len: usize,
    n_samples: usize,
) -> (r: Result<Vec<Stem<D::T>>, DemucsError>)
    requires
        extract_ok(
            freq_out@.len() as int,
            freq_out_shape,
            time_out@.len() as int,
            time_out_shape,
            n_frames as int,
            n_samples as int,
        ),
    ensures
        match r {
            Ok(stems) => {
                &&& stems@.len() == freq_out_shape[1] / 4
                &&& forall|k: int|
                    0 <= k < stems@.len() ==> is_stem(
                        d,
                        freq_out@,
                        freq_out_shape,
                        n_frames as int,
                        padded_len,
                        time_out@,
                        time_out_shape[2] as int,
                        n_samples as int,
                        k,
                        #[trigger] stems@[k],
                    )
                &&& forall|v: ModelVariant, info: ModelInfo| #[trigger]
                    crate::is_info(v, info) && info.stems@.len() == stems@.len()
                        ==> catalogue_laws::ids_of(stems@) == info.stems@
            },
            Err(e) => is_extract_failure(
                d,
                freq_out@,
                freq_out_shape,
                n_frames as int,
                padded_len,
                n_samples as int,
                e,
            ),
        },
{
    let n_sources: usize = freq_out_shape[1] / 4;
    let order: Vec<StemId> = if n_sources == 4 {
        vec![StemId::Drums, StemId::Bass, StemId::Other, StemId::Vocals]
    } else {
        vec![
            StemId::Drums,
            StemId::Bass,
            StemId::Other,
            StemId::Vocals,
            StemId::Guitar,
            StemId::Piano,
        ]
    };
    assert(order@ =~= stem_order(n_sources as int));
    let time_len: usize = time_out_shape[2];
    let mut stems: Vec<Stem<D::T>> = Vec::new();
    let mut k: usize = 0;
    while k < n_sources
        invariant
            k <= n_sources,
            n_sources == freq_out_shape[1] / 4,
            extract_ok(
                freq_out@.len() as int,
                freq_out_shape,
                time_out@.len() as int,
                time_out_shape,
                n_frames as int,
                n_samples as int,
            ),
            order@ == stem_order(n_sources as int),
            order@.len() == n_sources,
            time_len == time_out_shape[2],
            stems@.len() == k,
            forall|j: int|
                0 <= j < k ==> is_stem(
                    d,
                    freq_out@,
                    freq_out_shape,
                    n_frames as int,
                    padded_len,
                    time_out@,
                    time_out_shape[2] as int,
                    n_samples as int,
                    j,
                    #[trigger] stems@[j],
                ),
        decreases n_sources - k,
    {
        proof {
            let plane = freq_out_shape[2] * freq_out_shape[3];
            index::lemma_extent(freq_out_shape[2] as int, freq_out_shape[3] as int);
            assert((4 * k + 4) * plane <= freq_out_shape[1] * plane && (4 * k + 2) * plane
                <= freq_out_shape[1] * plane) by (nonlinear_arith)
                requires
                    plane >= 0,
                    0 <= 4 * k + 4 <= freq_out_shape[1],
            ;
            assert((2 * k) * time_len + n_samples <= (freq_out_shape[1] as int / 2) * time_len
                && (2 * k + 1) * time_len + n_samples <= (freq_out_shape[1] as int / 2) * time_len
                && 0 <= (2 * k) * time_len && 0 <= (2 * k + 1) * time_len)
                by (nonlinear_arith)
                requires
                    0 <= n_samples <= time_len,
                    0 <= k,
                    2 * k + 2 <= freq_out_shape[1] as int / 2,
            ;
        }
        let left: Vec<D::T> = match stem_channel(
            d,
            freq_out,
            freq_out_shape,
            n_frames,
            4 * k,
            padded_len,
            time_out,
            (2 * k) * time_len,
            n_samples,
        ) {
            Ok(v) => v,
            Err(e) => {
                return Err(e);
            },
        };
        let right: Vec<D::T> = match stem_channel(
            d,
            freq_out,
            freq_out_shape,
            n_frames,
            4 * k + 2,
            padded_len,
            time_out,
            (2 * k + 1) * time_len,
            n_samples,
        ) {
            Ok(v) => v,
            Err(e) => {
                return Err(e);
            },
        };
        stems.push(Stem { id: order[k], left, right });
        k = k + 1;
    }
    proof {
        assert forall|v: ModelVariant, info: ModelInfo| #[trigger]
            crate::is_info(v, info) && info.stems@.len()
                == stems@.len() implies catalogue_laws::ids_of(stems@) == info.stems@ by {
            assert forall|j: int| 0 <= j < stems@.len() implies (#[trigger] stems@[j]).id
                == info.stems@[j] by {}
            assert(catalogue_laws::ids_of(stems@) =~= info.stems@);
        }
    }
    Ok(stems)
}

} // verus!
