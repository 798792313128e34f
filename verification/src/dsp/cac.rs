//! Spectrograms with the real and the imaginary parts as two channels.
use vstd::prelude::*;
use crate::arith;
use crate::arith::Arith;
use crate::dsp::Complex;
use crate::index;

verus! {

/// The spectrogram `spec`, frame after frame of `bins` bins each, as the tensor
/// `[2, bins, frames]`: the real parts, then the imaginary parts.
pub open spec fn cac_of<T>(spec: Seq<Complex<T>>, bins: int) -> Seq<T> {
    let frames = spec.len() as int / bins;
    Seq::new(
        (2 * bins * frames) as nat,
        |p: int|
            {
                let c = spec[index::pos2(p % frames, p / frames % bins, bins)];
                if p / frames / bins == 0 {
                    c.re
                } else {
                    c.im
                }
            },
    )
}

/// Lays a spectrogram of `n_fft / 2` bins for each frame out as `[2, n_fft / 2, frames]`.
pub fn stft_to_cac<T: Copy>(spectrogram: &[Complex<T>], n_fft: usize) -> (r: Vec<T>)
    requires
        n_fft >= 2,
        2 * spectrogram@.len() <= usize::MAX,
    ensures
        r@ == cac_of(spectrogram@, n_fft as int / 2),
{
    let bins: usize = n_fft / 2;
    let len: usize = spectrogram.len();
    let frames: usize = len / bins;
    let mut out: Vec<T> = Vec::new();
    proof {
        vstd::arithmetic::div_mod::lemma_fundamental_div_mod(len as int, bins as int);
        assert(2 * bins * frames == 2 * (bins * frames)) by (nonlinear_arith);
        index::lemma_extent(bins as int, frames as int);
        if frames == 0 {
            assert(2 * bins * frames == 0) by (nonlinear_arith)
                requires
                    frames == 0,
            ;
        } else {
            index::lemma_partial_extent(bins as int, frames as int, usize::MAX as int);
        }
    }
    if frames == 0 {
        return out;
    }
    let total: usize = 2 * bins * frames;
    let mut p: usize = 0;
    while p < total
        invariant
            p <= total,
            total == 2 * bins * frames,
            bins == n_fft / 2,
            frames == len as int / bins as int,
            bins >= 1,
            frames >= 1,
            bins * frames <= len,
            len == spectrogram@.len(),
            out@.len() == p,
            forall|q: int|
                0 <= q < p ==> out@[q] == #[trigger] cac_of(spectrogram@, n_fft as int / 2)[q],
        decreases total - p,
    {
        let frame: usize = p % frames;
        let bin: usize = p / frames % bins;
        let part: usize = p / frames / bins;
        proof {
            index::lemma_untriple(p as int, 2, bins as int, frames as int);
            index::lemma_pair(frame as int, bin as int, frames as int, bins as int);
            index::lemma_within2(frame as int, bin as int, bins as int);
            assert(frames * bins == bins * frames) by (nonlinear_arith);
        }
        let c: Complex<T> = spectrogram[frame * bins + bin];
        if part == 0 {
            out.push(c.re);
        } else {
            out.push(c.im);
        }
        p = p + 1;
    }
    out
}

/// The tensor `[2, bins, frames]` as a spectrogram, frame after frame of `bins + 1` bins each,
/// the last of which is `z`, as is every one whose imaginary part is not in `data`.
pub open spec fn complex_of<T>(
    data: Seq<T>,
    bins: int,
    frames: int,
    z: Complex<T>,
) -> Seq<Complex<T>> {
    let n = bins * frames;
    Seq::new(
        (frames * (bins + 1)) as nat,
        |p: int|
            {
                let i = index::pos2(p % (bins + 1), p / (bins + 1), frames);
                if p % (bins + 1) < bins && i < data.len() - n {
                    Complex { re: data[i], im: data[n + i] }
                } else {
                    z
                }
            },
    )
}

/// `out` is the result of [`cac_data_to_complex`].
pub open spec fn is_complex_of<A: Arith>(
    a: &A,
    data: Seq<A::T>,
    bins: int,
    frames: int,
    out: Seq<Complex<A::T>>,
) -> bool {
    exists|z: A::T| #[trigger]
        arith::is_zero(a, z) && out == complex_of(data, bins, frames, Complex { re: z, im: z })
}

/// Lays the tensor `[2, freq_bins, num_frames]` out as a spectrogram with a zero added above
/// the highest bin of each frame.
pub fn cac_data_to_complex<A: Arith>(a: &A, data: &[A::T], freq_bins: usize, num_frames: usize) -> (r: Vec<
    Complex<A::T>,
>)
    requires
        freq_bins < usize::MAX,
        freq_bins * num_frames <= data@.len(),
        num_frames * (freq_bins + 1) <= usize::MAX,
    ensures
        is_complex_of(a, data@, freq_bins as int, num_frames as int, r@),
{
    let zero: A::T = arith::zero(a);
    let z: Complex<A::T> = Complex { re: zero, im: zero };
    let bins: usize = freq_bins + 1;
    let len: usize = data.len();
    let n: usize = freq_bins * num_frames;
    let total: usize = num_frames * bins;
    let mut out: Vec<Complex<A::T>> = Vec::new();
    let mut p: usize = 0;
    while p < total
        invariant
            p <= total,
            total == num_frames * bins,
            bins == freq_bins + 1,
            n == freq_bins * num_frames,
            n <= len,
            len == data@.len(),
            out@.len() == p,
            forall|q: int|
                0 <= q < p ==> out@[q] == #[trigger] complex_of(
                    data@,
                    freq_bins as int,
                    num_frames as int,
                    z,
                )[q],
        decreases total - p,
    {
        proof {
            index::lemma_unpair(p as int, num_frames as int, bins as int);
        }
        let bin: usize = p % bins;
        let frame: usize = p / bins;
        if bin < freq_bins {
            proof {
                index::lemma_pair(bin as int, frame as int, freq_bins as int, num_frames as int);
                index::lemma_within2(bin as int, frame as int, num_frames as int);
            }
            let i: usize = bin * num_frames + frame;
            if i < len - n {
                out.push(Complex { re: data[i], im: data[n + i] });
            } else {
                out.push(z);
            }
        } else {
            out.push(z);
        }
        p = p + 1;
    }
    assert(out@ =~= complex_of(data@, freq_bins as int, num_frames as int, z));
    out
}

/// Turning a spectrogram into channels and back gives the same spectrogram, with a zero
/// added above the highest bin of each frame.
pub proof fn cac_round_trip<T>(
    spec: Seq<Complex<T>>,
    bins: int,
    z: Complex<T>,
    frame: int,
    bin: int,
)
    requires
        bins >= 1,
        0 <= frame < spec.len() as int / bins,
        0 <= bin <= bins,
    ensures
        ({
            let frames = spec.len() as int / bins;
            let back = complex_of(cac_of(spec, bins), bins, frames, z);
            &&& back.len() == frames * (bins + 1)
            &&& back[index::pos2(frame, bin, bins + 1)] == if bin < bins {
                spec[index::pos2(frame, bin, bins)]
            } else {
                z
            }
        }),
{
    let frames = spec.len() as int / bins;
    let n = bins * frames;
    index::lemma_pair(frame, bin, frames, bins + 1);
    index::lemma_extent(frames, bins + 1);
    if bin < bins {
        let i = index::pos2(bin, frame, frames);
        assert(2 * bins * frames == 2 * n) by (nonlinear_arith)
            requires
                n == bins * frames,
        ;
        index::lemma_pair(bin, frame, bins, frames);
        index::lemma_triple(0, bin, frame, 2, bins, frames);
        index::lemma_triple(1, bin, frame, 2, bins, frames);
        assert(index::pos3(0, bin, frame, bins, frames) == i);
        assert(index::pos3(1, bin, frame, bins, frames) == n + i) by (nonlinear_arith)
            requires
                n == bins * frames,
                i == bin * frames + frame,
                index::pos3(1, bin, frame, bins, frames) == (1 * bins + bin) * frames + frame,
        ;
    }
}

} // verus!
