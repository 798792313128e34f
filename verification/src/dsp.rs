//! The signal processing around the network.
use vstd::prelude::*;
use crate::arith::Arith;
use crate::error::DemucsError;

pub mod cac;

verus! {

/// A complex number.
#[derive(Clone, Copy, Debug)]
pub struct Complex<T> {
    pub re: T,
    pub im: T,
}

/// Signal processing that works on whole signals.
///
/// As of the scalars, nothing is promised of the results: a caller has to look at what comes
/// back.
pub trait Dsp: Arith {
    /// The spectrogram of `x`, frame after frame, `n_fft / 2` bins each.
    fn stft(
        &self,
        n_fft: usize,
        hop: usize,
        x: &[Self::T],
    ) -> Result<Vec<Complex<Self::T>>, DemucsError>;

    /// The signal of `len` samples with the spectrogram `spec`, frame after frame,
    /// `n_fft / 2 + 1` bins each.
    fn istft(
        &self,
        n_fft: usize,
        hop: usize,
        spec: &[Complex<Self::T>],
        len: usize,
    ) -> Result<Vec<Self::T>, DemucsError>;

    /// The signal `x`, sampled at the rate `from`, as sampled at the rate `to`.
    fn resample(&self, x: &[Self::T], from: u32, to: u32) -> Result<Vec<Self::T>, DemucsError>;
}

/// `r` may be the outcome of taking the spectrogram of `x`.
pub open spec fn is_stft<D: Dsp>(
    d: &D,
    n_fft: usize,
    hop: usize,
    x: Seq<D::T>,
    r: Result<Vec<Complex<D::T>>, DemucsError>,
) -> bool {
    exists|s: &[D::T]| s@ == x && #[trigger] call_ensures(D::stft, (d, n_fft, hop, s), r)
}

/// `r` may be the outcome of turning the spectrogram `spec` back into `len` samples.
pub open spec fn is_istft<D: Dsp>(
    d: &D,
    n_fft: usize,
    hop: usize,
    spec: Seq<Complex<D::T>>,
    len: usize,
    r: Result<Vec<D::T>, DemucsError>,
) -> bool {
    exists|s: &[Complex<D::T>]|
        s@ == spec && #[trigger] call_ensures(D::istft, (d, n_fft, hop, s, len), r)
}

/// `r` may be the outcome of resampling `x`.
pub open spec fn is_resample<D: Dsp>(
    d: &D,
    x: Seq<D::T>,
    from: u32,
    to: u32,
    r: Result<Vec<D::T>, DemucsError>,
) -> bool {
    exists|s: &[D::T]| s@ == x && #[trigger] call_ensures(D::resample, (d, s, from, to), r)
}

/// Takes the spectrogram of `x`.
pub fn stft<D: Dsp>(d: &D, n_fft: usize, hop: usize, x: &[D::T]) -> (r: Result<
    Vec<Complex<D::T>>,
    DemucsError,
>)
    ensures
        is_stft(d, n_fft, hop, x@, r),
{
    d.stft(n_fft, hop, x)
}

/// Turns the spectrogram `spec` back into `len` samples.
pub fn istft<D: Dsp>(d: &D, n_fft: usize, hop: usize, spec: &[Complex<D::T>], len: usize) -> (r: Result<
    Vec<D::T>,
    DemucsError,
>)
    ensures
        is_istft(d, n_fft, hop, spec@, len, r),
{
    d.istft(n_fft, hop, spec, len)
}

/// Resamples `x`.
pub fn resample<D: Dsp>(
    d: &D,
    x: &[D::T],
    from: u32,
    to: u32,
) -> (r: Result<Vec<D::T>, DemucsError>)
    ensures
        is_resample(d, x@, from, to, r),
{
    d.resample(x, from, to)
}

} // verus!
