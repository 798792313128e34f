//! The way from audio to stems, whatever the network runs on.
use vstd::prelude::*;
use vstd::slice::slice_subrange;
use crate::arith;
use crate::arith::Arith;
use crate::chunk;
use crate::cpu_engine;
use crate::cpu_engine::N_BINS;
use crate::dsp;
use crate::dsp::cac;
use crate::dsp::Complex;
use crate::dsp::Dsp;
use crate::error;
use crate::error::DemucsError;
use crate::metadata;
use crate::metadata::ModelInfo;
use crate::metadata::StemId;
use crate::ops_cpu::layout;
use crate::text;
use crate::LoadOptions;
use crate::Stem;
use crate::StemSelection;
use crate::HOP_LENGTH;
use crate::N_FFT;
use crate::SAMPLE_RATE;
use crate::TRAINING_LENGTH;

verus! {

/// A network, as it has to be before it can run.
pub trait Usable: Sized {
    /// All that the network consists of is in place.
    spec fn usable(&self) -> bool;
}

/// A network that can run, on the processor or on a device.
pub trait Network<D: Dsp>: Usable {
    /// `out` are all stems that the network gives, `n` samples each, of a spectrogram of
    /// `frames` frames and a waveform.
    spec fn gives(
        &self,
        d: &D,
        freq: Seq<D::T>,
        frames: int,
        time: Seq<D::T>,
        n: int,
        out: Seq<Stem<D::T>>,
    ) -> bool;

    /// `x` is why the network gives none.
    spec fn fails(
        &self,
        d: &D,
        freq: Seq<D::T>,
        frames: int,
        time: Seq<D::T>,
        n: int,
        x: DemucsError,
    ) -> bool;

    /// Runs the network and extracts its stems.
    fn run(&self, d: &D, freq: &[D::T], n_frames: usize, time: &[D::T], n_samples: usize) -> (r: Result<
        Vec<Stem<D::T>>,
        DemucsError,
    >)
        requires
            self.usable(),
            freq@.len() == 4 * N_BINS * n_frames,
            time@.len() == 2 * TRAINING_LENGTH,
        ensures
            match r {
                Ok(v) => {
                    &&& self.gives(d, freq@, n_frames as int, time@, n_samples as int, v@)
                    &&& all_of_length(v@, n_samples as int)
                },
                Err(x) => self.fails(d, freq@, n_frames as int, time@, n_samples as int, x),
            },
    ;
}

/// One model, with the signature that its weights were stored under.
pub struct LoadedModel<M> {
    pub sig: String,
    pub model: M,
}

/// The loaded models, and the stems that were asked for.
///
/// `model_stems` holds, for each model, the stem that it was tuned for.
pub struct Engine<M> {
    pub info: ModelInfo,
    pub models: Vec<LoadedModel<M>>,
    pub model_stems: Vec<StemId>,
    pub selected_stems: Vec<StemId>,
    pub n_sources: usize,
    pub bottom_channels: usize,
}

/// There is a stem for each model, and every model can run.
pub open spec fn engine_ok<M: Usable>(e: &Engine<M>) -> bool {
    &&& e.models@.len() == e.model_stems@.len()
    &&& forall|i: int| 0 <= i < e.models@.len() ==> (#[trigger] e.models@[i]).model.usable()
}

/// Both channels of every stem have `n` samples.
pub open spec fn all_of_length<T>(v: Seq<Stem<T>>, n: int) -> bool {
    forall|k: int|
        #![trigger v[k]]
        0 <= k < v.len() ==> v[k].left@.len() == n && v[k].right@.len() == n
}

/// Position from `k` on of the first stem `id` in `v`; the length of `v` where there is none.
pub open spec fn find_from<T>(v: Seq<Stem<T>>, id: StemId, k: int) -> int
    decreases v.len() - k,
{
    if k >= v.len() {
        v.len() as int
    } else if v[k].id == id {
        k
    } else {
        find_from(v, id, k + 1)
    }
}

/// The first stem `id` in `v`, if there is one.
pub open spec fn pick<T>(v: Seq<Stem<T>>, id: StemId) -> Seq<Stem<T>> {
    let k = find_from(v, id, 0);
    if k < v.len() {
        seq![v[k]]
    } else {
        seq![]
    }
}

/// From what each of the first `i` models gave, the stem that it was tuned for.
pub open spec fn picks<T>(alls: Seq<Seq<Stem<T>>>, ids: Seq<StemId>, i: int) -> Seq<Stem<T>>
    decreases i,
{
    if i <= 0 {
        seq![]
    } else {
        picks(alls, ids, i - 1) + pick(alls[i - 1], ids[i - 1])
    }
}

/// `out` are the stems that the engine's models give: all stems of the one model, or of each
/// of several models the stem that it was tuned for.
pub open spec fn are_engine_stems<D: Dsp, M: Network<D>>(
    d: &D,
    e: &Engine<M>,
    freq: Seq<D::T>,
    frames: int,
    time: Seq<D::T>,
    n: int,
    out: Seq<Stem<D::T>>,
) -> bool {
    if e.models@.len() == 1 {
        e.models@[0].model.gives(d, freq, frames, time, n, out)
    } else {
        exists|alls: Seq<Seq<Stem<D::T>>>| #[trigger]
            are_all_model_stems(d, e, freq, frames, time, n, alls) && alls.len() == e.models@.len()
                && out == picks(alls, e.model_stems@, alls.len() as int)
    }
}

/// `alls` holds what each of the first models gave.
pub open spec fn are_all_model_stems<D: Dsp, M: Network<D>>(
    d: &D,
    e: &Engine<M>,
    freq: Seq<D::T>,
    frames: int,
    time: Seq<D::T>,
    n: int,
    alls: Seq<Seq<Stem<D::T>>>,
) -> bool {
    forall|i: int|
        0 <= i < alls.len() ==> e.models@[i].model.gives(
            d,
            freq,
            frames,
            time,
            n,
            #[trigger] alls[i],
        )
}

/// Position of the first stem `id`.
fn find<T>(v: &Vec<Stem<T>>, id: StemId) -> (r: usize)
    ensures
        r == find_from(v@, id, 0),
        r <= v@.len(),
        r < v@.len() ==> v@[r as int].id == id,
{
    let n: usize = v.len();
    let mut k: usize = 0;
    while k < n
        invariant
            k <= n,
            n == v@.len(),
            find_from(v@, id, 0) == find_from(v@, id, k as int),
        decreases n - k,
    {
        if v[k].id == id {
            return k;
        }
        k = k + 1;
    }
    n
}

/// Runs the engine's models.
fn run_models<D: Dsp, M: Network<D>>(
    d: &D,
    e: &Engine<M>,
    freq: &[D::T],
    n_frames: usize,
    time: &[D::T],
    n_samples: usize,
) -> (r: Result<Vec<Stem<D::T>>, DemucsError>)
    requires
        engine_ok(e),
        freq@.len() == 4 * N_BINS * n_frames,
        time@.len() == 2 * TRAINING_LENGTH,
    ensures
        match r {
            Ok(v) => {
                &&& are_engine_stems(d, e, freq@, n_frames as int, time@, n_samples as int, v@)
                &&& all_of_length(v@, n_samples as int)
            },
            Err(x) => exists|i: int|
                0 <= i < e.models@.len() && (#[trigger] e.models@[i]).model.fails(
                    d,
                    freq@,
                    n_frames as int,
                    time@,
                    n_samples as int,
                    x,
                ),
        },
{
    let count: usize = e.models.len();
    if count == 1 {
        let r = e.models[0].model.run(d, freq, n_frames, time, n_samples);
        proof {
            let m = e.models@[0];
        }
        return r;
    }
    let mut out: Vec<Stem<D::T>> = Vec::new();
    let ghost mut alls: Seq<Seq<Stem<D::T>>> = seq![];
    let mut i: usize = 0;
    while i < count
        invariant
            i <= count,
            count == e.models@.len(),
            engine_ok(e),
            freq@.len() == 4 * N_BINS * n_frames,
            time@.len() == 2 * TRAINING_LENGTH,
            alls.len() == i,
            are_all_model_stems(d, e, freq@, n_frames as int, time@, n_samples as int, alls),
            out@ == picks(alls, e.model_stems@, i as int),
            all_of_length(out@, n_samples as int),
        decreases count - i,
    {
        match e.models[i].model.run(d, freq, n_frames, time, n_samples) {
            Ok(v) => {
                let mut all: Vec<Stem<D::T>> = v;
                let ghost before = alls;
                let ghost given = all@;
                let k: usize = find(&all, e.model_stems[i]);
                let ghost prior = out@;
                if k < all.len() {
                    let stem: Stem<D::T> = all.remove(k);
                    out.push(stem);
                }
                proof {
                    alls = alls.push(given);
                    assert(pick(given, e.model_stems@[i as int]).len() <= 1);
                    lemma_picks_prefix(before, given, e.model_stems@, i as int);
                    assert(out@ =~= prior + pick(given, e.model_stems@[i as int]));
                }
            },
            Err(x) => {
                proof {
                    let m = e.models@[i as int];
                }
                return Err(x);
            },
        }
        i = i + 1;
    }
    assert(are_all_model_stems(
        d,
        e,
        freq@,
        n_frames as int,
        time@,
        n_samples as int,
        alls,
    ));
    Ok(out)
}

/// What the first models gave does not depend on what a further one gives.
proof fn lemma_picks_prefix<T>(
    alls: Seq<Seq<Stem<T>>>,
    more: Seq<Stem<T>>,
    ids: Seq<StemId>,
    i: int,
)
    requires
        0 <= i <= alls.len(),
    ensures
        picks(alls.push(more), ids, i) == picks(alls, ids, i),
    decreases i,
{
    if i > 0 {
        lemma_picks_prefix(alls, more, ids, i - 1);
        assert(alls.push(more)[i - 1] == alls[i - 1]);
    }
}

/// A channel filled up with `z` to the length of a segment.
pub open spec fn padded_segment<T>(x: Seq<T>, z: T) -> Seq<T> {
    layout::padded(x, 1, x.len() as int, TRAINING_LENGTH as int, z)
}

/// `out` are the stems of one segment of audio.
pub open spec fn is_segment<D: Dsp, M: Network<D>>(
    d: &D,
    e: &Engine<M>,
    left: Seq<D::T>,
    right: Seq<D::T>,
    out: Seq<Stem<D::T>>,
) -> bool {
    exists|z: D::T, ls: Vec<Complex<D::T>>, rs: Vec<Complex<D::T>>, zt: D::T|
        {
            let frames = ls@.len() as int / N_BINS as int;
            &&& #[trigger] arith::is_zero(d, z)
            &&& #[trigger] arith::is_zero(d, zt)
            &&& #[trigger] dsp::is_stft(d, N_FFT, HOP_LENGTH, padded_segment(left, z), Ok(ls))
            &&& #[trigger] dsp::is_stft(d, N_FFT, HOP_LENGTH, padded_segment(right, z), Ok(rs))
            &&& ls@.len() == rs@.len()
            &&& are_engine_stems(
                d,
                e,
                cpu_engine::freq_tensor(
                    cac::cac_of(ls@, N_BINS as int),
                    cac::cac_of(rs@, N_BINS as int),
                    N_BINS as int,
                    frames,
                ),
                frames,
                cpu_engine::time_tensor(
                    padded_segment(left, z),
                    padded_segment(right, z),
                    TRAINING_LENGTH as int,
                    zt,
                ),
                left.len() as int,
                out,
            )
        }
}

/// The text of the error for spectrograms that do not go together.
pub open spec fn uneven_text() -> Seq<char> {
    "the spectrograms of the channels differ in size"@
}

/// `x` is why a segment of audio gave no stems: the signal processing failed on one of the
/// channels or gave spectrograms that do not go together, or a model failed.
pub open spec fn is_segment_failure<D: Dsp, M: Network<D>>(
    d: &D,
    e: &Engine<M>,
    left: Seq<D::T>,
    right: Seq<D::T>,
    x: DemucsError,
) -> bool {
    ||| exists|z: D::T| #[trigger]
        arith::is_zero(d, z) && dsp::is_stft(
            d,
            N_FFT,
            HOP_LENGTH,
            padded_segment(left, z),
            Err(x),
        )
    ||| exists|z: D::T| #[trigger]
        arith::is_zero(d, z) && dsp::is_stft(
            d,
            N_FFT,
            HOP_LENGTH,
            padded_segment(right, z),
            Err(x),
        )
    ||| exists|z: D::T, ls: Vec<Complex<D::T>>, rs: Vec<Complex<D::T>>|
        {
            &&& #[trigger] arith::is_zero(d, z)
            &&& #[trigger] dsp::is_stft(d, N_FFT, HOP_LENGTH, padded_segment(left, z), Ok(ls))
            &&& #[trigger] dsp::is_stft(d, N_FFT, HOP_LENGTH, padded_segment(right, z), Ok(rs))
            &&& ls@.len() != rs@.len() || ls@.len() > usize::MAX / 4
            &&& x is Dsp
            &&& x->Dsp_0@ == uneven_text()
        }
    ||| exists|z: D::T, ls: Vec<Complex<D::T>>, rs: Vec<Complex<D::T>>, zt: D::T, i: int|
        {
            let frames = ls@.len() as int / N_BINS as int;
            &&& #[trigger] arith::is_zero(d, z)
            &&& #[trigger] arith::is_zero(d, zt)
            &&& #[trigger] dsp::is_stft(d, N_FFT, HOP_LENGTH, padded_segment(left, z), Ok(ls))
            &&& #[trigger] dsp::is_stft(d, N_FFT, HOP_LENGTH, padded_segment(right, z), Ok(rs))
            &&& 0 <= i < e.models@.len()
            &&& (#[trigger] e.models@[i]).model.fails(
                d,
                cpu_engine::freq_tensor(
                    cac::cac_of(ls@, N_BINS as int),
                    cac::cac_of(rs@, N_BINS as int),
                    N_BINS as int,
                    frames,
                ),
                frames,
                cpu_engine::time_tensor(
                    padded_segment(left, z),
                    padded_segment(right, z),
                    TRAINING_LENGTH as int,
                    zt,
                ),
                left.len() as int,
                x,
            )
        }
}

impl<M> Engine<M> {
    /// Separates one segment of audio, no longer than the network's own length.
    pub fn separate_single_segment<D: Dsp>(&self, d: &D, left: &[D::T], right: &[D::T]) -> (r: Result<
        Vec<Stem<D::T>>,
        DemucsError,
    >) where M: Network<D>
        requires
            engine_ok(self),
            left@.len() <= TRAINING_LENGTH,
            right@.len() == left@.len(),
        ensures
            match r {
                Ok(v) => {
                    &&& is_segment(d, self, left@, right@, v@)
                    &&& all_of_length(v@, left@.len() as int)
                },
                Err(x) => is_segment_failure(d, self, left@, right@, x),
            },
    {
        let n: usize = left.len();
        let z: D::T = arith::zero(d);
        let left_padded: Vec<D::T> = layout::pad_rows(left, 1, n, TRAINING_LENGTH, z);
        let right_padded: Vec<D::T> = layout::pad_rows(right, 1, n, TRAINING_LENGTH, z);
        let ls: Vec<Complex<D::T>> = match dsp::stft(d, N_FFT, HOP_LENGTH, &left_padded) {
            Ok(v) => v,
            Err(x) => {
                return Err(x);
            },
        };
        let rs: Vec<Complex<D::T>> = match dsp::stft(d, N_FFT, HOP_LENGTH, &right_padded) {
            Ok(v) => v,
            Err(x) => {
                return Err(x);
            },
        };
        if ls.len() != rs.len() || ls.len() > usize::MAX / 4 {
            return Err(
                DemucsError::Dsp("the spectrograms of the channels differ in size".to_owned()),
            );
        }
        let n_frames: usize = ls.len() / N_BINS;
        let left_cac: Vec<D::T> = cac::stft_to_cac(&ls, N_FFT);
        let right_cac: Vec<D::T> = cac::stft_to_cac(&rs, N_FFT);
        let freq: Vec<D::T> = cpu_engine::build_freq_tensor(
            &left_cac,
            &right_cac,
            N_BINS,
            n_frames,
        );
        let time: Vec<D::T> = cpu_engine::build_time_tensor(
            d,
            &left_padded,
            &right_padded,
            TRAINING_LENGTH,
        );
        let ghost zt = choose|zt: D::T|
            #[trigger] arith::is_zero(d, zt) && time@ == cpu_engine::time_tensor(
                left_padded@,
                right_padded@,
                TRAINING_LENGTH as int,
                zt,
            );
        assert(2 * (2 * N_BINS * n_frames) == 4 * N_BINS * n_frames) by (nonlinear_arith);
        match run_models(d, self, &freq, n_frames, &time, n) {
            Ok(v) => {
                proof {
                    assert(freq@ == cpu_engine::freq_tensor(
                        cac::cac_of(ls@, N_BINS as int),
                        cac::cac_of(rs@, N_BINS as int),
                        N_BINS as int,
                        n_frames as int,
                    ));
                    assert(left_padded@ == padded_segment(left@, z));
                    assert(right_padded@ == padded_segment(right@, z));
                    assert(arith::is_zero(d, zt));
                    assert(dsp::is_stft(d, N_FFT, HOP_LENGTH, padded_segment(left@, z), Ok(ls)));
                    assert(dsp::is_stft(d, N_FFT, HOP_LENGTH, padded_segment(right@, z), Ok(rs)));
                    assert(are_engine_stems(
                        d,
                        self,
                        freq@,
                        n_frames as int,
                        cpu_engine::time_tensor(
                            padded_segment(left@, z),
                            padded_segment(right@, z),
                            TRAINING_LENGTH as int,
                            zt,
                        ),
                        left@.len() as int,
                        v@,
                    ));
                }
                assert(is_segment(d, self, left@, right@, v@));
                Ok(v)
            },
            Err(x) => {
                proof {
                    let i = choose|i: int|
                        0 <= i < self.models@.len() && (#[trigger] self.models@[i]).model.fails(
                            d,
                            freq@,
                            n_frames as int,
                            time@,
                            n as int,
                            x,
                        );
                    let m = self.models@[i];
                }
                assert(is_segment_failure(d, self, left@, right@, x));
                Err(x)
            },
        }
    }
}

/// Position from `k` on of the first `id` in `order`; the length of `order` where there is
/// none.
pub open spec fn row_from(order: Seq<StemId>, id: StemId, k: int) -> int
    decreases order.len() - k,
{
    if k >= order.len() {
        order.len() as int
    } else if order[k] == id {
        k
    } else {
        row_from(order, id, k + 1)
    }
}

/// Position of `id` in `order`.
fn row_of(order: &Vec<StemId>, id: StemId) -> (r: usize)
    ensures
        r == row_from(order@, id, 0),
        r <= order@.len(),
{
    let n: usize = order.len();
    let mut k: usize = 0;
    while k < n
        invariant
            k <= n,
            n == order@.len(),
            row_from(order@, id, 0) == row_from(order@, id, k as int),
        decreases n - k,
    {
        if order[k] == id {
            return k;
        }
        k = k + 1;
    }
    n
}

/// The buffers of a list.
pub open spec fn rows_of<T>(v: Seq<Vec<T>>) -> Seq<Seq<T>> {
    Seq::new(v.len(), |i: int| v[i]@)
}

/// `out` is `rows` with the windowed samples `v` added to row `s`.
pub open spec fn is_row_added<A: Arith>(
    a: &A,
    rows: Seq<Seq<A::T>>,
    s: int,
    start: int,
    win: Seq<A::T>,
    v: Seq<A::T>,
    out: Seq<Seq<A::T>>,
) -> bool {
    &&& out.len() == rows.len()
    &&& forall|k: int|
        #![trigger out[k]]
        0 <= k < rows.len() ==> if k == s {
            chunk::is_window_added(a, rows[k], start, win, v, out[k])
        } else {
            out[k] == rows[k]
        }
}

/// `l` and `r` are the sums of the left and the right channels before, between and after the
/// addition of each of `stems`, the row of a stem being its position in `order`.
pub open spec fn are_stem_sums<A: Arith>(
    a: &A,
    order: Seq<StemId>,
    stems: Seq<Stem<A::T>>,
    start: int,
    win: Seq<A::T>,
    l: Seq<Seq<Seq<A::T>>>,
    r: Seq<Seq<Seq<A::T>>>,
) -> bool {
    &&& l.len() == stems.len() + 1
    &&& r.len() == stems.len() + 1
    &&& forall|j: int|
        #![trigger stems[j]]
        0 <= j < stems.len() ==> {
            let s = row_from(order, stems[j].id, 0);
            &&& is_row_added(a, l[j], s, start, win, stems[j].left@, l[j + 1])
            &&& is_row_added(a, r[j], s, start, win, stems[j].right@, r[j + 1])
        }
}

/// `(l1, r1)` are the sums `(l0, r0)` with the windowed stems of one chunk added.
pub open spec fn is_chunk_added<A: Arith>(
    a: &A,
    order: Seq<StemId>,
    stems: Seq<Stem<A::T>>,
    start: int,
    win: Seq<A::T>,
    l0: Seq<Seq<A::T>>,
    r0: Seq<Seq<A::T>>,
    l1: Seq<Seq<A::T>>,
    r1: Seq<Seq<A::T>>,
) -> bool {
    exists|l: Seq<Seq<Seq<A::T>>>, r: Seq<Seq<Seq<A::T>>>|
        {
            &&& #[trigger] are_stem_sums(a, order, stems, start, win, l, r)
            &&& l[0] == l0
            &&& r[0] == r0
            &&& l.last() == l1
            &&& r.last() == r1
        }
}

/// The text of the error for a stem that the model is not known to give.
pub open spec fn stray_text() -> Seq<char> {
    "a model gave a stem that it should not have"@
}

/// Adds the windowed stems of one chunk to the sums. Fails where a stem is not in `order`.
fn add_chunk<A: Arith>(
    a: &A,
    order: &Vec<StemId>,
    stems: &Vec<Stem<A::T>>,
    start: usize,
    win: &[A::T],
    out_left: &mut Vec<Vec<A::T>>,
    out_right: &mut Vec<Vec<A::T>>,
) -> (ok: bool)
    requires
        old(out_left)@.len() == order@.len(),
        old(out_right)@.len() == order@.len(),
        start + win@.len() <= usize::MAX,
        forall|k: int|
            0 <= k < order@.len() ==> start + win@.len() <= (#[trigger] old(out_left)@[k])@.len()
                <= usize::MAX,
        forall|k: int|
            0 <= k < order@.len() ==> start + win@.len() <= (#[trigger] old(out_right)@[k])@.len()
                <= usize::MAX,
        all_of_length(stems@, win@.len() as int),
    ensures
        final(out_left)@.len() == old(out_left)@.len(),
        final(out_right)@.len() == old(out_right)@.len(),
        forall|k: int|
            0 <= k < order@.len() ==> (#[trigger] final(out_left)@[k])@.len()
                == old(out_left)@[k]@.len(),
        forall|k: int|
            0 <= k < order@.len() ==> (#[trigger] final(out_right)@[k])@.len()
                == old(out_right)@[k]@.len(),
        ok ==> is_chunk_added(
            a,
            order@,
            stems@,
            start as int,
            win@,
            rows_of(old(out_left)@),
            rows_of(old(out_right)@),
            rows_of(final(out_left)@),
            rows_of(final(out_right)@),
        ),
        !ok ==> exists|j: int|
            0 <= j < stems@.len() && row_from(order@, (#[trigger] stems@[j]).id, 0)
                == order@.len(),
{
    let n: usize = stems.len();
    let ghost mut l = seq![rows_of(out_left@)];
    let ghost mut r = seq![rows_of(out_right@)];
    let mut j: usize = 0;
    while j < n
        invariant
            j <= n,
            n == stems@.len(),
            out_left@.len() == order@.len(),
            out_right@.len() == order@.len(),
            old(out_left)@.len() == order@.len(),
            old(out_right)@.len() == order@.len(),
            forall|k: int|
                0 <= k < order@.len() ==> start + win@.len() <= (#[trigger] out_left@[k])@.len()
                    <= usize::MAX && out_left@[k]@.len() == old(out_left)@[k]@.len(),
            forall|k: int|
                0 <= k < order@.len() ==> start + win@.len() <= (#[trigger] out_right@[k])@.len()
                    <= usize::MAX && out_right@[k]@.len() == old(out_right)@[k]@.len(),
            all_of_length(stems@, win@.len() as int),
            l.len() == j + 1,
            r.len() == j + 1,
            l[0] == rows_of(old(out_left)@),
            r[0] == rows_of(old(out_right)@),
            l.last() == rows_of(out_left@),
            r.last() == rows_of(out_right@),
            forall|i: int|
                #![trigger stems@[i]]
                0 <= i < j ==> {
                    let s = row_from(order@, stems@[i].id, 0);
                    &&& is_row_added(a, l[i], s, start as int, win@, stems@[i].left@, l[i + 1])
                    &&& is_row_added(a, r[i], s, start as int, win@, stems@[i].right@, r[i + 1])
                },
        decreases n - j,
    {
        let s: usize = row_of(order, stems[j].id);
        let ghost stem = stems@[j as int];
        if s == order.len() {
            return false;
        }
        let ghost before_l = out_left@;
        let ghost before_r = out_right@;
        chunk::add_windowed(a, &mut out_left[s], start, win, &stems[j].left);
        chunk::add_windowed(a, &mut out_right[s], start, win, &stems[j].right);
        proof {
            let prev_l = l;
            let prev_r = r;
            l = l.push(rows_of(out_left@));
            r = r.push(rows_of(out_right@));
            assert(is_row_added(
                a,
                rows_of(before_l),
                s as int,
                start as int,
                win@,
                stem.left@,
                rows_of(out_left@),
            ));
            assert(is_row_added(
                a,
                rows_of(before_r),
                s as int,
                start as int,
                win@,
                stem.right@,
                rows_of(out_right@),
            ));
            assert forall|i: int|
                #![trigger stems@[i]]
                0 <= i < j + 1 implies {
                let s = row_from(order@, stems@[i].id, 0);
                &&& is_row_added(a, l[i], s, start as int, win@, stems@[i].left@, l[i + 1])
                &&& is_row_added(a, r[i], s, start as int, win@, stems@[i].right@, r[i + 1])
            } by {
                let x = stems@[i];
                if i < j {
                    assert(l[i] == prev_l[i] && l[i + 1] == prev_l[i + 1]);
                    assert(r[i] == prev_r[i] && r[i + 1] == prev_r[i + 1]);
                }
            }
        }
        j = j + 1;
    }
    assert(are_stem_sums(a, order@, stems@, start as int, win@, l, r));
    true
}

/// Part `i` of a channel of `n` samples.
pub open spec fn chunk_of<T>(x: Seq<T>, n: int, i: int) -> Seq<T> {
    x.subrange(chunk::chunk_start(i), chunk::chunk_end(n, i))
}

/// The history of processing audio in chunks: `chunks` holds the stems of the first chunks,
/// `wins` their windows, and `ls`, `rs` and `ws` the sums of the left channels, the right
/// channels and the windows before, between and after them.
pub open spec fn is_history<D: Dsp, M: Network<D>>(
    d: &D,
    e: &Engine<M>,
    left: Seq<D::T>,
    right: Seq<D::T>,
    chunks: Seq<Seq<Stem<D::T>>>,
    wins: Seq<Seq<D::T>>,
    ls: Seq<Seq<Seq<D::T>>>,
    rs: Seq<Seq<Seq<D::T>>>,
    ws: Seq<Seq<D::T>>,
) -> bool {
    let n = left.len() as int;
    &&& wins.len() == chunks.len()
    &&& ls.len() == chunks.len() + 1
    &&& rs.len() == chunks.len() + 1
    &&& ws.len() == chunks.len() + 1
    &&& are_zero_rows(d, e.info.stems@.len() as int, n, ls[0])
    &&& are_zero_rows(d, e.info.stems@.len() as int, n, rs[0])
    &&& is_zero_row(d, n, ws[0])
    &&& forall|i: int|
        #![trigger chunks[i]]
        0 <= i < chunks.len() ==> is_history_step(
            d,
            e,
            left,
            right,
            i,
            chunks[i],
            wins[i],
            ls[i],
            rs[i],
            ws[i],
            ls[i + 1],
            rs[i + 1],
            ws[i + 1],
        )
}

/// Chunk `i` gave `stems`, which, windowed by `win`, led from the sums `(l0, r0, w0)` to
/// `(l1, r1, w1)`.
pub open spec fn is_history_step<D: Dsp, M: Network<D>>(
    d: &D,
    e: &Engine<M>,
    left: Seq<D::T>,
    right: Seq<D::T>,
    i: int,
    stems: Seq<Stem<D::T>>,
    win: Seq<D::T>,
    l0: Seq<Seq<D::T>>,
    r0: Seq<Seq<D::T>>,
    w0: Seq<D::T>,
    l1: Seq<Seq<D::T>>,
    r1: Seq<Seq<D::T>>,
    w1: Seq<D::T>,
) -> bool {
    let n = left.len() as int;
    let start = chunk::chunk_start(i);
    &&& is_segment(d, e, chunk_of(left, n, i), chunk_of(right, n, i), stems)
    &&& chunk::is_triangular(d, chunk::chunk_end(n, i) - start, win)
    &&& is_chunk_added(d, e.info.stems@, stems, start, win, l0, r0, l1, r1)
    &&& chunk::is_weight_added(d, w0, start, win, w1)
}

/// `row` is `n` zeros.
pub open spec fn is_zero_row<A: Arith>(a: &A, n: int, row: Seq<A::T>) -> bool {
    &&& row.len() == n
    &&& forall|t: int| 0 <= t < n ==> arith::is_zero(a, #[trigger] row[t])
}

/// `rows` is `k` rows of `n` zeros.
pub open spec fn are_zero_rows<A: Arith>(a: &A, k: int, n: int, rows: Seq<Seq<A::T>>) -> bool {
    &&& rows.len() == k
    &&& forall|i: int| 0 <= i < k ==> is_zero_row(a, n, #[trigger] rows[i])
}

/// `out` are the stems of audio longer than a segment: the sums over all chunks, divided by
/// the sum of the windows.
pub open spec fn is_long<D: Dsp, M: Network<D>>(
    d: &D,
    e: &Engine<M>,
    left: Seq<D::T>,
    right: Seq<D::T>,
    out: Seq<Stem<D::T>>,
) -> bool {
    exists|
        chunks: Seq<Seq<Stem<D::T>>>,
        wins: Seq<Seq<D::T>>,
        ls: Seq<Seq<Seq<D::T>>>,
        rs: Seq<Seq<Seq<D::T>>>,
        ws: Seq<Seq<D::T>>,
    |
        {
            &&& #[trigger] is_history(d, e, left, right, chunks, wins, ls, rs, ws)
            &&& chunks.len() == chunk::chunk_count(left.len() as int)
            &&& out.len() == e.info.stems@.len()
            &&& forall|s: int|
                #![trigger out[s]]
                0 <= s < out.len() ==> {
                    &&& out[s].id == e.info.stems@[s]
                    &&& chunk::is_unweighted(d, ls.last()[s], ws.last(), out[s].left@)
                    &&& chunk::is_unweighted(d, rs.last()[s], ws.last(), out[s].right@)
                }
        }
}

/// `out` are all stems of audio at the network's own rate.
pub open spec fn is_native<D: Dsp, M: Network<D>>(
    d: &D,
    e: &Engine<M>,
    left: Seq<D::T>,
    right: Seq<D::T>,
    out: Seq<Stem<D::T>>,
) -> bool {
    if left.len() <= TRAINING_LENGTH {
        is_segment(d, e, left, right, out)
    } else {
        is_long(d, e, left, right, out)
    }
}

/// `x` is why audio at the network's own rate gave no stems: one of its chunks failed, or a
/// model gave a stem that it should not have.
pub open spec fn is_native_failure<D: Dsp, M: Network<D>>(
    d: &D,
    e: &Engine<M>,
    left: Seq<D::T>,
    right: Seq<D::T>,
    x: DemucsError,
) -> bool {
    let n = left.len() as int;
    if n <= TRAINING_LENGTH {
        is_segment_failure(d, e, left, right, x)
    } else {
        ||| exists|i: int|
            0 <= i < chunk::chunk_count(n) && is_segment_failure(
                d,
                e,
                #[trigger] chunk_of(left, n, i),
                chunk_of(right, n, i),
                x,
            )
        ||| exists|i: int, stems: Seq<Stem<D::T>>, j: int|
            {
                &&& 0 <= i < chunk::chunk_count(n)
                &&& #[trigger] is_segment(
                    d,
                    e,
                    chunk_of(left, n, i),
                    chunk_of(right, n, i),
                    stems,
                )
                &&& 0 <= j < stems.len()
                &&& row_from(e.info.stems@, (#[trigger] stems[j]).id, 0) == e.info.stems@.len()
                &&& x is Internal
                &&& x->Internal_0@ == stray_text()
            }
    }
}

/// `n` zeros.
fn zero_row<A: Arith>(a: &A, n: usize) -> (r: Vec<A::T>)
    ensures
        is_zero_row(a, n as int, r@),
{
    let mut out: Vec<A::T> = Vec::new();
    let mut i: usize = 0;
    while i < n
        invariant
            i <= n,
            out@.len() == i,
            forall|t: int| 0 <= t < i ==> arith::is_zero(a, #[trigger] out@[t]),
        decreases n - i,
    {
        let z: A::T = arith::zero(a);
        out.push(z);
        i = i + 1;
    }
    out
}

/// `k` rows of `n` zeros.
fn zero_rows<A: Arith>(a: &A, k: usize, n: usize) -> (r: Vec<Vec<A::T>>)
    ensures
        are_zero_rows(a, k as int, n as int, rows_of(r@)),
        r@.len() == k,
        forall|i: int| 0 <= i < k ==> (#[trigger] r@[i])@.len() == n,
{
    let mut out: Vec<Vec<A::T>> = Vec::new();
    let mut i: usize = 0;
    while i < k
        invariant
            i <= k,
            out@.len() == i,
            forall|j: int| 0 <= j < i ==> is_zero_row(a, n as int, (#[trigger] out@[j])@),
        decreases k - i,
    {
        let row: Vec<A::T> = zero_row(a, n);
        out.push(row);
        i = i + 1;
    }
    out
}

/// Divides the sums by the weights and labels them.
fn finish<A: Arith>(
    a: &A,
    order: &Vec<StemId>,
    out_left: &Vec<Vec<A::T>>,
    out_right: &Vec<Vec<A::T>>,
    weight: &[A::T],
) -> (r: Vec<Stem<A::T>>)
    requires
        out_left@.len() == order@.len(),
        out_right@.len() == order@.len(),
        forall|k: int| 0 <= k < order@.len() ==> (#[trigger] out_left@[k])@.len() <= weight@.len(),
        forall|k: int| 0 <= k < order@.len() ==> (#[trigger] out_right@[k])@.len() <= weight@.len(),
    ensures
        r@.len() == order@.len(),
        forall|s: int|
            #![trigger r@[s]]
            0 <= s < r@.len() ==> {
                &&& r@[s].id == order@[s]
                &&& chunk::is_unweighted(a, out_left@[s]@, weight@, r@[s].left@)
                &&& chunk::is_unweighted(a, out_right@[s]@, weight@, r@[s].right@)
            },
{
    let n: usize = order.len();
    let mut out: Vec<Stem<A::T>> = Vec::new();
    let mut s: usize = 0;
    while s < n
        invariant
            s <= n,
            n == order@.len(),
            out_left@.len() == n,
            out_right@.len() == n,
            forall|k: int| 0 <= k < n ==> (#[trigger] out_left@[k])@.len() <= weight@.len(),
            forall|k: int| 0 <= k < n ==> (#[trigger] out_right@[k])@.len() <= weight@.len(),
            out@.len() == s,
            forall|k: int|
                #![trigger out@[k]]
                0 <= k < s ==> {
                    &&& out@[k].id == order@[k]
                    &&& chunk::is_unweighted(a, out_left@[k]@, weight@, out@[k].left@)
                    &&& chunk::is_unweighted(a, out_right@[k]@, weight@, out@[k].right@)
                },
        decreases n - s,
    {
        let left: Vec<A::T> = chunk::unweight(a, &out_left[s], weight);
        let right: Vec<A::T> = chunk::unweight(a, &out_right[s], weight);
        out.push(Stem { id: order[s], left, right });
        s = s + 1;
    }
    out
}

impl<M> Engine<M> {
    /// Separates audio that is longer than a segment, in overlapping chunks.
    fn separate_chunks<D: Dsp>(&self, d: &D, left: &[D::T], right: &[D::T]) -> (r: Result<
        Vec<Stem<D::T>>,
        DemucsError,
    >) where M: Network<D>
        requires
            engine_ok(self),
            left@.len() > TRAINING_LENGTH,
            right@.len() >= left@.len(),
        ensures
            match r {
                Ok(v) => {
                    &&& is_long(d, self, left@, right@, v@)
                    &&& all_of_length(v@, left@.len() as int)
                },
                Err(x) => is_native_failure(d, self, left@, right@, x),
            },
    {
        let n: usize = left.len();
        let count: usize = chunk::num_chunks(n);
        let n_stems: usize = self.info.stems.len();
        let mut out_left: Vec<Vec<D::T>> = zero_rows(d, n_stems, n);
        let mut out_right: Vec<Vec<D::T>> = zero_rows(d, n_stems, n);
        let mut weight: Vec<D::T> = zero_row(d, n);
        let ghost mut chunks: Seq<Seq<Stem<D::T>>> = seq![];
        let ghost mut wins: Seq<Seq<D::T>> = seq![];
        let ghost mut ls = seq![rows_of(out_left@)];
        let ghost mut rs = seq![rows_of(out_right@)];
        let ghost mut ws = seq![weight@];
        let mut i: usize = 0;
        while i < count
            invariant
                i <= count,
                count == chunk::chunk_count(n as int),
                n == left@.len(),
                n > TRAINING_LENGTH,
                right@.len() >= n,
                engine_ok(self),
                n_stems == self.info.stems@.len(),
                out_left@.len() == n_stems,
                out_right@.len() == n_stems,
                weight@.len() == n,
                forall|k: int| 0 <= k < n_stems ==> (#[trigger] out_left@[k])@.len() == n,
                forall|k: int| 0 <= k < n_stems ==> (#[trigger] out_right@[k])@.len() == n,
                chunks.len() == i,
                ls.last() == rows_of(out_left@),
                rs.last() == rows_of(out_right@),
                ws.last() == weight@,
                is_history(d, self, left@, right@, chunks, wins, ls, rs, ws),
            decreases count - i,
        {
            proof {
                chunk::chunks_inside(n as int, i as int);
            }
            let start: usize = i * chunk::CHUNK_STRIDE;
            let end: usize = if n - start >= TRAINING_LENGTH {
                start + TRAINING_LENGTH
            } else {
                n
            };
            let chunk_len: usize = end - start;
            let left_chunk: &[D::T] = slice_subrange(left, start, end);
            let right_chunk: &[D::T] = slice_subrange(right, start, end);
            assert(left_chunk@ == chunk_of(left@, n as int, i as int));
            assert(right_chunk@ == chunk_of(right@, n as int, i as int));
            let stems: Vec<Stem<D::T>> = match self.separate_single_segment(d, left_chunk, right_chunk) {
                Ok(v) => v,
                Err(x) => {
                    return Err(x);
                },
            };
            let window: Vec<D::T> = chunk::triangular_window(d, chunk_len);
            let ghost before_l = rows_of(out_left@);
            let ghost before_r = rows_of(out_right@);
            let ghost before_w = weight@;
            if !add_chunk(
                d,
                &self.info.stems,
                &stems,
                start,
                &window,
                &mut out_left,
                &mut out_right,
            ) {
                proof {
                    let j = choose|j: int|
                        0 <= j < stems@.len() && row_from(
                            self.info.stems@,
                            (#[trigger] stems@[j]).id,
                            0,
                        ) == self.info.stems@.len();
                    let x = stems@[j];
                    assert(is_segment(
                        d,
                        self,
                        chunk_of(left@, n as int, i as int),
                        chunk_of(right@, n as int, i as int),
                        stems@,
                    ));
                }
                return Err(
                    DemucsError::Internal("a model gave a stem that it should not have".to_owned()),
                );
            }
            chunk::add_weight(d, &mut weight, start, &window);
            proof {
                let (c0, w0, l0, r0, s0) = (chunks, wins, ls, rs, ws);
                chunks = chunks.push(stems@);
                wins = wins.push(window@);
                ls = ls.push(rows_of(out_left@));
                rs = rs.push(rows_of(out_right@));
                ws = ws.push(weight@);
                assert(is_history_step(
                    d,
                    self,
                    left@,
                    right@,
                    i as int,
                    stems@,
                    window@,
                    before_l,
                    before_r,
                    before_w,
                    rows_of(out_left@),
                    rows_of(out_right@),
                    weight@,
                ));
                assert forall|k: int|
                    #![trigger chunks[k]]
                    0 <= k < chunks.len() implies is_history_step(
                    d,
                    self,
                    left@,
                    right@,
                    k,
                    chunks[k],
                    wins[k],
                    ls[k],
                    rs[k],
                    ws[k],
                    ls[k + 1],
                    rs[k + 1],
                    ws[k + 1],
                ) by {
                    if k < i {
                        assert(chunks[k] == c0[k] && wins[k] == w0[k] && ls[k] == l0[k] && rs[k]
                            == r0[k] && ws[k] == s0[k] && ls[k + 1] == l0[k + 1] && rs[k + 1]
                            == r0[k + 1] && ws[k + 1] == s0[k + 1]);
                    }
                }
            }
            i = i + 1;
        }
        let out: Vec<Stem<D::T>> = finish(d, &self.info.stems, &out_left, &out_right, &weight);
        proof {
            assert(is_history(d, self, left@, right@, chunks, wins, ls, rs, ws));
            assert forall|s: int|
                #![trigger out@[s]]
                0 <= s < out@.len() implies {
                &&& out@[s].id == self.info.stems@[s]
                &&& chunk::is_unweighted(d, ls.last()[s], ws.last(), out@[s].left@)
                &&& chunk::is_unweighted(d, rs.last()[s], ws.last(), out@[s].right@)
            } by {
                assert(ls.last()[s] == out_left@[s]@);
                assert(rs.last()[s] == out_right@[s]@);
            }
        }
        Ok(out)
    }
}

/// Whether `v` holds `id`.
fn holds(v: &Vec<StemId>, id: StemId) -> (r: bool)
    ensures
        r == v@.contains(id),
{
    let n: usize = v.len();
    let mut k: usize = 0;
    while k < n
        invariant
            k <= n,
            n == v@.len(),
            forall|j: int| 0 <= j < k ==> v@[j] != id,
        decreases n - k,
    {
        if v[k] == id {
            return true;
        }
        k = k + 1;
    }
    false
}

/// The stems among `v` that were asked for, in the order in which they are there.
pub open spec fn kept<T>(v: Seq<Stem<T>>, selected: Seq<StemId>) -> Seq<Stem<T>> {
    v.filter(|s: Stem<T>| selected.contains(s.id))
}

/// Keeps the stems that were asked for.
fn keep_selected<T>(stems: Vec<Stem<T>>, selected: &Vec<StemId>) -> (r: Vec<Stem<T>>)
    ensures
        r@ == kept(stems@, selected@),
        forall|n: int| #[trigger] all_of_length(stems@, n) ==> all_of_length(r@, n),
{
    let ghost given = stems@;
    let ghost wanted = |s: Stem<T>| selected@.contains(s.id);
    let mut rest: Vec<Stem<T>> = stems;
    let mut out: Vec<Stem<T>> = Vec::new();
    let ghost mut i: int = 0;
    proof {
        assert(given.skip(0) =~= given);
        assert(given.take(0).filter(wanted) =~= seq![]) by {
            reveal(Seq::filter);
        }
    }
    while rest.len() > 0
        invariant
            0 <= i <= given.len(),
            wanted == (|s: Stem<T>| selected@.contains(s.id)),
            rest@ == given.skip(i),
            out@ == given.take(i).filter(wanted),
            forall|n: int| #[trigger] all_of_length(given, n) ==> all_of_length(out@, n),
        decreases rest@.len(),
    {
        let s: Stem<T> = rest.remove(0);
        proof {
            assert(s == given[i]);
            assert(rest@ =~= given.skip(i + 1));
            assert(given.take(i + 1).drop_last() =~= given.take(i));
            assert(given.take(i + 1).last() == given[i]);
            reveal(Seq::filter);
        }
        if holds(selected, s.id) {
            out.push(s);
        }
        proof {
            i = i + 1;
        }
    }
    proof {
        assert(given.take(i) =~= given);
    }
    out
}

/// The two channels can be processed together: a right channel of the same length, or of at
/// least the same length where the audio is longer than a segment.
pub open spec fn channels_ok(left_len: int, right_len: int) -> bool {
    if left_len <= TRAINING_LENGTH {
        right_len == left_len
    } else {
        right_len >= left_len
    }
}

/// `x` says that resampling `samples` failed, and why.
pub open spec fn is_resample_failure<D: Dsp>(
    d: &D,
    samples: Seq<D::T>,
    from: u32,
    to: u32,
    x: DemucsError,
) -> bool {
    exists|cause: DemucsError|
        {
            &&& #[trigger] dsp::is_resample(d, samples, from, to, Err(cause))
            &&& x is Dsp
            &&& x->Dsp_0@ == "resample: "@ + error::detail(cause)
        }
}

/// Resamples one channel.
fn resample_channel<D: Dsp>(d: &D, x: &[D::T], from: u32, to: u32) -> (r: Result<
    Vec<D::T>,
    DemucsError,
>)
    ensures
        match r {
            Ok(v) => dsp::is_resample(d, x@, from, to, Ok(v)),
            Err(e) => is_resample_failure(d, x@, from, to, e),
        },
{
    match dsp::resample(d, x, from, to) {
        Ok(v) => Ok(v),
        Err(cause) => {
            let why: String = cause.into_detail();
            Err(DemucsError::Dsp(text::join("resample: ", why.as_str())))
        },
    }
}

/// `out` is `stem` at the rate `rate`.
pub open spec fn is_resampled_stem<D: Dsp>(
    d: &D,
    stem: Stem<D::T>,
    rate: u32,
    out: Stem<D::T>,
) -> bool {
    &&& out.id == stem.id
    &&& dsp::is_resample(d, stem.left@, SAMPLE_RATE as u32, rate, Ok(out.left))
    &&& dsp::is_resample(d, stem.right@, SAMPLE_RATE as u32, rate, Ok(out.right))
}

/// `out` are `stems` at the rate `rate`.
pub open spec fn are_resampled_stems<D: Dsp>(
    d: &D,
    stems: Seq<Stem<D::T>>,
    rate: u32,
    out: Seq<Stem<D::T>>,
) -> bool {
    &&& out.len() == stems.len()
    &&& forall|k: int| 0 <= k < out.len() ==> is_resampled_stem(
        d,
        stems[k],
        rate,
        #[trigger] out[k],
    )
}

/// `out` is the result of [`Engine::separate`].
pub open spec fn is_separated<D: Dsp, M: Network<D>>(
    d: &D,
    e: &Engine<M>,
    left: Seq<D::T>,
    right: Seq<D::T>,
    rate: u32,
    out: Seq<Stem<D::T>>,
) -> bool {
    if rate == SAMPLE_RATE {
        exists|all: Seq<Stem<D::T>>| #[trigger]
            is_native(d, e, left, right, all) && out == kept(all, e.selected_stems@)
    } else {
        exists|l: Vec<D::T>, r: Vec<D::T>, all: Seq<Stem<D::T>>|
            {
                &&& #[trigger] dsp::is_resample(d, left, rate, SAMPLE_RATE as u32, Ok(l))
                &&& #[trigger] dsp::is_resample(d, right, rate, SAMPLE_RATE as u32, Ok(r))
                &&& channels_ok(l@.len() as int, r@.len() as int)
                &&& #[trigger] is_native(d, e, l@, r@, all)
                &&& are_resampled_stems(d, kept(all, e.selected_stems@), rate, out)
            }
    }
}

/// The text of the error for channels that came back from resampling with lengths that do
/// not go together.
pub open spec fn ragged_text() -> Seq<char> {
    "resample: the channels differ in length"@
}

/// `x` is why [`Engine::separate`] gave no stems: the separation at the network's own rate
/// failed, or resampling did on the way in or out.
pub open spec fn is_separate_failure<D: Dsp, M: Network<D>>(
    d: &D,
    e: &Engine<M>,
    left: Seq<D::T>,
    right: Seq<D::T>,
    rate: u32,
    x: DemucsError,
) -> bool {
    if rate == SAMPLE_RATE {
        is_native_failure(d, e, left, right, x)
    } else {
        ||| is_resample_failure(d, left, rate, SAMPLE_RATE as u32, x)
        ||| is_resample_failure(d, right, rate, SAMPLE_RATE as u32, x)
        ||| exists|l: Vec<D::T>, r: Vec<D::T>|
            {
                &&& #[trigger] dsp::is_resample(d, left, rate, SAMPLE_RATE as u32, Ok(l))
                &&& #[trigger] dsp::is_resample(d, right, rate, SAMPLE_RATE as u32, Ok(r))
                &&& {
                    ||| !channels_ok(l@.len() as int, r@.len() as int) && x is Dsp && x->Dsp_0@
                        == ragged_text()
                    ||| is_native_failure(d, e, l@, r@, x)
                    ||| exists|all: Seq<Stem<D::T>>, k: int|
                        {
                            &&& #[trigger] is_native(d, e, l@, r@, all)
                            &&& 0 <= k < kept(all, e.selected_stems@).len()
                            &&& is_stem_resample_failure(
                                d,
                                #[trigger] kept(all, e.selected_stems@)[k],
                                rate,
                                x,
                            )
                        }
                }
            }
    }
}

/// `x` is why one of the channels of `stem` could not be resampled.
pub open spec fn is_stem_resample_failure<D: Dsp>(
    d: &D,
    stem: Stem<D::T>,
    rate: u32,
    x: DemucsError,
) -> bool {
    ||| is_resample_failure(d, stem.left@, SAMPLE_RATE as u32, rate, x)
    ||| is_resample_failure(d, stem.right@, SAMPLE_RATE as u32, rate, x)
}

/// Resamples the stems to the rate `rate`.
fn resample_stems<D: Dsp>(d: &D, stems: &Vec<Stem<D::T>>, rate: u32) -> (r: Result<
    Vec<Stem<D::T>>,
    DemucsError,
>)
    ensures
        match r {
            Ok(v) => are_resampled_stems(d, stems@, rate, v@),
            Err(x) => exists|k: int|
                0 <= k < stems@.len() && is_stem_resample_failure(
                    d,
                    #[trigger] stems@[k],
                    rate,
                    x,
                ),
        },
{
    let n: usize = stems.len();
    let native: u32 = SAMPLE_RATE as u32;
    let mut out: Vec<Stem<D::T>> = Vec::new();
    let mut k: usize = 0;
    while k < n
        invariant
            k <= n,
            n == stems@.len(),
            native == SAMPLE_RATE as u32,
            out@.len() == k,
            forall|j: int|
                0 <= j < k ==> is_resampled_stem(d, stems@[j], rate, #[trigger] out@[j]),
        decreases n - k,
    {
        let left: Vec<D::T> = match resample_channel(d, &stems[k].left, native, rate) {
            Ok(v) => v,
            Err(x) => {
                return Err(x);
            },
        };
        let right: Vec<D::T> = match resample_channel(d, &stems[k].right, native, rate) {
            Ok(v) => v,
            Err(x) => {
                return Err(x);
            },
        };
        out.push(Stem { id: stems[k].id, left, right });
        k = k + 1;
    }
    Ok(out)
}

impl<M> Engine<M> {
    /// Separates audio at the network's own rate.
    fn separate_native<D: Dsp>(&self, d: &D, left: &[D::T], right: &[D::T]) -> (r: Result<
        Vec<Stem<D::T>>,
        DemucsError,
    >) where M: Network<D>
        requires
            engine_ok(self),
            channels_ok(left@.len() as int, right@.len() as int),
        ensures
            match r {
                Ok(v) => {
                    &&& is_native(d, self, left@, right@, v@)
                    &&& all_of_length(v@, left@.len() as int)
                },
                Err(x) => is_native_failure(d, self, left@, right@, x),
            },
    {
        if left.len() <= TRAINING_LENGTH {
            self.separate_single_segment(d, left, right)
        } else {
            self.separate_chunks(d, left, right)
        }
    }

    /// Separates stereo audio into the stems that were asked for.
    pub fn separate<D: Dsp>(&self, d: &D, left: &[D::T], right: &[D::T], sample_rate: u32) -> (r: Result<
        Vec<Stem<D::T>>,
        DemucsError,
    >) where M: Network<D>
        requires
            engine_ok(self),
            sample_rate == SAMPLE_RATE ==> channels_ok(left@.len() as int, right@.len() as int),
        ensures
            match r {
                Ok(v) => {
                    &&& is_separated(d, self, left@, right@, sample_rate, v@)
                    &&& sample_rate == SAMPLE_RATE ==> all_of_length(v@, left@.len() as int)
                },
                Err(x) => is_separate_failure(d, self, left@, right@, sample_rate, x),
            },
    {
        let native: u32 = SAMPLE_RATE as u32;
        if sample_rate == native {
            return match self.separate_native(d, left, right) {
                Ok(v) => {
                    Ok(keep_selected(v, &self.selected_stems))
                },
                Err(x) => Err(x),
            };
        }
        let l: Vec<D::T> = match resample_channel(d, left, sample_rate, native) {
            Ok(v) => v,
            Err(x) => {
                return Err(x);
            },
        };
        let r: Vec<D::T> = match resample_channel(d, right, sample_rate, native) {
            Ok(v) => v,
            Err(x) => {
                return Err(x);
            },
        };
        let fits: bool = if l.len() <= TRAINING_LENGTH {
            r.len() == l.len()
        } else {
            r.len() >= l.len()
        };
        if !fits {
            return Err(DemucsError::Dsp("resample: the channels differ in length".to_owned()));
        }
        match self.separate_native(d, &l, &r) {
            Ok(v) => {
                let ghost all = v@;
                let wanted: Vec<Stem<D::T>> = keep_selected(v, &self.selected_stems);
                match resample_stems(d, &wanted, sample_rate) {
                    Ok(out) => {
                        assert(is_native(d, self, l@, r@, all));
                        Ok(out)
                    },
                    Err(x) => {
                        assert(is_native(d, self, l@, r@, all));
                        assert(wanted@ == kept(all, self.selected_stems@));
                        Err(x)
                    },
                }
            },
            Err(x) => Err(x),
        }
    }
}

/// The stems that were asked for.
pub open spec fn selection(info: &ModelInfo, opts: &LoadOptions) -> Seq<StemId> {
    match opts.stems {
        StemSelection::All => info.stems@,
        StemSelection::Only(s) => s@,
    }
}

/// The positions below `n` of the signatures to load: the only one, or those of the stems
/// that were asked for.
pub open spec fn chosen(info: &ModelInfo, selected: Seq<StemId>, n: int) -> Seq<int>
    decreases n,
{
    if n <= 0 {
        seq![]
    } else if info.signatures@.len() == 1 || selected.contains(info.stems@[n - 1]) {
        chosen(info, selected, n - 1).push(n - 1)
    } else {
        chosen(info, selected, n - 1)
    }
}

/// The positions of all signatures to load.
pub open spec fn all_chosen(info: &ModelInfo, selected: Seq<StemId>) -> Seq<int> {
    chosen(info, selected, info.signatures@.len() as int)
}

/// Width of the transformer of a model with `n` stems.
pub open spec fn transformer_width(n: int) -> usize {
    if n == 6 {
        384
    } else {
        512
    }
}

/// Every position is one of a signature, and of a stem that was asked for unless there is but
/// one signature.
pub proof fn chosen_in_range(info: &ModelInfo, selected: Seq<StemId>, n: int, k: int)
    requires
        0 <= k < chosen(info, selected, n).len(),
    ensures
        0 <= chosen(info, selected, n)[k] < n,
        info.signatures@.len() == 1 || selected.contains(
            info.stems@[chosen(info, selected, n)[k]],
        ),
    decreases n,
{
    if n > 0 {
        if k < chosen(info, selected, n - 1).len() {
            chosen_in_range(info, selected, n - 1, k);
        }
    }
}

/// The position of every stem that was asked for is chosen.
pub proof fn chosen_complete(info: &ModelInfo, selected: Seq<StemId>, n: int, i: int) -> (k: int)
    requires
        0 <= i < n,
        selected.contains(info.stems@[i]),
    ensures
        0 <= k < chosen(info, selected, n).len(),
        chosen(info, selected, n)[k] == i,
    decreases n,
{
    if i == n - 1 {
        chosen(info, selected, n).len() - 1
    } else {
        chosen_complete(info, selected, n - 1, i)
    }
}

/// The stems that were asked for, and the positions of the signatures to load for them.
pub(crate) fn choose_models(info: &ModelInfo, opts: &LoadOptions) -> (r: (Vec<StemId>, Vec<usize>))
    requires
        metadata::info_ok(info),
    ensures
        r.0@ == selection(info, opts),
        r.1@.len() == all_chosen(info, r.0@).len(),
        forall|j: int| 0 <= j < r.1@.len() ==> #[trigger] r.1@[j] == all_chosen(info, r.0@)[j],
{
    let selected: Vec<StemId> = match &opts.stems {
        StemSelection::All => layout::to_vec(&info.stems),
        StemSelection::Only(s) => layout::to_vec(s),
    };
    let n: usize = info.signatures.len();
    let mut wanted: Vec<usize> = Vec::new();
    let mut i: usize = 0;
    while i < n
        invariant
            i <= n,
            n == info.signatures@.len(),
            metadata::info_ok(info),
            wanted@.len() == chosen(info, selected@, i as int).len(),
            forall|k: int|
                0 <= k < wanted@.len() ==> #[trigger] wanted@[k] == chosen(
                    info,
                    selected@,
                    i as int,
                )[k],
        decreases n - i,
    {
        if n == 1 || holds(&selected, info.stems[i]) {
            wanted.push(i);
        }
        i = i + 1;
    }
    (selected, wanted)
}

/// Only stems that were asked for are kept, and all of them.
pub proof fn kept_are_selected<T>(v: Seq<Stem<T>>, selected: Seq<StemId>)
    ensures
        forall|k: int|
            0 <= k < kept(v, selected).len() ==> selected.contains(
                (#[trigger] kept(v, selected)[k]).id,
            ),
        forall|i: int|
            0 <= i < v.len() && selected.contains((#[trigger] v[i]).id) ==> kept(
                v,
                selected,
            ).contains(v[i]),
{
    broadcast use vstd::seq_lib::group_filter_ensures;

}

} // verus!
