//! The engine on the processor.
use vstd::prelude::*;
use vstd::slice::slice_subrange;
use crate::arith;
use crate::arith::Arith;
use crate::catalogue_laws;
use crate::dsp::Dsp;
use crate::engine;
use crate::engine::Engine;
use crate::engine::LoadedModel;
use crate::engine::Network;
use crate::engine::Usable;
use crate::error::DemucsError;
use crate::index;
use crate::loading;
use crate::metadata;
use crate::metadata::ModelInfo;
use crate::metadata::StemId;
use crate::model::HTDemucs;
use crate::ops_cpu::check;
use crate::ops_cpu::forward;
use crate::ops_cpu::layout;
use crate::ops_cpu::stems;
use crate::text;
use crate::weights;
use crate::weights::WeightStore;
use crate::LoadOptions;
use crate::Stem;
use crate::TRAINING_LENGTH;

pub use crate::chunk::triangular_window;

verus! {

/// Number of bins of a spectrogram.
pub const N_BINS: usize = 2048;

/// One model on the processor, with the signature of its weights.
pub type CpuModel<T> = LoadedModel<HTDemucs<T>>;

/// The engine on the processor.
pub type CpuEngine<T> = Engine<HTDemucs<T>>;

/// The channels of two spectrograms in the layout `[2, bins, frames]` each, one after the
/// other: `[4, bins, frames]`.
pub open spec fn freq_tensor<T>(left: Seq<T>, right: Seq<T>, bins: int, frames: int) -> Seq<T> {
    left.take(2 * bins * frames) + right.take(2 * bins * frames)
}

/// Stacks the channels of the left and the right spectrogram.
pub fn build_freq_tensor<T: Copy>(left_cac: &[T], right_cac: &[T], n_bins: usize, n_frames: usize) -> (r: Vec<
    T,
>)
    requires
        2 * n_bins <= usize::MAX,
        2 * n_bins * n_frames <= left_cac@.len(),
        2 * n_bins * n_frames <= right_cac@.len(),
    ensures
        r@ == freq_tensor(left_cac@, right_cac@, n_bins as int, n_frames as int),
        r@.len() == 2 * (2 * n_bins * n_frames),
{
    let len: usize = left_cac.len();
    let n: usize = 2 * n_bins * n_frames;
    let mut out: Vec<T> = layout::to_vec(slice_subrange(left_cac, 0, n));
    let mut i: usize = 0;
    while i < n
        invariant
            i <= n,
            n == 2 * n_bins * n_frames,
            n <= left_cac@.len(),
            n <= right_cac@.len(),
            out@ == left_cac@.take(n as int) + right_cac@.take(i as int),
        decreases n - i,
    {
        out.push(right_cac[i]);
        i = i + 1;
        assert(right_cac@.take(i as int) =~= right_cac@.take(i - 1).push(right_cac@[i - 1]));
    }
    out
}

/// The waveforms of the two channels one after the other, each filled up with `z` to `n`
/// samples.
pub open spec fn time_tensor<T>(left: Seq<T>, right: Seq<T>, n: int, z: T) -> Seq<T> {
    Seq::new(
        (2 * n) as nat,
        |i: int|
            if n <= i < n + right.len() {
                right[i - n]
            } else if i < left.len() {
                left[i]
            } else {
                z
            },
    )
}

/// Stacks the waveforms of the two channels.
pub fn build_time_tensor<A: Arith>(
    a: &A,
    left: &[A::T],
    right: &[A::T],
    padded_len: usize,
) -> (r: Vec<A::T>)
    requires
        2 * padded_len <= usize::MAX,
        left@.len() <= 2 * padded_len,
        right@.len() <= padded_len,
    ensures
        exists|z: A::T| #[trigger]
            arith::is_zero(a, z) && r@ == time_tensor(left@, right@, padded_len as int, z),
{
    let z: A::T = arith::zero(a);
    let n: usize = 2 * padded_len;
    let l: usize = left.len();
    let m: usize = right.len();
    let mut out: Vec<A::T> = Vec::new();
    let mut i: usize = 0;
    while i < n
        invariant
            i <= n,
            n == 2 * padded_len,
            l == left@.len(),
            m == right@.len(),
            m <= padded_len,
            out@.len() == i,
            forall|j: int|
                0 <= j < i ==> out@[j] == #[trigger] time_tensor(
                    left@,
                    right@,
                    padded_len as int,
                    z,
                )[j],
        decreases n - i,
    {
        if padded_len <= i && i - padded_len < m {
            out.push(right[i - padded_len]);
        } else if i < l {
            out.push(left[i]);
        } else {
            out.push(z);
        }
        i = i + 1;
    }
    assert(out@ =~= time_tensor(left@, right@, padded_len as int, z));
    out
}

/// Shape of the spectrogram that enters the network.
pub open spec fn freq_shape(frames: int) -> [usize; 4] {
    [1, 4, N_BINS, frames as usize]
}

/// Shape of the waveform that enters the network.
pub open spec fn time_shape() -> [usize; 3] {
    [1, 2, TRAINING_LENGTH]
}

/// The network and the extraction of the stems are defined for `frames` frames.
pub open spec fn model_accepts<T>(frames: int, n: int, m: &HTDemucs<T>) -> bool {
    let fs = forward::forward_freq_shape(freq_shape(frames), m);
    let ts = forward::forward_time_shape(time_shape(), m);
    &&& forward::forward_ok(
        4 * N_BINS * frames,
        freq_shape(frames),
        2 * TRAINING_LENGTH,
        time_shape(),
        m,
    )
    &&& stems::extract_ok(index::size4(fs), fs, index::size3(ts), ts, frames, n)
}

/// `out` are all stems that one model gives.
pub open spec fn are_model_stems<D: Dsp>(
    d: &D,
    freq: Seq<D::T>,
    frames: int,
    time: Seq<D::T>,
    m: &HTDemucs<D::T>,
    n: int,
    out: Seq<Stem<D::T>>,
) -> bool {
    let fs = forward::forward_freq_shape(freq_shape(frames), m);
    let ts = forward::forward_time_shape(time_shape(), m);
    exists|fo: Seq<D::T>, to: Seq<D::T>|
        {
            &&& #[trigger] forward::is_forward(
                d,
                freq,
                freq_shape(frames),
                time,
                time_shape(),
                m,
                fo,
                to,
            )
            &&& out.len() == fs[1] / 4
            &&& forall|k: int|
                0 <= k < out.len() ==> stems::is_stem(
                    d,
                    fo,
                    fs,
                    frames,
                    TRAINING_LENGTH,
                    to,
                    ts[2] as int,
                    n,
                    k,
                    #[trigger] out[k],
                )
        }
}

/// The text of the error for a model whose shapes do not fit together.
pub open spec fn misfit_text() -> Seq<char> {
    "the weights do not fit the network"@
}

/// `e` is why one model gave no stems: its shapes do not fit together, or the signal
/// processing failed on one of its channels.
pub open spec fn is_model_failure<D: Dsp>(
    d: &D,
    freq: Seq<D::T>,
    frames: int,
    time: Seq<D::T>,
    m: &HTDemucs<D::T>,
    n: int,
    e: DemucsError,
) -> bool {
    ||| !model_accepts(frames, n, m) && e is Shape && e->Shape_0@ == misfit_text()
    ||| model_accepts(frames, n, m) && exists|fo: Seq<D::T>, to: Seq<D::T>|
        {
            &&& #[trigger] forward::is_forward(
                d,
                freq,
                freq_shape(frames),
                time,
                time_shape(),
                m,
                fo,
                to,
            )
            &&& stems::is_extract_failure(
                d,
                fo,
                forward::forward_freq_shape(freq_shape(frames), m),
                frames,
                TRAINING_LENGTH,
                n,
                e,
            )
        }
}

/// Whether the extraction of the stems is defined.
pub(crate) fn check_extract(
    freq_len: usize,
    fs: [usize; 4],
    time_len: usize,
    ts: [usize; 3],
    n_frames: usize,
    n_samples: usize,
) -> (r: bool)
    ensures
        r == stems::extract_ok(
            freq_len as int,
            fs,
            time_len as int,
            ts,
            n_frames as int,
            n_samples as int,
        ),
{
    if !(fs[1] == 16 || fs[1] == 24) || n_frames > fs[3] || fs[2] == usize::MAX || n_samples > ts[2] {
        return false;
    }
    let plane: usize = match fs[2].checked_mul(fs[3]) {
        Some(p) => p,
        None => {
            proof {
                assert(fs[2] * fs[3] <= fs[1] * (fs[2] * fs[3])) by (nonlinear_arith)
                    requires
                        fs[1] >= 1,
                        fs[2] * fs[3] >= 0,
                ;
            }
            return false;
        },
    };
    let need: usize = match fs[1].checked_mul(plane) {
        Some(p) => p,
        None => {
            return false;
        },
    };
    let spec: Option<usize> = n_frames.checked_mul(fs[2] + 1);
    let rows: usize = match (fs[1] / 2).checked_mul(ts[2]) {
        Some(p) => p,
        None => {
            return false;
        },
    };
    need <= freq_len && spec.is_some() && rows <= time_len
}

impl<T> Usable for HTDemucs<T> {
    open spec fn usable(&self) -> bool {
        true
    }
}

impl<D: Dsp> Network<D> for HTDemucs<D::T> {
    open spec fn gives(
        &self,
        d: &D,
        freq: Seq<D::T>,
        frames: int,
        time: Seq<D::T>,
        n: int,
        out: Seq<Stem<D::T>>,
    ) -> bool {
        model_accepts(frames, n, self) && are_model_stems(d, freq, frames, time, self, n, out)
    }

    open spec fn fails(
        &self,
        d: &D,
        freq: Seq<D::T>,
        frames: int,
        time: Seq<D::T>,
        n: int,
        x: DemucsError,
    ) -> bool {
        is_model_failure(d, freq, frames, time, self, n, x)
    }

    fn run(&self, d: &D, freq: &[D::T], n_frames: usize, time: &[D::T], n_samples: usize) -> (r: Result<
        Vec<Stem<D::T>>,
        DemucsError,
    >) {
        let fs: [usize; 4] = [1, 4, N_BINS, n_frames];
        let ts: [usize; 3] = [1, 2, TRAINING_LENGTH];
        assert(fs =~= freq_shape(n_frames as int));
        assert(ts =~= time_shape());
        if check::check_forward_pass(freq.len(), fs, time.len(), ts, self).is_none() {
            return Err(DemucsError::Shape("the weights do not fit the network".to_owned()));
        }
        let (fo, fo_shape, to, to_shape) = forward::htdemucs_forward(d, freq, fs, time, ts, self);
        if !check_extract(fo.len(), fo_shape, to.len(), to_shape, n_frames, n_samples) {
            return Err(DemucsError::Shape("the weights do not fit the network".to_owned()));
        }
        let r = stems::extract_stems(
            d,
            &fo,
            fo_shape,
            &to,
            to_shape,
            n_frames,
            TRAINING_LENGTH,
            n_samples,
        );
        proof {
            if r is Ok {
                assert(are_model_stems(
                    d,
                    freq@,
                    n_frames as int,
                    time@,
                    self,
                    n_samples as int,
                    r->Ok_0@,
                ));
            } else {
                assert(is_model_failure(
                    d,
                    freq@,
                    n_frames as int,
                    time@,
                    self,
                    n_samples as int,
                    r->Err_0,
                ));
            }
        }
        r
    }
}

/// The error in loading the model with the signature `sig`.
pub open spec fn signature_error(
    m: loading::Weights,
    sig: Seq<char>,
    width: usize,
) -> Option<Seq<char>> {
    loading::or(
        if weights::has_signature(m, sig) {
            None
        } else {
            Some("signature "@ + sig + " not found in weight store"@)
        },
        loading::htdemucs_error(m, sig, width),
    )
}

/// The first error in loading the models at `picked[from..]`.
pub open spec fn engine_error_from(
    m: loading::Weights,
    info: &ModelInfo,
    picked: Seq<int>,
    width: usize,
    from: int,
) -> Option<Seq<char>>
    decreases picked.len() - from,
{
    if from >= picked.len() {
        None
    } else {
        loading::or(
            signature_error(m, info.signatures@[picked[from]]@, width),
            engine_error_from(m, info, picked, width, from + 1),
        )
    }
}

/// `models` and `ids` are what is loaded for the signatures at `picked`: each model, and the
/// stem at the same position.
pub open spec fn are_models<A: Arith>(
    a: &A,
    m: loading::Weights,
    info: &ModelInfo,
    picked: Seq<int>,
    n_sources: usize,
    width: usize,
    models: Seq<LoadedModel<HTDemucs<A::T>>>,
    ids: Seq<StemId>,
) -> bool {
    &&& models.len() == picked.len()
    &&& ids.len() == picked.len()
    &&& forall|k: int|
        #![trigger models[k]]
        0 <= k < models.len() ==> {
            &&& models[k].sig@ == info.signatures@[picked[k]]@
            &&& loading::is_htdemucs(
                a,
                m,
                info.signatures@[picked[k]]@,
                n_sources,
                width,
                models[k].model,
            )
        }
    &&& forall|k: int| #![trigger ids[k]] 0 <= k < ids.len() ==> ids[k] == info.stems@[picked[k]]
}

/// `r` is the outcome of loading the models that are needed for the stems that were asked for.
pub open spec fn is_loaded<A: Arith>(
    a: &A,
    m: loading::Weights,
    info: ModelInfo,
    opts: &LoadOptions,
    r: Result<CpuEngine<A::T>, DemucsError>,
) -> bool {
    let selected = engine::selection(&info, opts);
    let picked = engine::all_chosen(&info, selected);
    let width = engine::transformer_width(info.stems@.len() as int);
    match r {
        Ok(e) => {
            &&& engine_error_from(m, &info, picked, width, 0) is None
            &&& engine::engine_ok(&e)
            &&& e.info == info
            &&& e.selected_stems@ == selected
            &&& e.n_sources == info.stems@.len()
            &&& e.bottom_channels == width
            &&& are_models(a, m, &info, picked, e.n_sources, width, e.models@, e.model_stems@)
        },
        Err(x) => loading::is_error(x, engine_error_from(m, &info, picked, width, 0)),
    }
}

impl<T: Copy> Engine<HTDemucs<T>> {
    /// Loads the models that are needed for the stems that were asked for.
    pub fn load<A: Arith<T = T>>(a: &A, store: &WeightStore, info: ModelInfo, opts: &LoadOptions) -> (r: Result<
        CpuEngine<T>,
        DemucsError,
    >)
        requires
            metadata::info_ok(&info),
        ensures
            is_loaded(a, store@, info, opts, r),
            r is Ok ==> catalogue_laws::is_outfit(&r->Ok_0, opts),
    {
        let (selected_stems, wanted) = engine::choose_models(&info, opts);
        let n_sources: usize = info.stems.len();
        let bottom_channels: usize = if n_sources == 6 {
            384
        } else {
            512
        };
        let ghost picked = engine::all_chosen(&info, selected_stems@);
        let count: usize = wanted.len();
        let mut models: Vec<LoadedModel<HTDemucs<T>>> = Vec::new();
        let mut model_stems: Vec<StemId> = Vec::new();
        let mut k: usize = 0;
        while k < count
            invariant
                k <= count,
                count == wanted@.len(),
                count == picked.len(),
                picked == engine::all_chosen(&info, selected_stems@),
                selected_stems@ == engine::selection(&info, opts),
                forall|j: int| 0 <= j < count ==> #[trigger] wanted@[j] == picked[j],
                metadata::info_ok(&info),
                n_sources == info.stems@.len(),
                bottom_channels == engine::transformer_width(info.stems@.len() as int),
                models@.len() == k,
                model_stems@.len() == k,
                engine_error_from(store@, &info, picked, bottom_channels, 0)
                    == engine_error_from(store@, &info, picked, bottom_channels, k as int),
                forall|j: int|
                    #![trigger models@[j]]
                    0 <= j < k ==> {
                        &&& models@[j].sig@ == info.signatures@[picked[j]]@
                        &&& loading::is_htdemucs(
                            a,
                            store@,
                            info.signatures@[picked[j]]@,
                            n_sources,
                            bottom_channels,
                            models@[j].model,
                        )
                    },
                forall|j: int|
                    #![trigger model_stems@[j]]
                    0 <= j < k ==> model_stems@[j] == info.stems@[picked[j]],
            decreases count - k,
        {
            proof {
                engine::chosen_in_range(
                    &info,
                    selected_stems@,
                    info.signatures@.len() as int,
                    k as int,
                );
            }
            let at: usize = wanted[k];
            assert(at == picked[k as int]);
            let sig: &str = info.signatures[at];
            if store.signature(sig).is_none() {
                let msg: String = text::join3("signature ", sig, " not found in weight store");
                return Err(DemucsError::Weight(msg));
            }
            let model: HTDemucs<T> = HTDemucs::from_store(
                a,
                store,
                sig,
                n_sources,
                bottom_channels,
            )?;
            models.push(LoadedModel { sig: sig.to_owned(), model });
            model_stems.push(info.stems[at]);
            k = k + 1;
        }
        let e: CpuEngine<T> = Engine {
            info,
            models,
            model_stems,
            selected_stems,
            n_sources,
            bottom_channels,
        };
        proof {
            assert(is_loaded(a, store@, info, opts, Ok(e)));
            catalogue_laws::loaded_for_the_processor_is_paired(a, store@, info, opts, e);
        }
        Ok(e)
    }
}

} // verus!
