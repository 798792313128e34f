//! The engine on the graphics device.
use vstd::prelude::*;
use crate::arith::Arith;
use crate::catalogue_laws;
use crate::cpu_engine;
use crate::cpu_engine::N_BINS;
use crate::cuda_ops::forward;
use crate::cuda_ops::forward::GpuForward;
use crate::dsp::Dsp;
use crate::engine;
use crate::engine::Engine;
use crate::engine::LoadedModel;
use crate::engine::Network;
use crate::engine::Usable;
use crate::error::DemucsError;
use crate::gpu_loading;
use crate::gpu_loading::Uploads;
use crate::gpu_model;
use crate::gpu_model::GpuHTDemucs;
use crate::gpu_tensor;
use crate::gpu_tensor::tensor3;
use crate::gpu_tensor::tensor4;
use crate::gpu_tensor::Built;
use crate::gpu_tensor::GpuTensor;
use crate::loading;
use crate::metadata;
use crate::metadata::ModelInfo;
use crate::metadata::StemId;
use crate::model::HTDemucs;
use crate::ops_cpu::standardize;
use crate::ops_cpu::stems;
use crate::program;
use crate::program::Program;
use crate::program::Step;
use crate::text;
use crate::weights;
use crate::weights::WeightStore;
use crate::LoadOptions;
use crate::Stem;
use crate::TRAINING_LENGTH;

verus! {

/// All that the device needs for one run: the program, and what its first steps bring to the
/// device. The contents of the two values named last are the results.
pub struct Job<'a, T> {
    pub weights: &'a Uploads<T>,
    pub program: &'a Program,
    pub freq_table: &'a Vec<T>,
    pub time_table: &'a Vec<T>,
    pub freq: &'a Vec<T>,
    pub time: &'a Vec<T>,
    pub freq_out: GpuTensor,
    pub time_out: GpuTensor,
}

/// What a step brings to the device is there, and is as long as the step says.
pub open spec fn source_ok(
    weights: Seq<int>,
    freq_table: int,
    time_table: int,
    freq: int,
    time: int,
    s: Step,
) -> bool {
    match s {
        Step::Upload { slot, len } => slot < weights.len() && weights[slot as int] == len,
        Step::Table { slot, len } => slot == 0 && len == freq_table || slot == 1 && len
            == time_table,
        Step::Input { slot, len } => slot == 0 && len == freq || slot == 1 && len == time,
        _ => true,
    }
}

/// The lengths of the weights.
pub open spec fn lengths<T>(u: Seq<Seq<T>>) -> Seq<int> {
    Seq::new(u.len(), |i: int| u[i].len() as int)
}

/// All that the steps bring to the device is there.
pub open spec fn sources_ok<T>(
    weights: Seq<Seq<T>>,
    s: Seq<Step>,
    freq_table: Seq<T>,
    time_table: Seq<T>,
    freq: Seq<T>,
    time: Seq<T>,
) -> bool {
    forall|i: int|
        0 <= i < s.len() ==> source_ok(
            lengths(weights),
            freq_table.len() as int,
            time_table.len() as int,
            freq.len() as int,
            time.len() as int,
            #[trigger] s[i],
        )
}

/// The graphics device.
///
/// Nothing is promised of the results of a run: a caller has to look at what comes back. But
/// no step of what it is asked to run reads or writes outside of the values of the program.
pub trait Device: Dsp {
    /// Runs a program, and gives the contents of its two results.
    fn run(&self, job: Job<'_, Self::T>) -> (r: Result<(Vec<Self::T>, Vec<Self::T>), DemucsError>)
        requires
            program::program_ok(job.program@),
            gpu_tensor::buffer_ok(job.program@, job.freq_out.data),
            gpu_tensor::buffer_ok(job.program@, job.time_out.data),
            sources_ok(
                job.weights@,
                job.program@,
                job.freq_table@,
                job.time_table@,
                job.freq@,
                job.time@,
            ),
    ;
}

/// `r` may be the outcome of running the program `s` for the values `fo` and `to`.
pub open spec fn is_run<D: Device>(
    d: &D,
    weights: Seq<Seq<D::T>>,
    s: Seq<Step>,
    freq_table: Seq<D::T>,
    time_table: Seq<D::T>,
    freq: Seq<D::T>,
    time: Seq<D::T>,
    fo: GpuTensor,
    to: GpuTensor,
    r: Result<(Vec<D::T>, Vec<D::T>), DemucsError>,
) -> bool {
    exists|job: Job<'_, D::T>|
        {
            &&& job.weights@ == weights
            &&& job.program@ == s
            &&& job.freq_table@ == freq_table
            &&& job.time_table@ == time_table
            &&& job.freq@ == freq
            &&& job.time@ == time
            &&& job.freq_out == fo
            &&& job.time_out == to
            &&& #[trigger] call_ensures(D::run, (d, job), r)
        }
}

/// One model as it is on the device: the arrays that go there, and the handles to them.
pub struct CudaModel<T> {
    pub weights: Uploads<T>,
    pub model: GpuHTDemucs,
}

impl<T> Usable for CudaModel<T> {
    open spec fn usable(&self) -> bool {
        gpu_model::model_ok(gpu_loading::upload_steps(self.weights@), self.model)
    }
}

/// The engine on the device.
pub type CudaEngine<T> = Engine<CudaModel<T>>;

/// The steps that bring the weights and the inputs to the device, and the handles to the inputs.
pub open spec fn input_steps<T>(m: CudaModel<T>, frames: usize) -> Built<(GpuTensor, GpuTensor)> {
    let s = gpu_loading::upload_steps(m.weights@);
    match gpu_tensor::size4(1, 4, N_BINS, frames) {
        None => Err(gpu_tensor::too_large()),
        Some(n) => {
            let s1 = s.push(Step::Input { slot: 0, len: n });
            let k: usize = (2 * TRAINING_LENGTH) as usize;
            Ok(
                (
                    s1.push(Step::Input { slot: 1, len: k }),
                    (
                        tensor4(s.len() as usize, n, 1, 4, N_BINS, frames),
                        tensor3(s1.len() as usize, k, 1, 2, TRAINING_LENGTH),
                    ),
                ),
            )
        },
    }
}

/// The whole program of a model for `frames` frames, and the handles to its results.
pub open spec fn pass_steps<T>(m: CudaModel<T>, frames: usize) -> Built<(GpuTensor, GpuTensor)> {
    match input_steps(m, frames) {
        Err(e) => Err(e),
        Ok((s, (f, t))) => forward::forward_steps(s, f, t, m.model),
    }
}

/// The tables for a program of a model.
pub open spec fn are_pass_tables<A: Arith>(
    a: &A,
    m: CudaModel<A::T>,
    frames: usize,
    freq_table: Seq<A::T>,
    time_table: Seq<A::T>,
) -> bool {
    input_steps(m, frames) matches Ok((s, (f, t))) && forward::are_tables(
        a,
        s,
        f,
        t,
        m.model,
        freq_table,
        time_table,
    )
}

/// `r` may be the outcome of the network on the device for normalized inputs.
pub open spec fn is_pass<D: Device>(
    d: &D,
    m: CudaModel<D::T>,
    frames: usize,
    freq: Seq<D::T>,
    time: Seq<D::T>,
    r: Result<(Vec<D::T>, Vec<D::T>), DemucsError>,
) -> bool {
    pass_steps(m, frames) matches Ok((s, (fo, to))) && exists|ft: Seq<D::T>, tt: Seq<D::T>|
        {
            &&& #[trigger] are_pass_tables(d, m, frames, ft, tt)
            &&& #[trigger] is_run(d, m.weights@, s, ft, tt, freq, time, fo, to, r)
        }
}

/// The text of the error for a program whose sources are not there.
pub open spec fn unsupplied_text() -> Seq<char> {
    "a step of the program has no source"@
}

/// `x` is why there is no outcome of the network on the device: it cannot be made into a
/// program, what the program asks for is not there, or the device failed.
pub open spec fn is_pass_failure<D: Device>(
    d: &D,
    m: CudaModel<D::T>,
    frames: usize,
    freq: Seq<D::T>,
    time: Seq<D::T>,
    x: DemucsError,
) -> bool {
    match pass_steps(m, frames) {
        Err(text) => x is Shape && x->Shape_0@ == text,
        Ok((s, (fo, to))) => {
            ||| is_pass(d, m, frames, freq, time, Err(x))
            ||| exists|ft: Seq<D::T>, tt: Seq<D::T>|
                {
                    &&& #[trigger] are_pass_tables(d, m, frames, ft, tt)
                    &&& !sources_ok(m.weights@, s, ft, tt, freq, time)
                    &&& x is Internal
                    &&& x->Internal_0@ == unsupplied_text()
                }
        },
    }
}

/// Checks [`source_ok`].
fn check_source<T>(
    weights: &Uploads<T>,
    freq_table: usize,
    time_table: usize,
    freq: usize,
    time: usize,
    s: Step,
) -> (r: bool)
    ensures
        r == source_ok(
            lengths(weights@),
            freq_table as int,
            time_table as int,
            freq as int,
            time as int,
            s,
        ),
{
    match s {
        Step::Upload { slot, len } => slot < weights.arrays.len() && weights.arrays[slot].len() == len,
        Step::Table { slot, len } => slot == 0 && len == freq_table || slot == 1 && len
            == time_table,
        Step::Input { slot, len } => slot == 0 && len == freq || slot == 1 && len == time,
        _ => true,
    }
}

/// Checks [`sources_ok`].
fn check_sources<T>(
    weights: &Uploads<T>,
    p: &Program,
    freq_table: &Vec<T>,
    time_table: &Vec<T>,
    freq: &Vec<T>,
    time: &Vec<T>,
) -> (r: bool)
    ensures
        r == sources_ok(weights@, p@, freq_table@, time_table@, freq@, time@),
{
    let n: usize = p.steps.len();
    let mut i: usize = 0;
    while i < n
        invariant
            i <= n,
            n == p@.len(),
            forall|j: int|
                0 <= j < i ==> source_ok(
                    lengths(weights@),
                    freq_table@.len() as int,
                    time_table@.len() as int,
                    freq@.len() as int,
                    time@.len() as int,
                    #[trigger] p@[j],
                ),
        decreases n - i,
    {
        if !check_source(
            weights,
            freq_table.len(),
            time_table.len(),
            freq.len(),
            time.len(),
            p.steps[i],
        ) {
            proof {
                let s = p@[i as int];
            }
            return false;
        }
        i = i + 1;
    }
    true
}

/// Brings normalized inputs to the device, runs the network there, and brings back what comes
/// out.
pub fn gpu_chunk<D: Device>(
    d: &D,
    m: &CudaModel<D::T>,
    freq: &Vec<D::T>,
    time: &Vec<D::T>,
    n_frames: usize,
) -> (r: Result<(Vec<D::T>, Vec<D::T>), DemucsError>)
    requires
        m.usable(),
    ensures
        match r {
            Ok(v) => is_pass(d, *m, n_frames, freq@, time@, Ok(v)),
            Err(x) => is_pass_failure(d, *m, n_frames, freq@, time@, x),
        },
{
    let mut p: Program = m.weights.program();
    let ghost s0 = p@;
    let n: usize = match gpu_tensor::count4(1, 4, N_BINS, n_frames) {
        Some(n) => n,
        None => {
            return Err(gpu_tensor::large());
        },
    };
    let k: usize = 2 * TRAINING_LENGTH;
    let id: usize = p.push(Step::Input { slot: 0, len: n });
    let f: GpuTensor = tensor4(id, n, 1, 4, N_BINS, n_frames);
    let id: usize = p.push(Step::Input { slot: 1, len: k });
    let t: GpuTensor = tensor3(id, k, 1, 2, TRAINING_LENGTH);
    proof {
        gpu_model::lemma_model(s0, p@, m.model);
        assert(1 * 2 * TRAINING_LENGTH == 2 * TRAINING_LENGTH);
    }
    let made: GpuForward<D::T> = forward::htdemucs_forward(d, &mut p, f, t, &m.model)?;
    let ghost ft = made.freq_table@;
    let ghost tt = made.time_table@;
    assert(are_pass_tables(d, *m, n_frames, ft, tt));
    if !check_sources(&m.weights, &p, &made.freq_table, &made.time_table, freq, time) {
        return Err(DemucsError::Internal("a step of the program has no source".to_owned()));
    }
    let job: Job<'_, D::T> = Job {
        weights: &m.weights,
        program: &p,
        freq_table: &made.freq_table,
        time_table: &made.time_table,
        freq,
        time,
        freq_out: made.freq,
        time_out: made.time,
    };
    let ghost asked = job;
    let r = d.run(job);
    proof {
        assert(call_ensures(D::run, (d, asked), r));
        assert(is_run(
            d,
            m.weights@,
            p@,
            ft,
            tt,
            freq@,
            time@,
            made.freq,
            made.time,
            r,
        ));
    }
    r
}

/// Shape of the spectrogram of `n` elements that comes out of the network.
pub open spec fn out_freq_shape(sources: usize, frames: usize, n: int) -> [usize; 4] {
    [
        1,
        (sources * 4) as usize,
        (n / (sources * 4 * frames)) as usize,
        frames,
    ]
}

/// Shape of the waveform of `n` elements that comes out of the network.
pub open spec fn out_time_shape(sources: usize, n: int) -> [usize; 3] {
    [1, (sources * 2) as usize, (n / (sources * 2)) as usize]
}

/// Stems can be made of results of `f` and `t` elements.
pub open spec fn results_fit(sources: usize, frames: usize, f: int, t: int, n: int) -> bool {
    &&& 0 < sources * 4 <= usize::MAX
    &&& 0 < sources * 4 * frames <= usize::MAX
    &&& stems::extract_ok(
        f,
        out_freq_shape(sources, frames, f),
        t,
        out_time_shape(sources, t),
        frames as int,
        n,
    )
}

/// `y` is `x` standardized by its mean and deviation.
pub open spec fn is_standard<A: Arith>(
    a: &A,
    x: Seq<A::T>,
    mean: Seq<A::T>,
    std: Seq<A::T>,
    y: Seq<A::T>,
) -> bool {
    &&& standardize::are_batch_stats(a, x, 1, x.len() as int, mean, std)
    &&& standardize::is_standardized(a, x, 1, x.len() as int, mean, std, y)
}

/// `out` are the stems made of results `fo` and `to` of the network.
pub open spec fn are_stems_of<D: Dsp>(
    d: &D,
    sources: usize,
    frames: usize,
    n: int,
    fo: Seq<D::T>,
    to: Seq<D::T>,
    out: Seq<Stem<D::T>>,
) -> bool {
    let fs = out_freq_shape(sources, frames, fo.len() as int);
    let ts = out_time_shape(sources, to.len() as int);
    &&& out.len() == sources
    &&& forall|k: int|
        0 <= k < out.len() ==> stems::is_stem(
            d,
            fo,
            fs,
            frames as int,
            TRAINING_LENGTH,
            to,
            ts[2] as int,
            n,
            k,
            #[trigger] out[k],
        )
}

/// The results of a pass, brought back to the scale of the inputs: `fo` and `to` are what came
/// back from the device, `fr` and `tr` the same with mean and deviation restored.
pub open spec fn is_restored_pass<D: Device>(
    d: &D,
    m: CudaModel<D::T>,
    freq: Seq<D::T>,
    frames: int,
    time: Seq<D::T>,
    fo: Vec<D::T>,
    to: Vec<D::T>,
    fr: Seq<D::T>,
    tr: Seq<D::T>,
) -> bool {
    exists|
        fm: Seq<D::T>,
        fs: Seq<D::T>,
        fx: Seq<D::T>,
        tm: Seq<D::T>,
        ts: Seq<D::T>,
        tx: Seq<D::T>,
    |
        {
            &&& #[trigger] is_standard(d, freq, fm, fs, fx)
            &&& #[trigger] is_standard(d, time, tm, ts, tx)
            &&& is_pass(d, m, frames as usize, fx, tx, Ok((fo, to)))
            &&& standardize::is_restored(d, fo@, 1, fo@.len() as int, fm, fs, fr)
            &&& standardize::is_restored(d, to@, 1, to@.len() as int, tm, ts, tr)
        }
}

/// `out` are all stems that a model on the device gives.
pub open spec fn are_cuda_stems<D: Device>(
    d: &D,
    m: CudaModel<D::T>,
    freq: Seq<D::T>,
    frames: int,
    time: Seq<D::T>,
    n: int,
    out: Seq<Stem<D::T>>,
) -> bool {
    exists|fo: Vec<D::T>, to: Vec<D::T>, fr: Seq<D::T>, tr: Seq<D::T>|
        {
            &&& #[trigger] is_restored_pass(d, m, freq, frames, time, fo, to, fr, tr)
            &&& results_fit(
                m.model.n_sources,
                frames as usize,
                fr.len() as int,
                tr.len() as int,
                n,
            )
            &&& are_stems_of(d, m.model.n_sources, frames as usize, n, fr, tr, out)
        }
}

/// `x` is why a model on the device gave no stems: the pass failed, its results do not fit, or
/// the signal processing failed on one of the channels.
pub open spec fn is_cuda_failure<D: Device>(
    d: &D,
    m: CudaModel<D::T>,
    freq: Seq<D::T>,
    frames: int,
    time: Seq<D::T>,
    n: int,
    x: DemucsError,
) -> bool {
    ||| exists|
        fm: Seq<D::T>,
        fs: Seq<D::T>,
        fx: Seq<D::T>,
        tm: Seq<D::T>,
        ts: Seq<D::T>,
        tx: Seq<D::T>,
    |
        {
            &&& #[trigger] is_standard(d, freq, fm, fs, fx)
            &&& #[trigger] is_standard(d, time, tm, ts, tx)
            &&& is_pass_failure(d, m, frames as usize, fx, tx, x)
        }
    ||| exists|fo: Vec<D::T>, to: Vec<D::T>, fr: Seq<D::T>, tr: Seq<D::T>|
        {
            &&& #[trigger] is_restored_pass(d, m, freq, frames, time, fo, to, fr, tr)
            &&& !results_fit(
                m.model.n_sources,
                frames as usize,
                fr.len() as int,
                tr.len() as int,
                n,
            )
            &&& x is Shape
            &&& x->Shape_0@ == cpu_engine::misfit_text()
        }
    ||| exists|fo: Vec<D::T>, to: Vec<D::T>, fr: Seq<D::T>, tr: Seq<D::T>|
        {
            &&& #[trigger] is_restored_pass(d, m, freq, frames, time, fo, to, fr, tr)
            &&& results_fit(
                m.model.n_sources,
                frames as usize,
                fr.len() as int,
                tr.len() as int,
                n,
            )
            &&& stems::is_extract_failure(
                d,
                fr,
                out_freq_shape(m.model.n_sources, frames as usize, fr.len() as int),
                frames,
                TRAINING_LENGTH,
                n,
                x,
            )
        }
}

/// Makes stems of the results of the network.
fn stems_of<D: Dsp>(
    d: &D,
    sources: usize,
    n_frames: usize,
    n_samples: usize,
    fo: &Vec<D::T>,
    to: &Vec<D::T>,
) -> (r: Result<Vec<Stem<D::T>>, DemucsError>)
    ensures
        match r {
            Ok(v) => {
                &&& results_fit(
                    sources,
                    n_frames,
                    fo@.len() as int,
                    to@.len() as int,
                    n_samples as int,
                )
                &&& are_stems_of(d, sources, n_frames, n_samples as int, fo@, to@, v@)
                &&& engine::all_of_length(v@, n_samples as int)
            },
            Err(x) => {
                ||| !results_fit(
                    sources,
                    n_frames,
                    fo@.len() as int,
                    to@.len() as int,
                    n_samples as int,
                ) && x is Shape && x->Shape_0@ == cpu_engine::misfit_text()
                ||| results_fit(
                    sources,
                    n_frames,
                    fo@.len() as int,
                    to@.len() as int,
                    n_samples as int,
                ) && stems::is_extract_failure(
                    d,
                    fo@,
                    out_freq_shape(sources, n_frames, fo@.len() as int),
                    n_frames as int,
                    TRAINING_LENGTH,
                    n_samples as int,
                    x,
                )
            },
        },
{
    let c: usize = match sources.checked_mul(4) {
        Some(c) => c,
        None => {
            return Err(DemucsError::Shape("the weights do not fit the network".to_owned()));
        },
    };
    let cn: usize = match c.checked_mul(n_frames) {
        Some(n) => n,
        None => {
            return Err(DemucsError::Shape("the weights do not fit the network".to_owned()));
        },
    };
    if c == 0 || cn == 0 {
        return Err(DemucsError::Shape("the weights do not fit the network".to_owned()));
    }
    let fs: [usize; 4] = [1, c, fo.len() / cn, n_frames];
    let ts: [usize; 3] = [1, sources * 2, to.len() / (sources * 2)];
    assert(fs =~= out_freq_shape(sources, n_frames, fo@.len() as int));
    assert(ts =~= out_time_shape(sources, to@.len() as int));
    if !cpu_engine::check_extract(fo.len(), fs, to.len(), ts, n_frames, n_samples) {
        return Err(DemucsError::Shape("the weights do not fit the network".to_owned()));
    }
    stems::extract_stems(d, fo, fs, to, ts, n_frames, TRAINING_LENGTH, n_samples)
}

impl<D: Device> Network<D> for CudaModel<D::T> {
    open spec fn gives(
        &self,
        d: &D,
        freq: Seq<D::T>,
        frames: int,
        time: Seq<D::T>,
        n: int,
        out: Seq<Stem<D::T>>,
    ) -> bool {
        are_cuda_stems(d, *self, freq, frames, time, n, out)
    }

    open spec fn fails(
        &self,
        d: &D,
        freq: Seq<D::T>,
        frames: int,
        time: Seq<D::T>,
        n: int,
        x: DemucsError,
    ) -> bool {
        is_cuda_failure(d, *self, freq, frames, time, n, x)
    }

    fn run(&self, d: &D, freq: &[D::T], n_frames: usize, time: &[D::T], n_samples: usize) -> (r: Result<
        Vec<Stem<D::T>>,
        DemucsError,
    >) {
        let len: usize = freq.len();
        let fs: [usize; 4] = [1, 4, N_BINS, n_frames];
        let ts: [usize; 3] = [1, 2, TRAINING_LENGTH];
        let (fx, _, fm, _, fstd, _) = standardize::normalize_freq(d, freq, fs);
        let (tx, _, tm, _, tstd, _) = standardize::normalize_time(d, time, ts);
        assert(is_standard(d, freq@, fm@, fstd@, fx@));
        assert(is_standard(d, time@, tm@, tstd@, tx@));
        let (fo, to) = match gpu_chunk(d, self, &fx, &tx, n_frames) {
            Ok(v) => v,
            Err(x) => {
                return Err(x);
            },
        };
        let ghost (fo0, to0) = (fo, to);
        let mut fr: Vec<D::T> = fo;
        let mut tr: Vec<D::T> = to;
        standardize::denormalize_freq(d, &mut fr, [1, 4, N_BINS, n_frames], &fm, &fstd);
        standardize::denormalize_time(d, &mut tr, [1, 2, TRAINING_LENGTH], &tm, &tstd);
        assert(is_restored_pass(
            d,
            *self,
            freq@,
            n_frames as int,
            time@,
            fo0,
            to0,
            fr@,
            tr@,
        ));
        stems_of(d, self.model.n_sources, n_frames, n_samples, &fr, &tr)
    }
}

/// The error in loading the model with the signature `sig` before it goes to the device.
pub open spec fn signature_error(
    m: loading::Weights,
    sig: Seq<char>,
    width: usize,
) -> Option<Seq<char>> {
    if !weights::has_signature(m, sig) {
        Some("signature "@ + sig + " not found in weight store"@)
    } else {
        match loading::htdemucs_error(m, sig, width) {
            Some(t) => Some("HTDemucs::from_store("@ + sig + "): "@ + t),
            None => None,
        }
    }
}

/// `g` is the model with the signature `sig`, on the device.
pub open spec fn is_cuda_model<A: Arith>(
    a: &A,
    m: loading::Weights,
    sig: Seq<char>,
    n_sources: usize,
    width: usize,
    g: CudaModel<A::T>,
) -> bool {
    exists|l: HTDemucs<A::T>|
        {
            &&& #[trigger] loading::is_htdemucs(a, m, sig, n_sources, width, l)
            &&& gpu_loading::model_error(l) is None
            &&& g.weights@ == gpu_loading::model_arrays(l)
            &&& gpu_loading::is_model_at(g.model, l, 0)
        }
}

/// `x` is why the model with the signature `sig` could not be loaded.
pub open spec fn is_model_load_failure<A: Arith>(
    a: &A,
    m: loading::Weights,
    sig: Seq<char>,
    n_sources: usize,
    width: usize,
    x: DemucsError,
) -> bool {
    match signature_error(m, sig, width) {
        Some(t) => x is Weight && x->Weight_0@ == t,
        None => exists|l: HTDemucs<A::T>|
            {
                &&& #[trigger] loading::is_htdemucs(a, m, sig, n_sources, width, l)
                &&& x is Shape
                &&& gpu_loading::model_error(l) == Some(x->Shape_0@)
            },
    }
}

/// Loads the model with the signature `sig` for the device.
fn load_model<A: Arith>(
    a: &A,
    store: &WeightStore,
    sig: &str,
    n_sources: usize,
    width: usize,
) -> (r: Result<CudaModel<A::T>, DemucsError>)
    requires
        4 * n_sources <= usize::MAX,
    ensures
        match r {
            Ok(g) => {
                &&& signature_error(store@, sig@, width) is None
                &&& is_cuda_model(a, store@, sig@, n_sources, width, g)
                &&& g.usable()
            },
            Err(x) => is_model_load_failure(a, store@, sig@, n_sources, width, x),
        },
{
    if store.signature(sig).is_none() {
        let msg: String = text::join3("signature ", sig, " not found in weight store");
        return Err(DemucsError::Weight(msg));
    }
    let cpu: HTDemucs<A::T> = match HTDemucs::from_store(a, store, sig, n_sources, width) {
        Ok(m) => m,
        Err(e) => {
            let msg: String = text::join3("HTDemucs::from_store(", sig, "): ");
            let why: String = e.into_detail();
            return Err(DemucsError::Weight(text::more(msg, why.as_str())));
        },
    };
    let mut up: Uploads<A::T> = Uploads::new();
    match GpuHTDemucs::from_cpu(&mut up, &cpu) {
        Ok(model) => {
            let n: usize = up.arrays.len();
            proof {
                assert(up@ =~= gpu_loading::model_arrays(cpu));
                gpu_loading::model_handles_good(model, cpu, up@);
            }
            Ok(CudaModel { weights: up, model })
        },
        Err(x) => Err(x),
    }
}

/// `models` and `ids` are what is loaded for the signatures at `picked`.
pub open spec fn are_models<A: Arith>(
    a: &A,
    m: loading::Weights,
    info: &ModelInfo,
    picked: Seq<int>,
    n_sources: usize,
    width: usize,
    models: Seq<LoadedModel<CudaModel<A::T>>>,
    ids: Seq<StemId>,
) -> bool {
    &&& models.len() == picked.len()
    &&& ids.len() == picked.len()
    &&& forall|k: int|
        #![trigger models[k]]
        0 <= k < models.len() ==> {
            let sig = info.signatures@[picked[k]]@;
            &&& models[k].sig@ == sig
            &&& signature_error(m, sig, width) is None
            &&& is_cuda_model(a, m, sig, n_sources, width, models[k].model)
            &&& models[k].model.usable()
        }
    &&& forall|k: int| #![trigger ids[k]] 0 <= k < ids.len() ==> ids[k] == info.stems@[picked[k]]
}

/// `r` is the outcome of loading the models that are needed for the stems that were asked for:
/// it fails with the first model that fails.
pub open spec fn is_loaded<A: Arith>(
    a: &A,
    m: loading::Weights,
    info: ModelInfo,
    opts: &LoadOptions,
    r: Result<CudaEngine<A::T>, DemucsError>,
) -> bool {
    let selected = engine::selection(&info, opts);
    let picked = engine::all_chosen(&info, selected);
    let width = engine::transformer_width(info.stems@.len() as int);
    let n = info.stems@.len() as usize;
    match r {
        Ok(e) => {
            &&& engine::engine_ok(&e)
            &&& e.info == info
            &&& e.selected_stems@ == selected
            &&& e.n_sources == info.stems@.len()
            &&& e.bottom_channels == width
            &&& are_models(a, m, &info, picked, n, width, e.models@, e.model_stems@)
        },
        Err(x) => exists|k: int|
            {
                &&& 0 <= k < picked.len()
                &&& forall|j: int|
                    0 <= j < k ==> signature_error(
                        m,
                        info.signatures@[#[trigger] picked[j]]@,
                        width,
                    ) is None
                &&& is_model_load_failure(
                    a,
                    m,
                    info.signatures@[#[trigger] picked[k]]@,
                    n,
                    width,
                    x,
                )
            },
    }
}

impl<T: Copy> Engine<CudaModel<T>> {
    /// Loads the models that are needed for the stems that were asked for.
    pub fn load<A: Arith<T = T>>(a: &A, store: &WeightStore, info: ModelInfo, opts: &LoadOptions) -> (r: Result<
        Engine<CudaModel<T>>,
        DemucsError,
    >)
        requires
            metadata::info_ok(&info),
        ensures
            is_loaded(a, store@, info, opts, r),
            r is Ok ==> catalogue_laws::is_outfit(&r->Ok_0, opts),
    {
        let (selected_stems, wanted) = engine::choose_models(&info, opts);
        let n_sources: usize = info.stems.len();
        let bottom_channels: usize = if n_sources == 6 {
            384
        } else {
            512
        };
        let ghost picked = engine::all_chosen(&info, selected_stems@);
        let count: usize = wanted.len();
        let mut models: Vec<LoadedModel<CudaModel<T>>> = Vec::new();
        let mut model_stems: Vec<StemId> = Vec::new();
        let mut k: usize = 0;
        while k < count
            invariant
                k <= count,
                count == wanted@.len(),
                count == picked.len(),
                picked == engine::all_chosen(&info, selected_stems@),
                selected_stems@ == engine::selection(&info, opts),
                forall|j: int| 0 <= j < count ==> #[trigger] wanted@[j] == picked[j],
                metadata::info_ok(&info),
                n_sources == info.stems@.len(),
                bottom_channels == engine::transformer_width(info.stems@.len() as int),
                models@.len() == k,
                model_stems@.len() == k,
                forall|j: int|
                    #![trigger models@[j]]
                    0 <= j < k ==> {
                        let sig = info.signatures@[picked[j]]@;
                        &&& models@[j].sig@ == sig
                        &&& signature_error(store@, sig, bottom_channels) is None
                        &&& is_cuda_model(
                            a,
                            store@,
                            sig,
                            n_sources,
                            bottom_channels,
                            models@[j].model,
                        )
                        &&& models@[j].model.usable()
                    },
                forall|j: int|
                    #![trigger model_stems@[j]]
                    0 <= j < k ==> model_stems@[j] == info.stems@[picked[j]],
            decreases count - k,
        {
            proof {
                engine::chosen_in_range(
                    &info,
                    selected_stems@,
                    info.signatures@.len() as int,
                    k as int,
                );
            }
            let at: usize = wanted[k];
            assert(at == picked[k as int]);
            let sig: &str = info.signatures[at];
            match load_model(a, store, sig, n_sources, bottom_channels) {
                Ok(model) => {
                    models.push(LoadedModel { sig: sig.to_owned(), model });
                },
                Err(x) => {
                    proof {
                        assert forall|j: int| 0 <= j < k implies signature_error(
                            store@,
                            info.signatures@[#[trigger] picked[j]]@,
                            bottom_channels,
                        ) is None by {
                            let m = models@[j];
                        }
                    }
                    return Err(x);
                },
            }
            model_stems.push(info.stems[at]);
            k = k + 1;
        }
        proof {
            assert forall|j: int| 0 <= j < models@.len() implies (
            #[trigger] models@[j]).model.usable() by {}
            assert(are_models(
                a,
                store@,
                &info,
                picked,
                n_sources,
                bottom_channels,
                models@,
                model_stems@,
            ));
        }
        let e: CudaEngine<T> = Engine {
            info,
            models,
            model_stems,
            selected_stems,
            n_sources,
            bottom_channels,
        };
        proof {
            assert(is_loaded(a, store@, info, opts, Ok(e)));
            catalogue_laws::loaded_for_the_device_is_paired(a, store@, info, opts, e);
        }
        Ok(e)
    }
}

} // verus!
