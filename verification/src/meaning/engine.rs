//! The engine on the device and the engine on the processor.
use vstd::prelude::*;
use crate::HOP_LENGTH;
use crate::LoadOptions;
use crate::N_FFT;
use crate::SAMPLE_RATE;
use crate::Stem;
use crate::TRAINING_LENGTH;
use crate::arith;
use crate::arith::Arith;
use crate::chunk;
use crate::cpu_engine::CpuEngine;
use crate::cpu_engine::N_BINS;
use crate::cpu_engine;
use crate::cuda_engine::CudaEngine;
use crate::cuda_engine::CudaModel;
use crate::cuda_engine::Device;
use crate::cuda_engine::Job;
use crate::cuda_engine;
use crate::dsp::Complex;
use crate::dsp::Dsp;
use crate::dsp::cac;
use crate::dsp;
use crate::engine::Network;
use crate::engine;
use crate::error::DemucsError;
use crate::gpu_loading;
use crate::index;
use crate::meaning::forward as network;
use crate::meaning::growth;
use crate::meaning::uploads;
use crate::loading;
use crate::meaning;
use crate::metadata::ModelInfo;
use crate::model::HTDemucs;
use crate::ops_cpu::forward;
use crate::ops_cpu::standardize;
use crate::program::Step;
use crate::program;

verus! {

/// A device that runs programs as they are meant: what it gives back are values of the program,
/// which starts from what it was handed.
pub open spec fn faithful<D: Device>(d: &D) -> bool {
    forall|job: Job<'_, D::T>, fo: Vec<D::T>, to: Vec<D::T>|
        #[trigger] call_ensures(
            D::run,
            (d, job),
            Ok::<(Vec<D::T>, Vec<D::T>), DemucsError>((fo, to)),
        )
            ==> exists|v: Seq<Seq<D::T>>|
            {
                &&& #[trigger] meaning::is_trace(d, job.program@, v)
                &&& network::supplied(
                    job.program@,
                    v,
                    job.weights@,
                    job.freq_table@,
                    job.time_table@,
                    job.freq@,
                    job.time@,
                )
                &&& fo@ == meaning::at(v, job.freq_out)
                &&& to@ == meaning::at(v, job.time_out)
            }
}

/// What comes out of the network has the channels of all sources.
pub open spec fn gives_all_sources<T>(frames: usize, m: HTDemucs<T>) -> bool {
    let fs = forward::forward_freq_shape(cpu_engine::freq_shape(frames as int), &m);
    let ts = forward::forward_time_shape(cpu_engine::time_shape(), &m);
    &&& fs[1] == m.n_sources * 4
    &&& fs[3] == frames
    &&& ts[1] == m.n_sources * 2
}

/// The program of a model that runs on a faithful device, on standardized inputs, does what the
/// network does on the processor.
#[verifier::spinoff_prover]
proof fn lemma_pass<D: Device>(
    d: &D,
    g: CudaModel<D::T>,
    l: HTDemucs<D::T>,
    frames: usize,
    freq: Seq<D::T>,
    time: Seq<D::T>,
    fo: Vec<D::T>,
    to: Vec<D::T>,
)
    requires
        meaning::unrounded(d),
        meaning::has_zero(d),
        faithful(d),
        g.weights@ == gpu_loading::model_arrays(l),
        g.weights@.len() <= usize::MAX,
        gpu_loading::model_error(l) is None,
        gpu_loading::is_model_at(g.model, l, 0),
        frames > 0,
        network::model_fits(cpu_engine::freq_shape(frames as int), cpu_engine::time_shape(), l),
        cuda_engine::is_pass(d, g, frames, freq, time, Ok((fo, to))),
    ensures
        network::is_core(
            d,
            freq,
            cpu_engine::freq_shape(frames as int),
            time,
            cpu_engine::time_shape(),
            &l,
            fo@,
            to@,
        ),
        fo@.len() == index::size4(
            forward::forward_freq_shape(cpu_engine::freq_shape(frames as int), &l),
        ),
        to@.len() == index::size3(forward::forward_time_shape(cpu_engine::time_shape(), &l)),
{
    let (whole, (ft, tt)) = cuda_engine::pass_steps(g, frames)->Ok_0;
    let (s, (f, t)) = cuda_engine::input_steps(g, frames)->Ok_0;
    let r: Result<(Vec<D::T>, Vec<D::T>), DemucsError> = Ok((fo, to));
    let (ftab, ttab) = choose|x: Seq<D::T>, y: Seq<D::T>|
        {
            &&& #[trigger] cuda_engine::are_pass_tables(d, g, frames, x, y)
            &&& #[trigger] cuda_engine::is_run(d, g.weights@, whole, x, y, freq, time, ft, tt, r)
        };
    let job = choose|job: Job<'_, D::T>|
        {
            &&& job.weights@ == g.weights@
            &&& job.program@ == whole
            &&& job.freq_table@ == ftab
            &&& job.time_table@ == ttab
            &&& job.freq@ == freq
            &&& job.time@ == time
            &&& job.freq_out == ft
            &&& job.time_out == tt
            &&& #[trigger] call_ensures(D::run, (d, job), r)
        };
    let v = choose|v: Seq<Seq<D::T>>|
        {
            &&& #[trigger] meaning::is_trace(d, job.program@, v)
            &&& network::supplied(
                job.program@,
                v,
                job.weights@,
                job.freq_table@,
                job.time_table@,
                job.freq@,
                job.time@,
            )
            &&& fo@ == meaning::at(v, job.freq_out)
            &&& to@ == meaning::at(v, job.time_out)
        };
    let u = g.weights@;
    growth::forward_grows(s, f, t, g.model);
    lemma_inputs(d, g, frames, whole, v, ftab, ttab, freq, time);
    uploads::model_held(g.model, l, v, u);
    assert(program::extends(whole, whole));
    network::forward_means(d, whole, v, s, f, t, g.model, l, u, ftab, ttab, freq, time);
    let e = meaning::axes4(ft);
    let h = meaning::axes3(tt);
    assert(index::size4(e) == fo@.len());
    assert(index::size3(h) == to@.len());
}

/// The inputs and the weights are the first values of a program.
proof fn lemma_inputs<D: Device>(
    d: &D,
    g: CudaModel<D::T>,
    frames: usize,
    whole: Seq<Step>,
    v: Seq<Seq<D::T>>,
    ftab: Seq<D::T>,
    ttab: Seq<D::T>,
    freq: Seq<D::T>,
    time: Seq<D::T>,
)
    requires
        cuda_engine::input_steps(g, frames) is Ok,
        program::extends(cuda_engine::input_steps(g, frames)->Ok_0.0, whole),
        g.weights@.len() <= usize::MAX,
        frames > 0,
        meaning::is_trace(d, whole, v),
        network::supplied(whole, v, g.weights@, ftab, ttab, freq, time),
    ensures
        uploads::agrees(v, g.weights@),
        ({
            let (f, t) = cuda_engine::input_steps(g, frames)->Ok_0.1;
            &&& meaning::holds(v, f)
            &&& meaning::holds(v, t)
            &&& f.rank == 4
            &&& t.rank == 3
            &&& meaning::axes4(f) == cpu_engine::freq_shape(frames as int)
            &&& meaning::axes3(t) == cpu_engine::time_shape()
            &&& meaning::at(v, f) == freq
            &&& meaning::at(v, t) == time
        }),
{
    let (s, (f, t)) = cuda_engine::input_steps(g, frames)->Ok_0;
    let u = g.weights@;
    let up = gpu_loading::upload_steps(u);
    let k: usize = (2 * TRAINING_LENGTH) as usize;
    let first = Step::Input { slot: 0, len: f.data.len };
    let second = Step::Input { slot: 1, len: k };
    let s1 = up.push(first);
    assert(s == s1.push(second));
    meaning::lemma_step(d, whole, v, s1, second);
    meaning::lemma_step(d, whole, v, up, first);
    reveal(network::supplied);
    assert(whole[up.len() as int] == s[up.len() as int]);
    assert(whole[s1.len() as int] == s[s1.len() as int]);
    assert(1 * 4 * N_BINS * frames > 0) by (nonlinear_arith)
        requires
            frames > 0,
            N_BINS > 0,
    ;
    assert forall|i: int| 0 <= i < u.len() implies #[trigger] v[i] == u[i] by {
        assert(whole[i] == s[i]);
        assert(s[i] == up[i]);
    }
}

/// The device gives what the processor gives: where the numbers are not rounded, the device runs
/// programs as they are meant, and the parts of the model fit each other, the stems that come
/// out of a chunk on the device are stems that the network on the processor gives.
#[verifier::spinoff_prover]
pub proof fn device_gives_what_processor_gives<D: Device>(
    d: &D,
    g: CudaModel<D::T>,
    l: HTDemucs<D::T>,
    freq: Seq<D::T>,
    frames: usize,
    time: Seq<D::T>,
    n: int,
    out: Seq<Stem<D::T>>,
)
    requires
        meaning::unrounded(d),
        meaning::has_zero(d),
        faithful(d),
        g.weights@ == gpu_loading::model_arrays(l),
        g.weights@.len() <= usize::MAX,
        gpu_loading::model_error(l) is None,
        gpu_loading::is_model_at(g.model, l, 0),
        network::model_fits(cpu_engine::freq_shape(frames as int), cpu_engine::time_shape(), l),
        gives_all_sources(frames, l),
        frames > 0,
        freq.len() == 4 * N_BINS * frames,
        time.len() == 2 * TRAINING_LENGTH,
        Network::<D>::gives(&g, d, freq, frames as int, time, n, out),
    ensures
        Network::<D>::gives(&l, d, freq, frames as int, time, n, out),
{
    let fs = cpu_engine::freq_shape(frames as int);
    let ts = cpu_engine::time_shape();
    let (fo, to, fr, tr) = choose|fo: Vec<D::T>, to: Vec<D::T>, fr: Seq<D::T>, tr: Seq<D::T>|
        {
            &&& #[trigger] cuda_engine::is_restored_pass(
                d,
                g,
                freq,
                frames as int,
                time,
                fo,
                to,
                fr,
                tr,
            )
            &&& cuda_engine::results_fit(
                g.model.n_sources,
                frames,
                fr.len() as int,
                tr.len() as int,
                n,
            )
            &&& cuda_engine::are_stems_of(d, g.model.n_sources, frames, n, fr, tr, out)
        };
    let (fm, fd, fx, tm, td, tx) = choose|
        fm: Seq<D::T>,
        fd: Seq<D::T>,
        fx: Seq<D::T>,
        tm: Seq<D::T>,
        td: Seq<D::T>,
        tx: Seq<D::T>,
    |
        {
            &&& #[trigger] cuda_engine::is_standard(d, freq, fm, fd, fx)
            &&& #[trigger] cuda_engine::is_standard(d, time, tm, td, tx)
            &&& cuda_engine::is_pass(d, g, frames, fx, tx, Ok((fo, to)))
            &&& standardize::is_restored(d, fo@, 1, fo@.len() as int, fm, fd, fr)
            &&& standardize::is_restored(d, to@, 1, to@.len() as int, tm, td, tr)
        };
    lemma_pass(d, g, l, frames, fx, tx, fo, to);
    let of = forward::forward_freq_shape(fs, &l);
    let ot = forward::forward_time_shape(ts, &l);
    assert(g.model.n_sources == l.n_sources) by {
        reveal(gpu_loading::is_model_at);
    }
    assert(forward::forward_ok(4 * N_BINS * frames, fs, 2 * TRAINING_LENGTH, ts, &l) && of[0] == 1
        && ot[0] == 1) by {
        reveal(network::model_fits);
        reveal(forward::forward_ok);
        assert(index::size4(fs) == 4 * N_BINS * frames);
        assert(index::size3(ts) == 2 * TRAINING_LENGTH);
    }
    assert(fr.len() == fo@.len() && tr.len() == to@.len()) by {
        reveal(standardize::is_restored);
    }
    lemma_forward_of_core(d, freq, fs, time, ts, l, fm, fd, fx, tm, td, tx, fo@, to@, fr, tr);
    lemma_out_shapes(l.n_sources, frames, of, ot, fr.len() as int, tr.len() as int);
}

/// The shapes of what comes out, told from how much it is.
proof fn lemma_out_shapes(
    sources: usize,
    frames: usize,
    of: [usize; 4],
    ot: [usize; 3],
    f: int,
    t: int,
)
    requires
        of[0] == 1,
        of[1] == sources * 4,
        of[3] == frames,
        ot[0] == 1,
        ot[1] == sources * 2,
        f == index::size4(of),
        t == index::size3(ot),
        0 < sources * 4,
        0 < sources * 4 * frames,
    ensures
        cuda_engine::out_freq_shape(sources, frames, f) == of,
        cuda_engine::out_time_shape(sources, t) == ot,
{
    assert(f == of[2] * (sources * 4 * frames)) by (nonlinear_arith)
        requires
            f == 1 * (sources * 4) * of[2] * frames,
    ;
    vstd::arithmetic::div_mod::lemma_div_by_multiple(of[2] as int, sources * 4 * frames);
    assert(t == ot[2] * (sources * 2)) by (nonlinear_arith)
        requires
            t == 1 * (sources * 2) * ot[2],
    ;
    vstd::arithmetic::div_mod::lemma_div_by_multiple(ot[2] as int, sources * 2);
    assert(cuda_engine::out_freq_shape(sources, frames, f) =~= of);
    assert(cuda_engine::out_time_shape(sources, t) =~= ot);
}

/// The network between the standardization of its inputs and the restoring of its outputs.
proof fn lemma_forward_of_core<D: Dsp>(
    d: &D,
    freq: Seq<D::T>,
    fs: [usize; 4],
    time: Seq<D::T>,
    ts: [usize; 3],
    l: HTDemucs<D::T>,
    fm: Seq<D::T>,
    fd: Seq<D::T>,
    fx: Seq<D::T>,
    tm: Seq<D::T>,
    td: Seq<D::T>,
    tx: Seq<D::T>,
    fo: Seq<D::T>,
    to: Seq<D::T>,
    fr: Seq<D::T>,
    tr: Seq<D::T>,
)
    requires
        fs[0] == 1,
        ts[0] == 1,
        standardize::per_batch4(fs) == freq.len(),
        standardize::per_batch3(ts) == time.len(),
        cuda_engine::is_standard(d, freq, fm, fd, fx),
        cuda_engine::is_standard(d, time, tm, td, tx),
        network::is_core(d, fx, fs, tx, ts, &l, fo, to),
        forward::forward_freq_shape(fs, &l)[0] == 1,
        forward::forward_time_shape(ts, &l)[0] == 1,
        standardize::is_restored(d, fo, 1, fo.len() as int, fm, fd, fr),
        standardize::is_restored(d, to, 1, to.len() as int, tm, td, tr),
    ensures
        forward::is_forward(d, freq, fs, time, ts, &l, fr, tr),
{
    reveal(network::is_core);
    reveal(forward::is_forward);
}

/// `g` is the model `l`, brought to the device.
pub open spec fn is_upload_of<T>(g: CudaModel<T>, l: HTDemucs<T>) -> bool {
    &&& g.weights@ == gpu_loading::model_arrays(l)
    &&& g.weights@.len() <= usize::MAX
    &&& gpu_loading::model_error(l) is None
    &&& gpu_loading::is_model_at(g.model, l, 0)
}

/// The two engines have the same models, for the same stems.
pub open spec fn same_engine<T>(e: &CudaEngine<T>, c: &CpuEngine<T>) -> bool {
    &&& e.info == c.info
    &&& e.selected_stems@ == c.selected_stems@
    &&& e.model_stems@ == c.model_stems@
    &&& e.models@.len() == c.models@.len()
    &&& forall|i: int|
        #![trigger c.models@[i]]
        0 <= i < c.models@.len() ==> is_upload_of(e.models@[i].model, c.models@[i].model)
}

/// The spectrogram of a segment has `frames` frames.
pub open spec fn segments_have_frames<D: Dsp>(d: &D, frames: usize) -> bool {
    forall|x: Seq<D::T>, ls: Vec<Complex<D::T>>|
        x.len() == TRAINING_LENGTH && #[trigger] dsp::is_stft(d, N_FFT, HOP_LENGTH, x, Ok(ls))
            ==> ls@.len() == N_BINS * frames
}

/// All models of an engine fit spectrograms of `frames` frames, and give all sources.
pub open spec fn models_fit<T>(c: &CpuEngine<T>, frames: usize) -> bool {
    forall|i: int|
        #![trigger c.models@[i]]
        0 <= i < c.models@.len() ==> {
            let m = c.models@[i].model;
            &&& network::model_fits(
                cpu_engine::freq_shape(frames as int),
                cpu_engine::time_shape(),
                m,
            )
            &&& gives_all_sources(frames, m)
        }
}

/// What one engine separates of a segment, the other does.
proof fn lemma_segment<D: Device>(
    d: &D,
    e: &CudaEngine<D::T>,
    c: &CpuEngine<D::T>,
    frames: usize,
    left: Seq<D::T>,
    right: Seq<D::T>,
    out: Seq<Stem<D::T>>,
)
    requires
        meaning::unrounded(d),
        faithful(d),
        same_engine(e, c),
        models_fit(c, frames),
        segments_have_frames(d, frames),
        frames > 0,
        left.len() <= TRAINING_LENGTH,
        engine::is_segment(d, e, left, right, out),
    ensures
        engine::is_segment(d, c, left, right, out),
{
    let (z, ls, rs, zt) = choose|z: D::T, ls: Vec<Complex<D::T>>, rs: Vec<Complex<D::T>>, zt: D::T|
        {
            let frames = ls@.len() as int / N_BINS as int;
            &&& #[trigger] arith::is_zero(d, z)
            &&& #[trigger] arith::is_zero(d, zt)
            &&& #[trigger] dsp::is_stft(
                d,
                N_FFT,
                HOP_LENGTH,
                engine::padded_segment(left, z),
                Ok(ls),
            )
            &&& #[trigger] dsp::is_stft(
                d,
                N_FFT,
                HOP_LENGTH,
                engine::padded_segment(right, z),
                Ok(rs),
            )
            &&& ls@.len() == rs@.len()
            &&& engine::are_engine_stems(
                d,
                e,
                cpu_engine::freq_tensor(
                    cac::cac_of(ls@, N_BINS as int),
                    cac::cac_of(rs@, N_BINS as int),
                    N_BINS as int,
                    frames,
                ),
                frames,
                cpu_engine::time_tensor(
                    engine::padded_segment(left, z),
                    engine::padded_segment(right, z),
                    TRAINING_LENGTH as int,
                    zt,
                ),
                left.len() as int,
                out,
            )
        };
    assert(engine::padded_segment(left, z).len() == TRAINING_LENGTH);
    assert(ls@.len() == N_BINS * frames);
    assert(ls@.len() as int / N_BINS as int == frames) by {
        vstd::arithmetic::div_mod::lemma_div_multiples_vanish(frames as int, N_BINS as int);
    }
    let freq = cpu_engine::freq_tensor(
        cac::cac_of(ls@, N_BINS as int),
        cac::cac_of(rs@, N_BINS as int),
        N_BINS as int,
        frames as int,
    );
    let time = cpu_engine::time_tensor(
        engine::padded_segment(left, z),
        engine::padded_segment(right, z),
        TRAINING_LENGTH as int,
        zt,
    );
    assert(meaning::has_zero(d));
    assert(rs@.len() == N_BINS * frames);
    assert(cac::cac_of(ls@, N_BINS as int).len() == 2 * N_BINS * frames);
    assert(cac::cac_of(rs@, N_BINS as int).len() == 2 * N_BINS * frames);
    assert(freq.len() == 4 * N_BINS * frames) by {
        assert(2 * N_BINS * frames + 2 * N_BINS * frames == 4 * N_BINS * frames)
            by (nonlinear_arith);
        assert(0 <= 2 * N_BINS * frames) by (nonlinear_arith);
    }
    let n = left.len() as int;
    assert forall|i: int, v: Seq<Stem<D::T>>|
        0 <= i < c.models@.len() && #[trigger] Network::<D>::gives(
            &e.models@[i].model,
            d,
            freq,
            frames as int,
            time,
            n,
            v,
        ) implies Network::<D>::gives(
        &c.models@[i].model,
        d,
        freq,
        frames as int,
        time,
        n,
        v,
    ) by {
        device_gives_what_processor_gives(
            d,
            e.models@[i].model,
            c.models@[i].model,
            freq,
            frames,
            time,
            n,
            v,
        );
    }
    assert(engine::are_engine_stems(d, c, freq, frames as int, time, n, out)) by {
        if e.models@.len() != 1 {
            let alls = choose|alls: Seq<Seq<Stem<D::T>>>| #[trigger]
                engine::are_all_model_stems(d, e, freq, frames as int, time, n, alls) && alls.len()
                    == e.models@.len() && out == engine::picks(
                    alls,
                    e.model_stems@,
                    alls.len() as int,
                );
            assert forall|i: int| 0 <= i < alls.len() implies Network::<D>::gives(
                &c.models@[i].model,
                d,
                freq,
                frames as int,
                time,
                n,
                #[trigger] alls[i],
            ) by {
                assert(Network::<D>::gives(
                    &e.models@[i].model,
                    d,
                    freq,
                    frames as int,
                    time,
                    n,
                    alls[i],
                ));
            }
            assert(engine::are_all_model_stems(d, c, freq, frames as int, time, n, alls));
        }
    }
}

/// What one engine separates at its own sample rate, the other does.
proof fn lemma_native<D: Device>(
    d: &D,
    e: &CudaEngine<D::T>,
    c: &CpuEngine<D::T>,
    frames: usize,
    left: Seq<D::T>,
    right: Seq<D::T>,
    out: Seq<Stem<D::T>>,
)
    requires
        meaning::unrounded(d),
        faithful(d),
        same_engine(e, c),
        models_fit(c, frames),
        segments_have_frames(d, frames),
        frames > 0,
        engine::is_native(d, e, left, right, out),
    ensures
        engine::is_native(d, c, left, right, out),
{
    if left.len() <= TRAINING_LENGTH {
        lemma_segment(d, e, c, frames, left, right, out);
    } else {
        let n = left.len() as int;
        let (chunks, wins, ls, rs, ws) = choose|
            chunks: Seq<Seq<Stem<D::T>>>,
            wins: Seq<Seq<D::T>>,
            ls: Seq<Seq<Seq<D::T>>>,
            rs: Seq<Seq<Seq<D::T>>>,
            ws: Seq<Seq<D::T>>,
        |
            {
                &&& #[trigger] engine::is_history(d, e, left, right, chunks, wins, ls, rs, ws)
                &&& chunks.len() == chunk::chunk_count(n)
                &&& out.len() == e.info.stems@.len()
                &&& forall|s: int|
                    #![trigger out[s]]
                    0 <= s < out.len() ==> {
                        &&& out[s].id == e.info.stems@[s]
                        &&& chunk::is_unweighted(d, ls.last()[s], ws.last(), out[s].left@)
                        &&& chunk::is_unweighted(d, rs.last()[s], ws.last(), out[s].right@)
                    }
            };
        assert forall|i: int|
            #![trigger chunks[i]]
            0 <= i < chunks.len() implies engine::is_history_step(
            d,
            c,
            left,
            right,
            i,
            chunks[i],
            wins[i],
            ls[i],
            rs[i],
            ws[i],
            ls[i + 1],
            rs[i + 1],
            ws[i + 1],
        ) by {
            let l = engine::chunk_of(left, n, i);
            let r = engine::chunk_of(right, n, i);
            assert(engine::is_segment(d, e, l, r, chunks[i]));
            chunk::chunks_inside(n, i);
            lemma_segment(d, e, c, frames, l, r, chunks[i]);
        }
        assert(engine::is_history(d, c, left, right, chunks, wins, ls, rs, ws));
    }
}

/// The engine on the device separates as the engine on the processor does: where the numbers are
/// not rounded, the device runs programs as they are meant, and the models fit, the stems that
/// the first gives are stems that the second gives.
pub proof fn engines_agree<D: Device>(
    d: &D,
    e: &CudaEngine<D::T>,
    c: &CpuEngine<D::T>,
    frames: usize,
    left: Seq<D::T>,
    right: Seq<D::T>,
    rate: u32,
    out: Seq<Stem<D::T>>,
)
    requires
        meaning::unrounded(d),
        faithful(d),
        same_engine(e, c),
        models_fit(c, frames),
        segments_have_frames(d, frames),
        frames > 0,
        engine::is_separated(d, e, left, right, rate, out),
    ensures
        engine::is_separated(d, c, left, right, rate, out),
{
    if rate == SAMPLE_RATE {
        let all = choose|all: Seq<Stem<D::T>>| #[trigger]
            engine::is_native(d, e, left, right, all) && out == engine::kept(
                all,
                e.selected_stems@,
            );
        lemma_native(d, e, c, frames, left, right, all);
    } else {
        let (l, r, all) = choose|l: Vec<D::T>, r: Vec<D::T>, all: Seq<Stem<D::T>>|
            {
                &&& #[trigger] dsp::is_resample(d, left, rate, SAMPLE_RATE as u32, Ok(l))
                &&& #[trigger] dsp::is_resample(d, right, rate, SAMPLE_RATE as u32, Ok(r))
                &&& engine::channels_ok(l@.len() as int, r@.len() as int)
                &&& #[trigger] engine::is_native(d, e, l@, r@, all)
                &&& engine::are_resampled_stems(
                    d,
                    engine::kept(all, e.selected_stems@),
                    rate,
                    out,
                )
            };
        lemma_native(d, e, c, frames, l@, r@, all);
    }
}

/// Engines that were loaded from the same weights with the same options are alike: they have the
/// same models in the same order, for the same stems, and what is on the device is a model that
/// the processor could have read.
pub proof fn loaded_alike<A: Arith>(
    a: &A,
    m: loading::Weights,
    info: ModelInfo,
    opts: &LoadOptions,
    e: CudaEngine<A::T>,
    c: CpuEngine<A::T>,
)
    requires
        cuda_engine::is_loaded(a, m, info, opts, Ok(e)),
        cpu_engine::is_loaded(a, m, info, opts, Ok(c)),
    ensures
        e.info == c.info,
        e.selected_stems@ == c.selected_stems@,
        e.model_stems@ == c.model_stems@,
        e.n_sources == c.n_sources,
        e.bottom_channels == c.bottom_channels,
        e.models@.len() == c.models@.len(),
        forall|k: int|
            #![trigger c.models@[k]]
            0 <= k < c.models@.len() ==> {
                let sig = c.models@[k].sig@;
                let n = c.n_sources;
                let width = c.bottom_channels;
                &&& e.models@[k].sig@ == sig
                &&& loading::is_htdemucs(a, m, sig, n, width, c.models@[k].model)
                &&& exists|l: HTDemucs<A::T>| #[trigger]
                    loading::is_htdemucs(a, m, sig, n, width, l) && is_upload_of(
                        e.models@[k].model,
                        l,
                    )
            },
{
    assert(e.model_stems@ =~= c.model_stems@);
    assert forall|k: int|
        #![trigger c.models@[k]]
        0 <= k < c.models@.len() implies {
        let sig = c.models@[k].sig@;
        let n = c.n_sources;
        let width = c.bottom_channels;
        &&& e.models@[k].sig@ == sig
        &&& loading::is_htdemucs(a, m, sig, n, width, c.models@[k].model)
        &&& exists|l: HTDemucs<A::T>| #[trigger]
            loading::is_htdemucs(a, m, sig, n, width, l) && is_upload_of(e.models@[k].model, l)
    } by {
        let g = e.models@[k].model;
        let sig = e.models@[k].sig@;
        assert(g.weights@.len() == g.weights.arrays.len());
        let l = choose|l: HTDemucs<A::T>|
            {
                &&& #[trigger] loading::is_htdemucs(a, m, sig, c.n_sources, c.bottom_channels, l)
                &&& gpu_loading::model_error(l) is None
                &&& g.weights@ == gpu_loading::model_arrays(l)
                &&& gpu_loading::is_model_at(g.model, l, 0)
            };
        assert(is_upload_of(g, l));
    }
}

} // verus!
