//! Engines that hold the same weights separate alike.
use vstd::prelude::*;
use crate::arith::Arith;
use crate::backend::Backend;
use crate::chunk;
use crate::cpu_engine;
use crate::cpu_engine::CpuEngine;
use crate::cpu_engine::N_BINS;
use crate::cuda_engine;
use crate::cuda_engine::CudaEngine;
use crate::cuda_engine::CudaModel;
use crate::cuda_engine::Device;
use crate::cuda_ops::forward as cuda_forward;
use crate::dsp::Dsp;
use crate::engine;
use crate::engine::Engine;
use crate::engine::Network;
use crate::error::DemucsError;
use crate::gpu_loading;
use crate::gpu_tensor::GpuTensor;
use crate::loading_laws;
use crate::model::HTDemucs;
use crate::ops_cpu::forward;
use crate::program::Step;
use crate::same_programs;
use crate::same_results;
use crate::same_weights;
use crate::Demucs;
use crate::DemucsInner;
use crate::LoadOptions;
use crate::Stem;
use crate::TRAINING_LENGTH;

verus! {

/// What the network `x` gives, the network `y` gives, and as the one fails, so does the other.
pub open spec fn computes_as<D: Dsp, M: Network<D>>(d: &D, x: &M, y: &M) -> bool {
    &&& forall|freq: Seq<D::T>, frames: int, time: Seq<D::T>, n: int, out: Seq<Stem<D::T>>|
        #[trigger] x.gives(d, freq, frames, time, n, out) ==> y.gives(
            d,
            freq,
            frames,
            time,
            n,
            out,
        )
    &&& forall|freq: Seq<D::T>, frames: int, time: Seq<D::T>, n: int, e: DemucsError| #[trigger]
        x.fails(d, freq, frames, time, n, e) ==> y.fails(d, freq, frames, time, n, e)
}

/// Two engines are for the same stems, and the models of the one compute as those of the other.
pub open spec fn computes_alike<D: Dsp, M: Network<D>>(
    d: &D,
    x: &Engine<M>,
    y: &Engine<M>,
) -> bool {
    &&& x.info.stems@ == y.info.stems@
    &&& x.model_stems@ == y.model_stems@
    &&& x.selected_stems@ == y.selected_stems@
    &&& x.models@.len() == y.models@.len()
    &&& forall|i: int|
        0 <= i < x.models@.len() ==> computes_as(
            d,
            &(#[trigger] x.models@[i]).model,
            &y.models@[i].model,
        )
}

/// The stems that the models give.
proof fn lemma_engine_stems<D: Dsp, M: Network<D>>(
    d: &D,
    x: &Engine<M>,
    y: &Engine<M>,
    freq: Seq<D::T>,
    frames: int,
    time: Seq<D::T>,
    n: int,
    out: Seq<Stem<D::T>>,
)
    requires
        computes_alike(d, x, y),
        engine::are_engine_stems(d, x, freq, frames, time, n, out),
    ensures
        engine::are_engine_stems(d, y, freq, frames, time, n, out),
{
    if x.models@.len() == 1 {
        assert(computes_as(d, &x.models@[0].model, &y.models@[0].model));
    } else {
        let alls = choose|alls: Seq<Seq<Stem<D::T>>>| #[trigger]
            engine::are_all_model_stems(d, x, freq, frames, time, n, alls) && alls.len()
                == x.models@.len() && out == engine::picks(
                alls,
                x.model_stems@,
                alls.len() as int,
            );
        assert forall|i: int| 0 <= i < alls.len() implies y.models@[i].model.gives(
            d,
            freq,
            frames,
            time,
            n,
            #[trigger] alls[i],
        ) by {
            assert(computes_as(d, &x.models@[i].model, &y.models@[i].model));
        }
        assert(engine::are_all_model_stems(d, y, freq, frames, time, n, alls));
    }
}

/// The stems of a segment.
proof fn lemma_segment<D: Dsp, M: Network<D>>(
    d: &D,
    x: &Engine<M>,
    y: &Engine<M>,
    left: Seq<D::T>,
    right: Seq<D::T>,
    out: Seq<Stem<D::T>>,
)
    requires
        computes_alike(d, x, y),
        engine::is_segment(d, x, left, right, out),
    ensures
        engine::is_segment(d, y, left, right, out),
{
    assert forall|freq: Seq<D::T>, frames: int, time: Seq<D::T>| #[trigger]
        engine::are_engine_stems(
            d,
            x,
            freq,
            frames,
            time,
            left.len() as int,
            out,
        ) implies engine::are_engine_stems(d, y, freq, frames, time, left.len() as int, out) by {
        lemma_engine_stems(d, x, y, freq, frames, time, left.len() as int, out);
    }
}

/// Why a segment gives no stems.
proof fn lemma_segment_failure<D: Dsp, M: Network<D>>(
    d: &D,
    x: &Engine<M>,
    y: &Engine<M>,
    left: Seq<D::T>,
    right: Seq<D::T>,
    e: DemucsError,
)
    requires
        computes_alike(d, x, y),
        engine::is_segment_failure(d, x, left, right, e),
    ensures
        engine::is_segment_failure(d, y, left, right, e),
{
    assert forall|i: int, freq: Seq<D::T>, frames: int, time: Seq<D::T>, n: int|
        0 <= i < x.models@.len() && #[trigger] x.models@[i].model.fails(
            d,
            freq,
            frames,
            time,
            n,
            e,
        ) implies y.models@[i].model.fails(d, freq, frames, time, n, e) by {
        assert(computes_as(d, &x.models@[i].model, &y.models@[i].model));
    }
}

/// The stems of audio at the network's own rate.
proof fn lemma_native<D: Dsp, M: Network<D>>(
    d: &D,
    x: &Engine<M>,
    y: &Engine<M>,
    left: Seq<D::T>,
    right: Seq<D::T>,
    out: Seq<Stem<D::T>>,
)
    requires
        computes_alike(d, x, y),
        engine::is_native(d, x, left, right, out),
    ensures
        engine::is_native(d, y, left, right, out),
{
    if left.len() <= TRAINING_LENGTH {
        lemma_segment(d, x, y, left, right, out);
    } else {
        let n = left.len() as int;
        let (chunks, wins, ls, rs, ws) = choose|
            chunks: Seq<Seq<Stem<D::T>>>,
            wins: Seq<Seq<D::T>>,
            ls: Seq<Seq<Seq<D::T>>>,
            rs: Seq<Seq<Seq<D::T>>>,
            ws: Seq<Seq<D::T>>,
        |
            {
                &&& #[trigger] engine::is_history(d, x, left, right, chunks, wins, ls, rs, ws)
                &&& chunks.len() == chunk::chunk_count(n)
                &&& out.len() == x.info.stems@.len()
                &&& forall|s: int|
                    #![trigger out[s]]
                    0 <= s < out.len() ==> {
                        &&& out[s].id == x.info.stems@[s]
                        &&& chunk::is_unweighted(d, ls.last()[s], ws.last(), out[s].left@)
                        &&& chunk::is_unweighted(d, rs.last()[s], ws.last(), out[s].right@)
                    }
            };
        assert forall|i: int|
            #![trigger chunks[i]]
            0 <= i < chunks.len() implies engine::is_history_step(
            d,
            y,
            left,
            right,
            i,
            chunks[i],
            wins[i],
            ls[i],
            rs[i],
            ws[i],
            ls[i + 1],
            rs[i + 1],
            ws[i + 1],
        ) by {
            lemma_segment(
                d,
                x,
                y,
                engine::chunk_of(left, n, i),
                engine::chunk_of(right, n, i),
                chunks[i],
            );
        }
        assert(engine::is_history(d, y, left, right, chunks, wins, ls, rs, ws));
    }
}

/// Why audio at the network's own rate gives no stems.
proof fn lemma_native_failure<D: Dsp, M: Network<D>>(
    d: &D,
    x: &Engine<M>,
    y: &Engine<M>,
    left: Seq<D::T>,
    right: Seq<D::T>,
    e: DemucsError,
)
    requires
        computes_alike(d, x, y),
        engine::is_native_failure(d, x, left, right, e),
    ensures
        engine::is_native_failure(d, y, left, right, e),
{
    let n = left.len() as int;
    if n <= TRAINING_LENGTH {
        lemma_segment_failure(d, x, y, left, right, e);
    } else {
        assert forall|l: Seq<D::T>, r: Seq<D::T>| #[trigger]
            engine::is_segment_failure(
                d,
                x,
                l,
                r,
                e,
            ) implies engine::is_segment_failure(d, y, l, r, e) by {
            lemma_segment_failure(d, x, y, l, r, e);
        }
        assert forall|l: Seq<D::T>, r: Seq<D::T>, v: Seq<Stem<D::T>>| #[trigger]
            engine::is_segment(d, x, l, r, v) implies engine::is_segment(d, y, l, r, v) by {
            lemma_segment(d, x, y, l, r, v);
        }
    }
}

/// Engines whose models compute alike separate alike: what the one may give the other may give.
pub proof fn same_stems<D: Dsp, M: Network<D>>(
    d: &D,
    x: &Engine<M>,
    y: &Engine<M>,
    left: Seq<D::T>,
    right: Seq<D::T>,
    rate: u32,
    out: Seq<Stem<D::T>>,
)
    requires
        computes_alike(d, x, y),
        engine::is_separated(d, x, left, right, rate, out),
    ensures
        engine::is_separated(d, y, left, right, rate, out),
{
    assert forall|l: Seq<D::T>, r: Seq<D::T>, v: Seq<Stem<D::T>>| #[trigger]
        engine::is_native(d, x, l, r, v) implies engine::is_native(d, y, l, r, v) by {
        lemma_native(d, x, y, l, r, v);
    }
}

/// Engines whose models compute alike fail alike.
pub proof fn same_failures<D: Dsp, M: Network<D>>(
    d: &D,
    x: &Engine<M>,
    y: &Engine<M>,
    left: Seq<D::T>,
    right: Seq<D::T>,
    rate: u32,
    e: DemucsError,
)
    requires
        computes_alike(d, x, y),
        engine::is_separate_failure(d, x, left, right, rate, e),
    ensures
        engine::is_separate_failure(d, y, left, right, rate, e),
{
    assert forall|l: Seq<D::T>, r: Seq<D::T>, v: Seq<Stem<D::T>>| #[trigger]
        engine::is_native(d, x, l, r, v) implies engine::is_native(d, y, l, r, v) by {
        lemma_native(d, x, y, l, r, v);
    }
    assert forall|l: Seq<D::T>, r: Seq<D::T>| #[trigger]
        engine::is_native_failure(d, x, l, r, e) implies engine::is_native_failure(
        d,
        y,
        l,
        r,
        e,
    ) by {
        lemma_native_failure(d, x, y, l, r, e);
    }
}

/// Models on the processor with the same weights compute the same.
proof fn lemma_processor_models<D: Dsp>(d: &D, l: &HTDemucs<D::T>, k: &HTDemucs<D::T>)
    requires
        same_weights::same_model(*l, *k, true),
        same_weights::same_model(*k, *l, true),
    ensures
        computes_as(d, l, k),
{
    let ts = cpu_engine::time_shape();
    let m = 2 * TRAINING_LENGTH as int;
    assert forall|frames: int, n: int| #[trigger]
        cpu_engine::model_accepts(frames, n, k) implies cpu_engine::model_accepts(
        frames,
        n,
        l,
    ) by {
        let fs = cpu_engine::freq_shape(frames);
        same_results::pass_ok(d, *k, *l, 4 * N_BINS * frames, fs, m, ts);
    }
    assert forall|frames: int, n: int| #[trigger]
        cpu_engine::model_accepts(frames, n, l) implies {
        let fs = cpu_engine::freq_shape(frames);
        &&& cpu_engine::model_accepts(frames, n, k)
        &&& same_results::is_even(l)
        &&& forward::forward_freq_shape(fs, l) == forward::forward_freq_shape(fs, k)
        &&& forward::forward_time_shape(ts, l) == forward::forward_time_shape(ts, k)
    } by {
        let fs = cpu_engine::freq_shape(frames);
        same_results::pass_ok(d, *l, *k, 4 * N_BINS * frames, fs, m, ts);
    }
    assert forall|
        freq: Seq<D::T>,
        fs: [usize; 4],
        time: Seq<D::T>,
        fo: Seq<D::T>,
        to: Seq<D::T>,
    |
        same_results::is_even(l) && #[trigger] forward::is_forward(
            d,
            freq,
            fs,
            time,
            ts,
            l,
            fo,
            to,
        ) implies forward::is_forward(d, freq, fs, time, ts, k, fo, to) by {
        same_results::same_pass(d, *l, *k, freq, fs, time, ts, fo, to);
    }
    assert forall|
        freq: Seq<D::T>,
        frames: int,
        time: Seq<D::T>,
        n: int,
        out: Seq<Stem<D::T>>,
    | #[trigger]
        l.gives(d, freq, frames, time, n, out) implies k.gives(d, freq, frames, time, n, out) by {
        assert(cpu_engine::model_accepts(frames, n, l));
    }
    assert forall|freq: Seq<D::T>, frames: int, time: Seq<D::T>, n: int, e: DemucsError| #[trigger]
        l.fails(d, freq, frames, time, n, e) implies k.fails(d, freq, frames, time, n, e) by {
        if cpu_engine::model_accepts(frames, n, l) {
        } else {
            assert(!cpu_engine::model_accepts(frames, n, k));
        }
    }
}

/// Engines on the processor that hold the same weights compute alike.
pub proof fn same_on_the_processor<D: Dsp>(d: &D, x: &CpuEngine<D::T>, y: &CpuEngine<D::T>)
    requires
        loading_laws::same_cpu_engine(*x, *y, true),
        loading_laws::same_cpu_engine(*y, *x, true),
    ensures
        computes_alike(d, x, y),
{
    assert forall|i: int| 0 <= i < x.models@.len() implies computes_as(
        d,
        &(#[trigger] x.models@[i]).model,
        &y.models@[i].model,
    ) by {
        let g = y.models@[i];
        lemma_processor_models(d, &x.models@[i].model, &y.models@[i].model);
    }
}

/// Models on the device with the same weights compute the same.
proof fn lemma_device_models<D: Device>(d: &D, g: &CudaModel<D::T>, h: &CudaModel<D::T>)
    requires
        loading_laws::same_cuda_model(*g, *h, true),
    ensures
        computes_as(d, g, h),
{
    let (l, k) = choose|l: HTDemucs<D::T>, k: HTDemucs<D::T>|
        {
            &&& #[trigger] loading_laws::is_on_device(*g, l)
            &&& #[trigger] loading_laws::is_on_device(*h, k)
            &&& same_weights::same_model(l, k, true)
        };
    same_programs::same_arrays(l, k);
    assert forall|s: Seq<Step>, f: GpuTensor, t: GpuTensor| #[trigger]
        cuda_forward::forward_steps(s, f, t, g.model) == cuda_forward::forward_steps(
        s,
        f,
        t,
        h.model,
    ) by {
        same_programs::same_program(l, k, g.model, h.model, s, f, t);
    }
    assert forall|
        s: Seq<Step>,
        f: GpuTensor,
        t: GpuTensor,
        ft: Seq<D::T>,
        tt: Seq<D::T>,
    | #[trigger]
        cuda_forward::are_tables(d, s, f, t, g.model, ft, tt) == cuda_forward::are_tables(
        d,
        s,
        f,
        t,
        h.model,
        ft,
        tt,
    ) by {
        same_programs::same_program(l, k, g.model, h.model, s, f, t);
    }
    assert(g.model.n_sources == h.model.n_sources) by {
        reveal(gpu_loading::is_model_at);
        reveal(same_weights::same_model);
    }
    assert forall|frames: usize| #[trigger]
        cuda_engine::pass_steps(*g, frames) == cuda_engine::pass_steps(*h, frames) by {
    }
    assert forall|frames: usize, ft: Seq<D::T>, tt: Seq<D::T>| #[trigger]
        cuda_engine::are_pass_tables(d, *g, frames, ft, tt) == cuda_engine::are_pass_tables(
        d,
        *h,
        frames,
        ft,
        tt,
    ) by {
    }
    lemma_same_passes(d, g, h);
}

/// Models whose programs and tables are the same compute the same.
proof fn lemma_same_passes<D: Device>(d: &D, g: &CudaModel<D::T>, h: &CudaModel<D::T>)
    requires
        g.weights@ == h.weights@,
        g.model.n_sources == h.model.n_sources,
        forall|frames: usize| #[trigger]
            cuda_engine::pass_steps(*g, frames) == cuda_engine::pass_steps(*h, frames),
        forall|frames: usize, ft: Seq<D::T>, tt: Seq<D::T>| #[trigger]
            cuda_engine::are_pass_tables(d, *g, frames, ft, tt) == cuda_engine::are_pass_tables(
                d,
                *h,
                frames,
                ft,
                tt,
            ),
    ensures
        computes_as(d, g, h),
{
    assert forall|
        frames: usize,
        f: Seq<D::T>,
        t: Seq<D::T>,
        r: Result<(Vec<D::T>, Vec<D::T>), DemucsError>,
    | #[trigger]
        cuda_engine::is_pass(d, *g, frames, f, t, r) implies cuda_engine::is_pass(
        d,
        *h,
        frames,
        f,
        t,
        r,
    ) by {
        let ran = cuda_engine::pass_steps(*g, frames)->Ok_0;
        let (ft, tt) = choose|ft: Seq<D::T>, tt: Seq<D::T>|
            {
                &&& #[trigger] cuda_engine::are_pass_tables(d, *g, frames, ft, tt)
                &&& #[trigger] cuda_engine::is_run(
                    d,
                    g.weights@,
                    ran.0,
                    ft,
                    tt,
                    f,
                    t,
                    ran.1.0,
                    ran.1.1,
                    r,
                )
            };
        assert(cuda_engine::are_pass_tables(d, *h, frames, ft, tt));
    }
    assert forall|frames: usize, f: Seq<D::T>, t: Seq<D::T>, e: DemucsError| #[trigger]
        cuda_engine::is_pass_failure(d, *g, frames, f, t, e) implies cuda_engine::is_pass_failure(
        d,
        *h,
        frames,
        f,
        t,
        e,
    ) by {
        let steps = cuda_engine::pass_steps(*g, frames);
        assert(steps == cuda_engine::pass_steps(*h, frames));
        if steps is Ok && !cuda_engine::is_pass(d, *g, frames, f, t, Err(e)) {
            let (ft, tt) = choose|ft: Seq<D::T>, tt: Seq<D::T>|
                {
                    &&& #[trigger] cuda_engine::are_pass_tables(d, *g, frames, ft, tt)
                    &&& !cuda_engine::sources_ok(g.weights@, steps->Ok_0.0, ft, tt, f, t)
                };
            assert(cuda_engine::are_pass_tables(d, *h, frames, ft, tt));
        }
    }
    assert forall|
        freq: Seq<D::T>,
        frames: int,
        time: Seq<D::T>,
        fo: Vec<D::T>,
        to: Vec<D::T>,
        fr: Seq<D::T>,
        tr: Seq<D::T>,
    | #[trigger]
        cuda_engine::is_restored_pass(
            d,
            *g,
            freq,
            frames,
            time,
            fo,
            to,
            fr,
            tr,
        ) implies cuda_engine::is_restored_pass(d, *h, freq, frames, time, fo, to, fr, tr) by {
    }
    assert forall|
        freq: Seq<D::T>,
        frames: int,
        time: Seq<D::T>,
        n: int,
        out: Seq<Stem<D::T>>,
    | #[trigger]
        g.gives(d, freq, frames, time, n, out) implies h.gives(d, freq, frames, time, n, out) by {
    }
    assert forall|freq: Seq<D::T>, frames: int, time: Seq<D::T>, n: int, e: DemucsError| #[trigger]
        g.fails(d, freq, frames, time, n, e) implies h.fails(d, freq, frames, time, n, e) by {
    }
}

/// Engines on the device that hold the same weights compute alike.
pub proof fn same_on_the_device<D: Device>(d: &D, x: &CudaEngine<D::T>, y: &CudaEngine<D::T>)
    requires
        loading_laws::same_cuda_engine(*x, *y, true),
    ensures
        computes_alike(d, x, y),
{
    assert forall|i: int| 0 <= i < x.models@.len() implies computes_as(
        d,
        &(#[trigger] x.models@[i]).model,
        &y.models@[i].model,
    ) by {
        lemma_device_models(d, &x.models@[i].model, &y.models@[i].model);
    }
}

/// Models that were loaded from the same bytes with the same options, whether the bytes were read
/// from a file or handed over, separate alike: what the one may answer to audio, stems or an
/// error, the other may answer.
pub proof fn loaded_twice_separates_alike<A: Arith, D: Device<T = A::T>>(
    a: &A,
    bytes: Seq<u8>,
    opts: &LoadOptions,
    backend: Backend,
    opened: core::result::Result<(), DemucsError>,
    x: Demucs<A::T>,
    y: Demucs<A::T>,
    d: &D,
    left: Seq<A::T>,
    right: Seq<A::T>,
    rate: u32,
    r: core::result::Result<Vec<Stem<A::T>>, DemucsError>,
)
    requires
        same_weights::decodes_once(a),
        crate::is_loaded_from(a, bytes, opts, backend, opened, Ok(x)),
        crate::is_loaded_from(a, bytes, opts, backend, opened, Ok(y)),
        crate::is_separation(d, &x, left, right, rate, r),
    ensures
        crate::is_separation(d, &y, left, right, rate, r),
{
    loading_laws::loaded_twice(a, bytes, opts, backend, opened, Ok(x), Ok(y), true);
    loading_laws::loaded_twice(a, bytes, opts, backend, opened, Ok(y), Ok(x), true);
    match x.inner {
        DemucsInner::Cpu(e) => {
            let f = y.inner->Cpu_0;
            same_on_the_processor(d, &e, &f);
            match r {
                Ok(v) => same_stems(d, &e, &f, left, right, rate, v@),
                Err(x) => same_failures(d, &e, &f, left, right, rate, x),
            }
        },
        DemucsInner::Cuda(e) => {
            let f = y.inner->Cuda_0;
            same_on_the_device(d, &e, &f);
            match r {
                Ok(v) => same_stems(d, &e, &f, left, right, rate, v@),
                Err(x) => same_failures(d, &e, &f, left, right, rate, x),
            }
        },
    }
}

} // verus!
