//! What holds of separation as a whole.
use vstd::prelude::*;
use crate::arith;
use crate::arith::Arith;
use crate::cpu_engine;
use crate::cpu_engine::CpuEngine;
use crate::cpu_engine::N_BINS;
use crate::cuda_engine;
use crate::cuda_engine::CudaEngine;
use crate::cuda_engine::CudaModel;
use crate::cuda_engine::Device;
use crate::dsp;
use crate::dsp::cac;
use crate::dsp::Complex;
use crate::dsp::Dsp;
use crate::engine;
use crate::engine::Engine;
use crate::engine::Network;
use crate::error::DemucsError;
use crate::metadata::StemId;
use crate::model::HTDemucs;
use crate::ops_cpu::forward;
use crate::ops_cpu::stems;
use crate::Stem;
use crate::HOP_LENGTH;
use crate::N_FFT;
use crate::SAMPLE_RATE;
use crate::TRAINING_LENGTH;

verus! {

/// Separation at another rate than the network's: both channels brought to its rate, separated
/// there, and the channels of each stem brought back, the stems staying in place.
pub proof fn separation_at_another_rate<D: Dsp, M: Network<D>>(
    d: &D,
    e: &Engine<M>,
    left: Seq<D::T>,
    right: Seq<D::T>,
    rate: u32,
    out: Seq<Stem<D::T>>,
)
    requires
        rate != SAMPLE_RATE,
    ensures
        engine::is_separated(d, e, left, right, rate, out) <==> exists|
            l: Vec<D::T>,
            r: Vec<D::T>,
            mid: Seq<Stem<D::T>>,
        |
            {
                &&& #[trigger] dsp::is_resample(d, left, rate, SAMPLE_RATE as u32, Ok(l))
                &&& #[trigger] dsp::is_resample(d, right, rate, SAMPLE_RATE as u32, Ok(r))
                &&& engine::channels_ok(l@.len() as int, r@.len() as int)
                &&& #[trigger] engine::is_separated(d, e, l@, r@, SAMPLE_RATE as u32, mid)
                &&& engine::are_resampled_stems(d, mid, rate, out)
            },
{
    let native = SAMPLE_RATE as u32;
    assert(native == SAMPLE_RATE);
    if engine::is_separated(d, e, left, right, rate, out) {
        let (l, r, all) = choose|l: Vec<D::T>, r: Vec<D::T>, all: Seq<Stem<D::T>>|
            {
                &&& #[trigger] dsp::is_resample(d, left, rate, native, Ok(l))
                &&& #[trigger] dsp::is_resample(d, right, rate, native, Ok(r))
                &&& engine::channels_ok(l@.len() as int, r@.len() as int)
                &&& #[trigger] engine::is_native(d, e, l@, r@, all)
                &&& engine::are_resampled_stems(
                    d,
                    engine::kept(all, e.selected_stems@),
                    rate,
                    out,
                )
            };
        let mid = engine::kept(all, e.selected_stems@);
        assert(engine::is_separated(d, e, l@, r@, native, mid));
    }
}

/// Separation at another rate fails exactly if resampling a channel on the way in fails, the
/// resampled channels do not go together, the separation at the network's rate fails, or
/// resampling a stem on the way out does.
pub proof fn failure_at_another_rate<D: Dsp, M: Network<D>>(
    d: &D,
    e: &Engine<M>,
    left: Seq<D::T>,
    right: Seq<D::T>,
    rate: u32,
    x: DemucsError,
)
    requires
        rate != SAMPLE_RATE,
    ensures
        engine::is_separate_failure(d, e, left, right, rate, x) <==> {
            ||| engine::is_resample_failure(d, left, rate, SAMPLE_RATE as u32, x)
            ||| engine::is_resample_failure(d, right, rate, SAMPLE_RATE as u32, x)
            ||| exists|l: Vec<D::T>, r: Vec<D::T>|
                {
                    &&& #[trigger] dsp::is_resample(d, left, rate, SAMPLE_RATE as u32, Ok(l))
                    &&& #[trigger] dsp::is_resample(d, right, rate, SAMPLE_RATE as u32, Ok(r))
                    &&& {
                        ||| !engine::channels_ok(l@.len() as int, r@.len() as int) && x is Dsp
                            && x->Dsp_0@ == engine::ragged_text()
                        ||| engine::is_separate_failure(d, e, l@, r@, SAMPLE_RATE as u32, x)
                        ||| exists|mid: Seq<Stem<D::T>>, k: int|
                            {
                                &&& #[trigger] engine::is_separated(
                                    d,
                                    e,
                                    l@,
                                    r@,
                                    SAMPLE_RATE as u32,
                                    mid,
                                )
                                &&& 0 <= k < mid.len()
                                &&& engine::is_stem_resample_failure(
                                    d,
                                    #[trigger] mid[k],
                                    rate,
                                    x,
                                )
                            }
                    }
                }
        },
{
    let native = SAMPLE_RATE as u32;
    assert(native == SAMPLE_RATE);
    assert forall|l: Seq<D::T>, r: Seq<D::T>, all: Seq<Stem<D::T>>| #[trigger]
        engine::is_native(d, e, l, r, all) implies engine::is_separated(
        d,
        e,
        l,
        r,
        native,
        engine::kept(all, e.selected_stems@),
    ) by {}
}

/// `short` is `long` with the first `n` samples of each channel.
pub open spec fn is_shortened<T>(long: Stem<T>, n: int, short: Stem<T>) -> bool {
    &&& short.id == long.id
    &&& short.left@ == long.left@.take(n)
    &&& short.right@ == long.right@.take(n)
}

/// `short` are the stems `long`, with the first `n` samples of each channel.
pub open spec fn are_shortened<T>(long: Seq<Stem<T>>, n: int, short: Seq<Stem<T>>) -> bool {
    &&& short.len() == long.len()
    &&& forall|k: int| 0 <= k < short.len() ==> is_shortened(long[k], n, #[trigger] short[k])
}

/// The network gives fewer samples of a segment as it gives more.
pub open spec fn gives_prefixes<D: Dsp, M: Network<D>>(d: &D, m: &M) -> bool {
    forall|
        freq: Seq<D::T>,
        frames: int,
        time: Seq<D::T>,
        more: int,
        long: Seq<Stem<D::T>>,
        n: int,
        short: Seq<Stem<D::T>>,
    |
        0 <= n <= more && #[trigger] m.gives(d, freq, frames, time, more, long)
            && #[trigger] are_shortened(long, n, short) ==> m.gives(
            d,
            freq,
            frames,
            time,
            n,
            short,
        )
}

/// A stem of fewer samples is a stem of more, shortened.
proof fn lemma_stem_prefix<D: Dsp>(
    d: &D,
    x: Seq<D::T>,
    s: [usize; 4],
    frames: int,
    padded_len: usize,
    time: Seq<D::T>,
    time_len: int,
    more: int,
    k: int,
    long: Stem<D::T>,
    n: int,
    short: Stem<D::T>,
)
    requires
        0 <= n <= more,
        stems::is_stem(d, x, s, frames, padded_len, time, time_len, more, k, long),
        is_shortened(long, n, short),
    ensures
        stems::is_stem(d, x, s, frames, padded_len, time, time_len, n, k, short),
{
    lemma_channel_prefix(
        d,
        x,
        s,
        frames,
        4 * k,
        padded_len,
        time,
        (2 * k) * time_len,
        more,
        long.left@,
        n,
    );
    lemma_channel_prefix(
        d,
        x,
        s,
        frames,
        4 * k + 2,
        padded_len,
        time,
        (2 * k + 1) * time_len,
        more,
        long.right@,
        n,
    );
}

/// A channel of fewer samples is the start of one of more.
proof fn lemma_channel_prefix<D: Dsp>(
    d: &D,
    x: Seq<D::T>,
    s: [usize; 4],
    frames: int,
    c: int,
    padded_len: usize,
    time: Seq<D::T>,
    at: int,
    more: int,
    long: Seq<D::T>,
    n: int,
)
    requires
        0 <= n <= more,
        stems::is_stem_channel(d, x, s, frames, c, padded_len, time, at, more, long),
    ensures
        stems::is_stem_channel(d, x, s, frames, c, padded_len, time, at, n, long.take(n)),
{
    let w = choose|w: Vec<D::T>|
        {
            &&& #[trigger] stems::is_channel_wave(d, x, s, frames, c, padded_len, Ok(w))
            &&& more <= w@.len()
            &&& stems::is_mixed(d, w@, time, at, more, long)
        };
    let short = long.take(n);
    assert forall|i: int| 0 <= i < n implies arith::is_sum(
        d,
        w@[i],
        time[at + i],
        #[trigger] short[i],
    ) by {
        assert(arith::is_sum(d, w@[i], time[at + i], long[i]));
    }
    assert(stems::is_mixed(d, w@, time, at, n, short));
}

/// The network on the processor gives fewer samples of a segment as it gives more.
pub proof fn processor_gives_prefixes<D: Dsp>(d: &D, m: &HTDemucs<D::T>)
    ensures
        gives_prefixes(d, m),
{
    assert forall|
        freq: Seq<D::T>,
        frames: int,
        time: Seq<D::T>,
        more: int,
        long: Seq<Stem<D::T>>,
        n: int,
        short: Seq<Stem<D::T>>,
    |
        0 <= n <= more && #[trigger] Network::<D>::gives(m, d, freq, frames, time, more, long)
            && #[trigger] are_shortened(long, n, short) implies Network::<D>::gives(
        m,
        d,
        freq,
        frames,
        time,
        n,
        short,
    ) by {
        let fs = forward::forward_freq_shape(cpu_engine::freq_shape(frames), m);
        let ts = forward::forward_time_shape(cpu_engine::time_shape(), m);
        let (fo, to) = choose|fo: Seq<D::T>, to: Seq<D::T>|
            {
                &&& #[trigger] forward::is_forward(
                    d,
                    freq,
                    cpu_engine::freq_shape(frames),
                    time,
                    cpu_engine::time_shape(),
                    m,
                    fo,
                    to,
                )
                &&& long.len() == fs[1] / 4
                &&& forall|k: int|
                    0 <= k < long.len() ==> stems::is_stem(
                        d,
                        fo,
                        fs,
                        frames,
                        TRAINING_LENGTH,
                        to,
                        ts[2] as int,
                        more,
                        k,
                        #[trigger] long[k],
                    )
            };
        assert forall|k: int| 0 <= k < short.len() implies stems::is_stem(
            d,
            fo,
            fs,
            frames,
            TRAINING_LENGTH,
            to,
            ts[2] as int,
            n,
            k,
            #[trigger] short[k],
        ) by {
            lemma_stem_prefix(
                d,
                fo,
                fs,
                frames,
                TRAINING_LENGTH,
                to,
                ts[2] as int,
                more,
                k,
                long[k],
                n,
                short[k],
            );
        }
    }
}

/// The network on the device gives fewer samples of a segment as it gives more.
pub proof fn device_gives_prefixes<D: Device>(d: &D, m: &CudaModel<D::T>)
    ensures
        gives_prefixes(d, m),
{
    assert forall|
        freq: Seq<D::T>,
        frames: int,
        time: Seq<D::T>,
        more: int,
        long: Seq<Stem<D::T>>,
        n: int,
        short: Seq<Stem<D::T>>,
    |
        0 <= n <= more && #[trigger] Network::<D>::gives(m, d, freq, frames, time, more, long)
            && #[trigger] are_shortened(long, n, short) implies Network::<D>::gives(
        m,
        d,
        freq,
        frames,
        time,
        n,
        short,
    ) by {
        let sources = m.model.n_sources;
        let (fo, to, fr, tr) = choose|fo: Vec<D::T>, to: Vec<D::T>, fr: Seq<D::T>, tr: Seq<D::T>|
            {
                &&& #[trigger] cuda_engine::is_restored_pass(
                    d,
                    *m,
                    freq,
                    frames,
                    time,
                    fo,
                    to,
                    fr,
                    tr,
                )
                &&& cuda_engine::results_fit(
                    sources,
                    frames as usize,
                    fr.len() as int,
                    tr.len() as int,
                    more,
                )
                &&& cuda_engine::are_stems_of(d, sources, frames as usize, more, fr, tr, long)
            };
        let fs = cuda_engine::out_freq_shape(sources, frames as usize, fr.len() as int);
        let ts = cuda_engine::out_time_shape(sources, tr.len() as int);
        assert forall|k: int| 0 <= k < short.len() implies stems::is_stem(
            d,
            fr,
            fs,
            (frames as usize) as int,
            TRAINING_LENGTH,
            tr,
            ts[2] as int,
            n,
            k,
            #[trigger] short[k],
        ) by {
            lemma_stem_prefix(
                d,
                fr,
                fs,
                (frames as usize) as int,
                TRAINING_LENGTH,
                tr,
                ts[2] as int,
                more,
                k,
                long[k],
                n,
                short[k],
            );
        }
        assert(cuda_engine::are_stems_of(d, sources, frames as usize, n, fr, tr, short));
    }
}

/// There is one zero.
pub open spec fn one_zero<A: Arith>(a: &A) -> bool {
    forall|x: A::T, y: A::T| #[trigger]
        arith::is_zero(a, x) && #[trigger] arith::is_zero(a, y) ==> x == y
}

/// The stems that an engine gives where its models give `alls`.
pub open spec fn stems_from<T, M>(e: &Engine<M>, alls: Seq<Seq<Stem<T>>>) -> Seq<Stem<T>> {
    if e.models@.len() == 1 {
        alls[0]
    } else {
        engine::picks(alls, e.model_stems@, alls.len() as int)
    }
}

/// `alls` are the stems that each model of the engine gives of a segment.
pub open spec fn are_segment_parts<D: Dsp, M: Network<D>>(
    d: &D,
    e: &Engine<M>,
    left: Seq<D::T>,
    right: Seq<D::T>,
    alls: Seq<Seq<Stem<D::T>>>,
) -> bool {
    exists|z: D::T, ls: Vec<Complex<D::T>>, rs: Vec<Complex<D::T>>, zt: D::T|
        {
            let frames = ls@.len() as int / N_BINS as int;
            &&& #[trigger] arith::is_zero(d, z)
            &&& #[trigger] arith::is_zero(d, zt)
            &&& #[trigger] dsp::is_stft(
                d,
                N_FFT,
                HOP_LENGTH,
                engine::padded_segment(left, z),
                Ok(ls),
            )
            &&& #[trigger] dsp::is_stft(
                d,
                N_FFT,
                HOP_LENGTH,
                engine::padded_segment(right, z),
                Ok(rs),
            )
            &&& ls@.len() == rs@.len()
            &&& alls.len() == e.models@.len()
            &&& engine::are_all_model_stems(
                d,
                e,
                cpu_engine::freq_tensor(
                    cac::cac_of(ls@, N_BINS as int),
                    cac::cac_of(rs@, N_BINS as int),
                    N_BINS as int,
                    frames,
                ),
                frames,
                cpu_engine::time_tensor(
                    engine::padded_segment(left, z),
                    engine::padded_segment(right, z),
                    TRAINING_LENGTH as int,
                    zt,
                ),
                left.len() as int,
                alls,
            )
        }
}

/// A segment is separated by its models, each of which gives stems.
pub proof fn segments_have_parts<D: Dsp, M: Network<D>>(
    d: &D,
    e: &Engine<M>,
    left: Seq<D::T>,
    right: Seq<D::T>,
    out: Seq<Stem<D::T>>,
)
    ensures
        engine::is_segment(d, e, left, right, out) <==> exists|alls: Seq<Seq<Stem<D::T>>>|
            #[trigger]
            are_segment_parts(d, e, left, right, alls) && out == stems_from(e, alls),
{
    if engine::is_segment(d, e, left, right, out) {
        let (z, ls, rs, zt) = choose|
            z: D::T,
            ls: Vec<Complex<D::T>>,
            rs: Vec<Complex<D::T>>,
            zt: D::T,
        |
            {
                let frames = ls@.len() as int / N_BINS as int;
                &&& #[trigger] arith::is_zero(d, z)
                &&& #[trigger] arith::is_zero(d, zt)
                &&& #[trigger] dsp::is_stft(
                    d,
                    N_FFT,
                    HOP_LENGTH,
                    engine::padded_segment(left, z),
                    Ok(ls),
                )
                &&& #[trigger] dsp::is_stft(
                    d,
                    N_FFT,
                    HOP_LENGTH,
                    engine::padded_segment(right, z),
                    Ok(rs),
                )
                &&& ls@.len() == rs@.len()
                &&& engine::are_engine_stems(
                    d,
                    e,
                    cpu_engine::freq_tensor(
                        cac::cac_of(ls@, N_BINS as int),
                        cac::cac_of(rs@, N_BINS as int),
                        N_BINS as int,
                        frames,
                    ),
                    frames,
                    cpu_engine::time_tensor(
                        engine::padded_segment(left, z),
                        engine::padded_segment(right, z),
                        TRAINING_LENGTH as int,
                        zt,
                    ),
                    left.len() as int,
                    out,
                )
            };
        let frames = ls@.len() as int / N_BINS as int;
        let freq = cpu_engine::freq_tensor(
            cac::cac_of(ls@, N_BINS as int),
            cac::cac_of(rs@, N_BINS as int),
            N_BINS as int,
            frames,
        );
        let time = cpu_engine::time_tensor(
            engine::padded_segment(left, z),
            engine::padded_segment(right, z),
            TRAINING_LENGTH as int,
            zt,
        );
        if e.models@.len() == 1 {
            let alls = seq![out];
            assert(engine::are_all_model_stems(d, e, freq, frames, time, left.len() as int, alls));
            assert(are_segment_parts(d, e, left, right, alls));
            assert(out == stems_from(e, alls));
        } else {
            let alls = choose|alls: Seq<Seq<Stem<D::T>>>| #[trigger]
                engine::are_all_model_stems(d, e, freq, frames, time, left.len() as int, alls)
                    && alls.len() == e.models@.len() && out == engine::picks(
                    alls,
                    e.model_stems@,
                    alls.len() as int,
                );
            assert(are_segment_parts(d, e, left, right, alls));
            assert(out == stems_from(e, alls));
        }
    }
}

/// The first stem of an id is at the same place after shortening.
proof fn lemma_find_shortened<T>(
    long: Seq<Stem<T>>,
    n: int,
    short: Seq<Stem<T>>,
    id: StemId,
    k: int,
)
    requires
        are_shortened(long, n, short),
        0 <= k <= long.len(),
    ensures
        engine::find_from(short, id, k) == engine::find_from(long, id, k),
        k <= engine::find_from(short, id, k) <= short.len(),
    decreases long.len() - k,
{
    if k < long.len() {
        assert(is_shortened(long[k], n, short[k]));
        lemma_find_shortened(long, n, short, id, k + 1);
    }
}

/// Stems picked out of shortened ones are the picked stems, shortened.
proof fn lemma_picks_shortened<T>(
    long: Seq<Seq<Stem<T>>>,
    n: int,
    short: Seq<Seq<Stem<T>>>,
    ids: Seq<StemId>,
    i: int,
)
    requires
        short.len() == long.len(),
        forall|j: int| 0 <= j < short.len() ==> are_shortened(long[j], n, #[trigger] short[j]),
        i <= short.len(),
    ensures
        are_shortened(engine::picks(long, ids, i), n, engine::picks(short, ids, i)),
    decreases i,
{
    if i > 0 {
        lemma_picks_shortened(long, n, short, ids, i - 1);
        let id = ids[i - 1];
        assert(are_shortened(long[i - 1], n, short[i - 1]));
        lemma_find_shortened(long[i - 1], n, short[i - 1], id, 0);
        let k = engine::find_from(short[i - 1], id, 0);
        if k < short[i - 1].len() {
            assert(is_shortened(long[i - 1][k], n, short[i - 1][k]));
        }
        let (pl, ps) = (engine::pick(long[i - 1], id), engine::pick(short[i - 1], id));
        assert(are_shortened(pl, n, ps));
        let (al, a_s) = (engine::picks(long, ids, i - 1), engine::picks(short, ids, i - 1));
        assert forall|j: int| 0 <= j < (a_s + ps).len() implies is_shortened(
            (al + pl)[j],
            n,
            #[trigger] (a_s + ps)[j],
        ) by {
            if j < a_s.len() {
                assert(is_shortened(al[j], n, a_s[j]));
            } else {
                assert(is_shortened(pl[j - al.len()], n, ps[j - a_s.len()]));
            }
        }
    }
}

/// Filling a segment up with zeros changes nothing but the number of samples: where the models
/// give the stems `long` of the longer segment and `short` are these with the first samples
/// only, they give `short` of the segment, and the engine gives accordingly.
pub proof fn zeros_after_a_segment<D: Dsp, M: Network<D>>(
    d: &D,
    e: &Engine<M>,
    left: Seq<D::T>,
    right: Seq<D::T>,
    z: D::T,
    k: nat,
    long: Seq<Seq<Stem<D::T>>>,
    short: Seq<Seq<Stem<D::T>>>,
)
    requires
        one_zero(d),
        forall|i: int|
            0 <= i < e.models@.len() ==> gives_prefixes(d, &(#[trigger] e.models@[i]).model),
        arith::is_zero(d, z),
        left.len() == right.len(),
        left.len() + k <= TRAINING_LENGTH,
        are_segment_parts(
            d,
            e,
            left + Seq::new(k, |i: int| z),
            right + Seq::new(k, |i: int| z),
            long,
        ),
        short.len() == long.len(),
        forall|i: int|
            0 <= i < short.len() ==> are_shortened(
                long[i],
                left.len() as int,
                #[trigger] short[i],
            ),
    ensures
        are_segment_parts(d, e, left, right, short),
        engine::is_segment(d, e, left, right, stems_from(e, short)),
        are_shortened(stems_from(e, long), left.len() as int, stems_from(e, short)),
{
    let zeros = Seq::new(k, |i: int| z);
    let (l2, r2) = (left + zeros, right + zeros);
    let n = left.len() as int;
    let (zp, ls, rs, zt) = choose|
        zp: D::T,
        ls: Vec<Complex<D::T>>,
        rs: Vec<Complex<D::T>>,
        zt: D::T,
    |
        {
            let frames = ls@.len() as int / N_BINS as int;
            &&& #[trigger] arith::is_zero(d, zp)
            &&& #[trigger] arith::is_zero(d, zt)
            &&& #[trigger] dsp::is_stft(
                d,
                N_FFT,
                HOP_LENGTH,
                engine::padded_segment(l2, zp),
                Ok(ls),
            )
            &&& #[trigger] dsp::is_stft(
                d,
                N_FFT,
                HOP_LENGTH,
                engine::padded_segment(r2, zp),
                Ok(rs),
            )
            &&& ls@.len() == rs@.len()
            &&& long.len() == e.models@.len()
            &&& engine::are_all_model_stems(
                d,
                e,
                cpu_engine::freq_tensor(
                    cac::cac_of(ls@, N_BINS as int),
                    cac::cac_of(rs@, N_BINS as int),
                    N_BINS as int,
                    frames,
                ),
                frames,
                cpu_engine::time_tensor(
                    engine::padded_segment(l2, zp),
                    engine::padded_segment(r2, zp),
                    TRAINING_LENGTH as int,
                    zt,
                ),
                l2.len() as int,
                long,
            )
        };
    assert(zp == z);
    lemma_padded_twice(left, k, z);
    lemma_padded_twice(right, k, z);
    let frames = ls@.len() as int / N_BINS as int;
    let freq = cpu_engine::freq_tensor(
        cac::cac_of(ls@, N_BINS as int),
        cac::cac_of(rs@, N_BINS as int),
        N_BINS as int,
        frames,
    );
    let time = cpu_engine::time_tensor(
        engine::padded_segment(left, z),
        engine::padded_segment(right, z),
        TRAINING_LENGTH as int,
        zt,
    );
    assert forall|i: int| 0 <= i < short.len() implies e.models@[i].model.gives(
        d,
        freq,
        frames,
        time,
        n,
        #[trigger] short[i],
    ) by {
        assert(e.models@[i].model.gives(d, freq, frames, time, n + k, long[i]));
        assert(are_shortened(long[i], n, short[i]));
        assert(gives_prefixes(d, &e.models@[i].model));
    }
    assert(engine::are_all_model_stems(d, e, freq, frames, time, n, short));
    assert(are_segment_parts(d, e, left, right, short));
    segments_have_parts(d, e, left, right, stems_from(e, short));
    if e.models@.len() != 1 {
        lemma_picks_shortened(long, n, short, e.model_stems@, short.len() as int);
    } else {
        assert(are_shortened(long[0], n, short[0]));
    }
}

/// Filling a segment up with zeros changes nothing but the number of samples, on the processor.
pub proof fn zeros_after_a_segment_on_the_processor<D: Dsp>(
    d: &D,
    e: &CpuEngine<D::T>,
    left: Seq<D::T>,
    right: Seq<D::T>,
    z: D::T,
    k: nat,
    long: Seq<Seq<Stem<D::T>>>,
    short: Seq<Seq<Stem<D::T>>>,
)
    requires
        one_zero(d),
        arith::is_zero(d, z),
        left.len() == right.len(),
        left.len() + k <= TRAINING_LENGTH,
        are_segment_parts(
            d,
            e,
            left + Seq::new(k, |i: int| z),
            right + Seq::new(k, |i: int| z),
            long,
        ),
        short.len() == long.len(),
        forall|i: int|
            0 <= i < short.len() ==> are_shortened(
                long[i],
                left.len() as int,
                #[trigger] short[i],
            ),
    ensures
        engine::is_segment(d, e, left, right, stems_from(e, short)),
        are_shortened(stems_from(e, long), left.len() as int, stems_from(e, short)),
{
    assert forall|i: int| 0 <= i < e.models@.len() implies gives_prefixes(
        d,
        &(#[trigger] e.models@[i]).model,
    ) by {
        processor_gives_prefixes(d, &e.models@[i].model);
    }
    zeros_after_a_segment(d, e, left, right, z, k, long, short);
}

/// Filling a segment up with zeros changes nothing but the number of samples, on the device.
pub proof fn zeros_after_a_segment_on_the_device<D: Device>(
    d: &D,
    e: &CudaEngine<D::T>,
    left: Seq<D::T>,
    right: Seq<D::T>,
    z: D::T,
    k: nat,
    long: Seq<Seq<Stem<D::T>>>,
    short: Seq<Seq<Stem<D::T>>>,
)
    requires
        one_zero(d),
        arith::is_zero(d, z),
        left.len() == right.len(),
        left.len() + k <= TRAINING_LENGTH,
        are_segment_parts(
            d,
            e,
            left + Seq::new(k, |i: int| z),
            right + Seq::new(k, |i: int| z),
            long,
        ),
        short.len() == long.len(),
        forall|i: int|
            0 <= i < short.len() ==> are_shortened(
                long[i],
                left.len() as int,
                #[trigger] short[i],
            ),
    ensures
        engine::is_segment(d, e, left, right, stems_from(e, short)),
        are_shortened(stems_from(e, long), left.len() as int, stems_from(e, short)),
{
    assert forall|i: int| 0 <= i < e.models@.len() implies gives_prefixes(
        d,
        &(#[trigger] e.models@[i]).model,
    ) by {
        device_gives_prefixes(d, &e.models@[i].model);
    }
    zeros_after_a_segment(d, e, left, right, z, k, long, short);
}

/// A segment filled up with zeros fills up to the same.
proof fn lemma_padded_twice<T>(x: Seq<T>, k: nat, z: T)
    requires
        x.len() + k <= TRAINING_LENGTH,
    ensures
        engine::padded_segment(x + Seq::new(k, |i: int| z), z) == engine::padded_segment(x, z),
{
    let y = x + Seq::new(k, |i: int| z);
    let len = TRAINING_LENGTH as int;
    let (a, b) = (engine::padded_segment(y, z), engine::padded_segment(x, z));
    assert(1 * len == len);
    assert forall|p: int| 0 <= p < len implies a[p] == b[p] by {
        assert(p % len == p && p / len == 0) by {
            vstd::arithmetic::div_mod::lemma_small_mod(p as nat, len as nat);
            vstd::arithmetic::div_mod::lemma_basic_div(p, len);
        }
    }
    assert(a =~= b);
}

} // verus!
