//! The whole network as a program.
use vstd::prelude::*;
use crate::arith::Arith;
use crate::cuda_ops::elementwise;
use crate::cuda_ops::layers;
use crate::cuda_ops::transformer;
use crate::error::DemucsError;
use crate::gpu_model;
use crate::gpu_model::GpuHDecLayer;
use crate::gpu_model::GpuHEncLayer;
use crate::gpu_model::GpuHTDemucs;
use crate::gpu_model::GpuTDecLayer;
use crate::gpu_model::GpuTEncLayer;
use crate::gpu_tensor;
use crate::gpu_tensor::tensor3;
use crate::gpu_tensor::Built;
use crate::gpu_tensor::GpuTensor;
use crate::ops_cpu::embedding;
use crate::program::Factor;
use crate::program;
use crate::program::Program;
use crate::program::Step;
use crate::N_FFT;

verus! {

/// The tensors of a list are all made by the program, and of the given rank.
#[verifier::opaque]
pub open spec fn list_ok(s: Seq<Step>, v: Seq<GpuTensor>, rank: usize) -> bool {
    forall|i: int|
        0 <= i < v.len() ==> gpu_tensor::tensor_ok(s, #[trigger] v[i]) && v[i].rank == rank
}

/// The tensors of a list stay where they are as a program goes on.
proof fn lemma_list(s: Seq<Step>, t: Seq<Step>, v: Seq<GpuTensor>, rank: usize)
    requires
        list_ok(s, v, rank),
        program::extends(s, t),
    ensures
        list_ok(t, v, rank),
{
    reveal(list_ok);
    assert forall|i: int| 0 <= i < v.len() implies gpu_tensor::tensor_ok(t, #[trigger] v[i]) && v[i].rank
        == rank by {
        assert(gpu_tensor::tensor_ok(s, v[i]));
    }
}

/// A longer list.
proof fn lemma_list_push(s: Seq<Step>, v: Seq<GpuTensor>, x: GpuTensor, rank: usize)
    requires
        list_ok(s, v, rank),
        gpu_tensor::tensor_ok(s, x),
        x.rank == rank,
    ensures
        list_ok(s, v.push(x), rank),
{
    reveal(list_ok);
}

/// A list of tensors was made as `b` says, on the way from the program `before` to `s`.
pub open spec fn good_list(
    before: Seq<Step>,
    b: Built<Seq<GpuTensor>>,
    rank: usize,
    r: Result<Vec<GpuTensor>, DemucsError>,
    s: Seq<Step>,
) -> bool {
    &&& match b {
        Ok((program, list)) => r is Ok && r->Ok_0@ == list && s == program,
        Err(text) => gpu_tensor::refused(r, text),
    }
    &&& program::program_ok(s)
    &&& program::extends(before, s)
    &&& r is Ok ==> list_ok(s, r->Ok_0@, rank)
}

/// The steps of the layers of the frequency encoder from `i` on, after `outs`.
pub open spec fn encode_steps_from(
    s: Seq<Step>,
    outs: Seq<GpuTensor>,
    encoders: Seq<GpuHEncLayer>,
    i: int,
) -> Built<Seq<GpuTensor>>
    decreases encoders.len() - i,
{
    if i >= encoders.len() {
        Ok((s, outs))
    } else {
        match layers::henc_layer_steps(s, outs.last(), encoders[i]) {
            Err(e) => Err(e),
            Ok((s, t)) => encode_steps_from(s, outs.push(t), encoders, i + 1),
        }
    }
}

/// The steps of [`encode_freq`].
pub open spec fn encode_freq_steps(
    s: Seq<Step>,
    freq: GpuTensor,
    m: GpuHTDemucs,
) -> Built<Seq<GpuTensor>> {
    match layers::henc_layer_steps(s, freq, m.encoders@[0]) {
        Err(e) => Err(e),
        Ok((s, h)) => match elementwise::add_freq_emb_steps(
            s,
            h,
            m.freq_emb,
            Factor::EmbeddingScale,
        ) {
            Err(e) => Err(e),
            Ok((s, h)) => encode_steps_from(s, seq![h], m.encoders@, 1),
        },
    }
}

/// The frequency encoder: what comes out of each of its layers, the embedding of the bins added
/// after the first.
fn encode_freq(p: &mut Program, freq: GpuTensor, m: &GpuHTDemucs) -> (r: Result<
    Vec<GpuTensor>,
    DemucsError,
>)
    requires
        program::program_ok(old(p)@),
        gpu_tensor::tensor_ok(old(p)@, freq),
        freq.rank == 4,
        m.encoders@.len() > 0,
        gpu_model::hencs_ok(old(p)@, m.encoders@),
        gpu_tensor::buffer_ok(old(p)@, m.freq_emb.data),
    ensures
        good_list(old(p)@, encode_freq_steps(old(p)@, freq, *m), 4, r, final(p)@),
        r is Ok ==> r->Ok_0@.len() == m.encoders@.len(),
{
    let ghost before = p@;
    let n: usize = m.encoders.len();
    proof {
        reveal(gpu_model::hencs_ok);
    }
    let h: GpuTensor = layers::henc_layer(p, freq, &m.encoders[0])?;
    let h: GpuTensor = elementwise::add_freq_emb_inplace(
        p,
        h,
        &m.freq_emb,
        Factor::EmbeddingScale,
    )?;
    let mut outs: Vec<GpuTensor> = Vec::new();
    outs.push(h);
    proof {
        reveal(list_ok);
        assert(outs@ =~= seq![h]);
        gpu_model::lemma_hencs(before, p@, m.encoders@);
    }
    let mut i: usize = 1;
    while i < n
        invariant
            1 <= i <= n,
            n == m.encoders@.len(),
            before == old(p)@,
            program::program_ok(p@),
            program::extends(before, p@),
            gpu_model::hencs_ok(p@, m.encoders@),
            outs@.len() == i,
            list_ok(p@, outs@, 4),
            encode_steps_from(p@, outs@, m.encoders@, i as int) == encode_freq_steps(
                before,
                freq,
                *m,
            ),
        decreases n - i,
    {
        let ghost s = p@;
        let x: GpuTensor = outs[i - 1];
        proof {
            reveal(gpu_model::hencs_ok);
            reveal(list_ok);
            assert(x == outs@.last());
        }
        match layers::henc_layer(p, x, &m.encoders[i]) {
            Ok(t) => {
                proof {
                    gpu_model::lemma_hencs(s, p@, m.encoders@);
                    lemma_list(s, p@, outs@, 4);
                    lemma_list_push(p@, outs@, t, 4);
                }
                outs.push(t);
            },
            Err(e) => {
                return Err(e);
            },
        }
        i = i + 1;
    }
    Ok(outs)
}

/// What enters layer `i` of the time encoder, after `outs`.
pub open spec fn enters(time: GpuTensor, outs: Seq<GpuTensor>, i: int) -> GpuTensor {
    if i == 0 {
        time
    } else {
        outs[i - 1]
    }
}

/// The steps of the layers of the time encoder from `i` on, `n` in all, after `outs`.
pub open spec fn encode_time_steps_from(
    s: Seq<Step>,
    time: GpuTensor,
    outs: Seq<GpuTensor>,
    encoders: Seq<GpuTEncLayer>,
    n: int,
    i: int,
) -> Built<Seq<GpuTensor>>
    decreases n - i,
{
    if i >= n {
        Ok((s, outs))
    } else {
        match layers::tenc_layer_steps(s, enters(time, outs, i), encoders[i]) {
            Err(e) => Err(e),
            Ok((s, t)) => encode_time_steps_from(s, time, outs.push(t), encoders, n, i + 1),
        }
    }
}

/// The time encoder: what comes out of each of its first `n` layers.
fn encode_time(p: &mut Program, time: GpuTensor, m: &GpuHTDemucs, n: usize) -> (r: Result<
    Vec<GpuTensor>,
    DemucsError,
>)
    requires
        program::program_ok(old(p)@),
        gpu_tensor::tensor_ok(old(p)@, time),
        time.rank == 3,
        n <= m.tencoders@.len(),
        gpu_model::tencs_ok(old(p)@, m.tencoders@),
    ensures
        good_list(
            old(p)@,
            encode_time_steps_from(old(p)@, time, seq![], m.tencoders@, n as int, 0),
            3,
            r,
            final(p)@,
        ),
        r is Ok ==> r->Ok_0@.len() == n,
{
    let ghost before = p@;
    let mut outs: Vec<GpuTensor> = Vec::new();
    proof {
        reveal(list_ok);
        assert(outs@ =~= seq![]);
    }
    let mut i: usize = 0;
    while i < n
        invariant
            i <= n,
            n <= m.tencoders@.len(),
            before == old(p)@,
            program::program_ok(p@),
            program::extends(before, p@),
            gpu_model::tencs_ok(p@, m.tencoders@),
            gpu_tensor::tensor_ok(p@, time),
            time.rank == 3,
            outs@.len() == i,
            list_ok(p@, outs@, 3),
            encode_time_steps_from(p@, time, outs@, m.tencoders@, n as int, i as int)
                == encode_time_steps_from(before, time, seq![], m.tencoders@, n as int, 0),
        decreases n - i,
    {
        let ghost s = p@;
        let x: GpuTensor = if i == 0 {
            time
        } else {
            outs[i - 1]
        };
        proof {
            reveal(gpu_model::tencs_ok);
            reveal(list_ok);
        }
        match layers::tenc_layer(p, x, &m.tencoders[i]) {
            Ok(t) => {
                proof {
                    gpu_model::lemma_tencs(s, p@, m.tencoders@);
                    lemma_list(s, p@, outs@, 3);
                    lemma_list_push(p@, outs@, t, 3);
                }
                outs.push(t);
            },
            Err(e) => {
                return Err(e);
            },
        }
        i = i + 1;
    }
    Ok(outs)
}

/// The number of frequencies that layer `i` of the frequency decoder has to give: as many as
/// entered the encoder layer that it mirrors.
pub open spec fn freq_target(outs: Seq<GpuTensor>, i: int) -> usize {
    if i + 1 < outs.len() {
        outs[outs.len() - 2 - i].d2
    } else {
        N_FFT / 2
    }
}

/// The steps of the layers of the frequency decoder from `i` on.
pub open spec fn decode_steps_from(
    s: Seq<Step>,
    x: GpuTensor,
    outs: Seq<GpuTensor>,
    decoders: Seq<GpuHDecLayer>,
    i: int,
) -> Built<GpuTensor>
    decreases outs.len() - i,
{
    if i >= outs.len() {
        Ok((s, x))
    } else {
        match layers::hdec_layer_steps(
            s,
            x,
            outs[outs.len() - 1 - i],
            freq_target(outs, i),
            decoders[i],
        ) {
            Err(e) => Err(e),
            Ok((s, x)) => decode_steps_from(s, x, outs, decoders, i + 1),
        }
    }
}

/// The frequency decoder, with what came out of the encoder's layers as skips, last first.
fn decode_freq(p: &mut Program, x: GpuTensor, outs: &Vec<GpuTensor>, m: &GpuHTDemucs) -> (r: Result<
    GpuTensor,
    DemucsError,
>)
    requires
        program::program_ok(old(p)@),
        gpu_tensor::tensor_ok(old(p)@, x),
        x.rank == 4,
        list_ok(old(p)@, outs@, 4),
        outs@.len() <= m.decoders@.len(),
        gpu_model::hdecs_ok(old(p)@, m.decoders@),
    ensures
        elementwise::good(
            old(p)@,
            decode_steps_from(old(p)@, x, outs@, m.decoders@, 0),
            r,
            final(p)@,
        ),
        r is Ok ==> r->Ok_0.rank == 4,
{
    let ghost before = p@;
    let n: usize = outs.len();
    let mut y: GpuTensor = x;
    let mut i: usize = 0;
    while i < n
        invariant
            i <= n,
            n == outs@.len(),
            n <= m.decoders@.len(),
            before == old(p)@,
            program::program_ok(p@),
            program::extends(before, p@),
            gpu_model::hdecs_ok(p@, m.decoders@),
            list_ok(p@, outs@, 4),
            gpu_tensor::tensor_ok(p@, y),
            y.rank == 4,
            decode_steps_from(p@, y, outs@, m.decoders@, i as int) == decode_steps_from(
                before,
                x,
                outs@,
                m.decoders@,
                0,
            ),
        decreases n - i,
    {
        let ghost s = p@;
        let skip: GpuTensor = outs[n - 1 - i];
        let target: usize = if i + 1 < n {
            outs[n - 2 - i].d2
        } else {
            N_FFT / 2
        };
        proof {
            reveal(gpu_model::hdecs_ok);
            reveal(list_ok);
        }
        match layers::hdec_layer(p, y, skip, target, &m.decoders[i]) {
            Ok(t) => {
                proof {
                    gpu_model::lemma_hdecs(s, p@, m.decoders@);
                    lemma_list(s, p@, outs@, 4);
                }
                y = t;
            },
            Err(e) => {
                return Err(e);
            },
        }
        i = i + 1;
    }
    Ok(y)
}

/// The steps of the layers of the time decoder from `i` on.
pub open spec fn decode_time_steps_from(
    s: Seq<Step>,
    x: GpuTensor,
    time: GpuTensor,
    outs: Seq<GpuTensor>,
    decoders: Seq<GpuTDecLayer>,
    i: int,
) -> Built<GpuTensor>
    decreases outs.len() - i,
{
    if i >= outs.len() {
        Ok((s, x))
    } else {
        match layers::tdec_layer_steps(
            s,
            x,
            outs[outs.len() - 1 - i],
            enters(time, outs, outs.len() - 1 - i).d2,
            decoders[i],
        ) {
            Err(e) => Err(e),
            Ok((s, x)) => decode_time_steps_from(s, x, time, outs, decoders, i + 1),
        }
    }
}

/// The time decoder: each of its layers gives the length that entered the encoder layer that
/// it mirrors.
fn decode_time(p: &mut Program, x: GpuTensor, time: GpuTensor, outs: &Vec<GpuTensor>, m: &GpuHTDemucs) -> (r: Result<
    GpuTensor,
    DemucsError,
>)
    requires
        program::program_ok(old(p)@),
        gpu_tensor::tensor_ok(old(p)@, x),
        x.rank == 3,
        list_ok(old(p)@, outs@, 3),
        outs@.len() <= m.tdecoders@.len(),
        gpu_model::tdecs_ok(old(p)@, m.tdecoders@),
    ensures
        elementwise::good(
            old(p)@,
            decode_time_steps_from(old(p)@, x, time, outs@, m.tdecoders@, 0),
            r,
            final(p)@,
        ),
        r is Ok ==> r->Ok_0.rank == 3,
{
    let ghost before = p@;
    let n: usize = outs.len();
    let mut y: GpuTensor = x;
    let mut i: usize = 0;
    while i < n
        invariant
            i <= n,
            n == outs@.len(),
            n <= m.tdecoders@.len(),
            before == old(p)@,
            program::program_ok(p@),
            program::extends(before, p@),
            gpu_model::tdecs_ok(p@, m.tdecoders@),
            list_ok(p@, outs@, 3),
            gpu_tensor::tensor_ok(p@, y),
            y.rank == 3,
            decode_time_steps_from(p@, y, time, outs@, m.tdecoders@, i as int)
                == decode_time_steps_from(before, x, time, outs@, m.tdecoders@, 0),
        decreases n - i,
    {
        let ghost s = p@;
        let skip: GpuTensor = outs[n - 1 - i];
        let target: usize = if i + 1 < n {
            outs[n - 2 - i].d2
        } else {
            time.d2
        };
        proof {
            reveal(gpu_model::tdecs_ok);
            reveal(list_ok);
        }
        match layers::tdec_layer(p, y, skip, target, &m.tdecoders[i]) {
            Ok(t) => {
                proof {
                    gpu_model::lemma_tdecs(s, p@, m.tdecoders@);
                    lemma_list(s, p@, outs@, 3);
                }
                y = t;
            },
            Err(e) => {
                return Err(e);
            },
        }
        i = i + 1;
    }
    Ok(y)
}

/// The model has a layer of each kind for each layer of the frequency encoder, and at least
/// one.
pub open spec fn mirrored(m: GpuHTDemucs) -> bool {
    &&& m.encoders@.len() > 0
    &&& m.tencoders@.len() >= m.encoders@.len()
    &&& m.decoders@.len() >= m.encoders@.len()
    &&& m.tdecoders@.len() >= m.encoders@.len()
}

/// The steps of both encoders.
#[verifier::opaque]
pub open spec fn encoders_steps(
    s: Seq<Step>,
    freq: GpuTensor,
    time: GpuTensor,
    m: GpuHTDemucs,
) -> Built<
    (Seq<GpuTensor>, Seq<GpuTensor>),
> {
    if !mirrored(m) {
        Err("the model has too few layers"@)
    } else {
        match encode_freq_steps(s, freq, m) {
            Err(e) => Err(e),
            Ok((s, fouts)) => match encode_time_steps_from(
                s,
                time,
                seq![],
                m.tencoders@,
                m.encoders@.len() as int,
                0,
            ) {
                Err(e) => Err(e),
                Ok((s, touts)) => Ok((s, (fouts, touts))),
            },
        }
    }
}

/// Both encoders.
fn run_encoders(p: &mut Program, freq: GpuTensor, time: GpuTensor, m: &GpuHTDemucs) -> (r: Result<
    (Vec<GpuTensor>, Vec<GpuTensor>),
    DemucsError,
>)
    requires
        program::program_ok(old(p)@),
        gpu_tensor::tensor_ok(old(p)@, freq),
        gpu_tensor::tensor_ok(old(p)@, time),
        freq.rank == 4,
        time.rank == 3,
        gpu_model::model_ok(old(p)@, *m),
    ensures
        match encoders_steps(old(p)@, freq, time, *m) {
            Ok((s, (fouts, touts))) => {
                &&& r is Ok
                &&& r->Ok_0.0@ == fouts
                &&& r->Ok_0.1@ == touts
                &&& final(p)@ == s
            },
            Err(text) => gpu_tensor::refused(r, text),
        },
        program::program_ok(final(p)@),
        program::extends(old(p)@, final(p)@),
        r is Ok ==> {
            &&& mirrored(*m)
            &&& list_ok(final(p)@, r->Ok_0.0@, 4)
            &&& list_ok(final(p)@, r->Ok_0.1@, 3)
            &&& r->Ok_0.0@.len() == m.encoders@.len()
            &&& r->Ok_0.1@.len() == m.encoders@.len()
        },
{
    proof {
        reveal(encoders_steps);
    }
    let n: usize = m.encoders.len();
    if n == 0 || m.tencoders.len() < n || m.decoders.len() < n || m.tdecoders.len() < n {
        return Err(DemucsError::Shape("the model has too few layers".to_owned()));
    }
    let ghost s0 = p@;
    let fouts: Vec<GpuTensor> = encode_freq(p, freq, m)?;
    let ghost s1 = p@;
    proof {
        gpu_model::lemma_tencs(s0, s1, m.tencoders@);
    }
    let touts: Vec<GpuTensor> = encode_time(p, time, m, n)?;
    proof {
        lemma_list(s1, p@, fouts@, 4);
    }
    Ok((fouts, touts))
}

/// The steps of [`table`].
pub open spec fn table_steps(s: Seq<Step>, slot: usize, rows: usize, d: usize) -> Built<GpuTensor> {
    match gpu_tensor::size3(1, rows, d) {
        None => Err(gpu_tensor::too_large()),
        Some(len) => Ok(
            (
                s.push(Step::Table { slot, len }),
                tensor3(s.len() as usize, len, 1, rows, d),
            ),
        ),
    }
}

/// A table `[1, rows, d]` that the host computes.
fn table(p: &mut Program, slot: usize, rows: usize, d: usize) -> (r: Result<GpuTensor, DemucsError>)
    requires
        program::program_ok(old(p)@),
    ensures
        elementwise::good(old(p)@, table_steps(old(p)@, slot, rows, d), r, final(p)@),
        r is Ok ==> rows * d <= usize::MAX,
{
    let len: usize = match gpu_tensor::count3(1, rows, d) {
        Some(n) => n,
        None => {
            return Err(gpu_tensor::large());
        },
    };
    let id: usize = p.push(Step::Table { slot, len });
    Ok(tensor3(id, len, 1, rows, d))
}

/// The steps of the transformer and both decoders.
#[verifier::opaque]
pub open spec fn rest_steps(
    s: Seq<Step>,
    time: GpuTensor,
    fouts: Seq<GpuTensor>,
    touts: Seq<GpuTensor>,
    freq_pe: GpuTensor,
    time_pe: GpuTensor,
    m: GpuHTDemucs,
) -> Built<(GpuTensor, GpuTensor)> {
    match transformer::cross_domain_steps(
        s,
        fouts.last(),
        touts.last(),
        m.crosstransformer,
        freq_pe,
        time_pe,
    ) {
        Err(e) => Err(e),
        Ok((s, (f, t))) => match decode_steps_from(s, f, fouts, m.decoders@, 0) {
            Err(e) => Err(e),
            Ok((s, f)) => match decode_time_steps_from(s, t, time, touts, m.tdecoders@, 0) {
                Err(e) => Err(e),
                Ok((s, t)) => Ok((s, (f, t))),
            },
        },
    }
}

/// The transformer and both decoders.
fn run_rest(
    p: &mut Program,
    time: GpuTensor,
    fouts: &Vec<GpuTensor>,
    touts: &Vec<GpuTensor>,
    freq_pe: GpuTensor,
    time_pe: GpuTensor,
    m: &GpuHTDemucs,
) -> (r: Result<(GpuTensor, GpuTensor), DemucsError>)
    requires
        program::program_ok(old(p)@),
        list_ok(old(p)@, fouts@, 4),
        list_ok(old(p)@, touts@, 3),
        fouts@.len() == m.encoders@.len(),
        touts@.len() == m.encoders@.len(),
        mirrored(*m),
        gpu_tensor::tensor_ok(old(p)@, freq_pe),
        gpu_tensor::tensor_ok(old(p)@, time_pe),
        gpu_model::model_ok(old(p)@, *m),
    ensures
        transformer::good_pair(
            old(p)@,
            rest_steps(old(p)@, time, fouts@, touts@, freq_pe, time_pe, *m),
            4,
            r,
            final(p)@,
        ),
{
    proof {
        reveal(rest_steps);
        reveal(list_ok);
    }
    let n: usize = fouts.len();
    let ghost s0 = p@;
    let f: GpuTensor = fouts[n - 1];
    let t: GpuTensor = touts[n - 1];
    assert(f == fouts@.last() && t == touts@.last());
    let (f, t) = transformer::cross_domain_transformer(
        p,
        f,
        t,
        &m.crosstransformer,
        freq_pe,
        time_pe,
    )?;
    proof {
        gpu_model::lemma_hdecs(s0, p@, m.decoders@);
        lemma_list(s0, p@, fouts@, 4);
    }
    let f: GpuTensor = decode_freq(p, f, fouts, m)?;
    proof {
        gpu_model::lemma_tdecs(s0, p@, m.tdecoders@);
        lemma_list(s0, p@, touts@, 3);
    }
    let t: GpuTensor = decode_time(p, t, time, touts, m)?;
    Ok((f, t))
}

/// The two tables of positional embeddings, for the bottleneck that the encoders give.
#[verifier::opaque]
pub open spec fn tables_steps(
    s: Seq<Step>,
    fouts: Seq<GpuTensor>,
    touts: Seq<GpuTensor>,
    d: usize,
) -> Built<(GpuTensor, GpuTensor)> {
    match gpu_tensor::size2(fouts.last().d3, fouts.last().d2) {
        None => Err(gpu_tensor::too_large()),
        Some(tf) => match table_steps(s, 0, tf, d) {
            Err(e) => Err(e),
            Ok((s, f)) => match table_steps(s, 1, touts.last().d2, d) {
                Err(e) => Err(e),
                Ok((s, t)) => Ok((s, (f, t))),
            },
        },
    }
}

/// The steps of [`htdemucs_forward`].
pub open spec fn forward_steps(
    s: Seq<Step>,
    freq: GpuTensor,
    time: GpuTensor,
    m: GpuHTDemucs,
) -> Built<
    (GpuTensor, GpuTensor),
> {
    match encoders_steps(s, freq, time, m) {
        Err(e) => Err(e),
        Ok((s, (fouts, touts))) => match tables_steps(
            s,
            fouts,
            touts,
            m.crosstransformer.norm_in.dim,
        ) {
            Err(e) => Err(e),
            Ok((s, (fpe, tpe))) => rest_steps(s, time, fouts, touts, fpe, tpe, m),
        },
    }
}

/// What a forward pass gives and what it needs: handles to the two results, and the two tables.
pub struct GpuForward<T> {
    pub freq: GpuTensor,
    pub time: GpuTensor,
    pub freq_table: Vec<T>,
    pub time_table: Vec<T>,
}

/// The tables are the positional embeddings of the bottleneck.
pub open spec fn are_tables<A: Arith>(
    a: &A,
    s: Seq<Step>,
    freq: GpuTensor,
    time: GpuTensor,
    m: GpuHTDemucs,
    freq_table: Seq<A::T>,
    time_table: Seq<A::T>,
) -> bool {
    let d = m.crosstransformer.norm_in.dim as int;
    encoders_steps(s, freq, time, m) matches Ok((_, (fouts, touts))) && {
        &&& embedding::is_embed_2d(
            a,
            d,
            fouts.last().d2 as int,
            fouts.last().d3 as int,
            freq_table,
        )
        &&& embedding::is_embed_1d(a, touts.last().d2 as int, d, time_table)
    }
}

/// The network on a spectrogram and a waveform that are normalized: both encoders, the
/// transformer, both decoders.
pub fn htdemucs_forward<A: Arith>(
    a: &A,
    p: &mut Program,
    freq: GpuTensor,
    time: GpuTensor,
    m: &GpuHTDemucs,
) -> (r: Result<GpuForward<A::T>, DemucsError>)
    requires
        program::program_ok(old(p)@),
        gpu_tensor::tensor_ok(old(p)@, freq),
        gpu_tensor::tensor_ok(old(p)@, time),
        freq.rank == 4,
        time.rank == 3,
        gpu_model::model_ok(old(p)@, *m),
    ensures
        match forward_steps(old(p)@, freq, time, *m) {
            Ok((s, (f, t))) => {
                &&& r is Ok
                &&& r->Ok_0.freq == f
                &&& r->Ok_0.time == t
                &&& final(p)@ == s
                &&& are_tables(
                    a,
                    old(p)@,
                    freq,
                    time,
                    *m,
                    r->Ok_0.freq_table@,
                    r->Ok_0.time_table@,
                )
            },
            Err(text) => gpu_tensor::refused(r, text),
        },
        program::program_ok(final(p)@),
        program::extends(old(p)@, final(p)@),
        r is Ok ==> {
            &&& gpu_tensor::tensor_ok(final(p)@, r->Ok_0.freq)
            &&& gpu_tensor::tensor_ok(final(p)@, r->Ok_0.time)
            &&& r->Ok_0.freq.rank == 4
            &&& r->Ok_0.time.rank == 3
        },
{
    let ghost s0 = p@;
    let (fouts, touts) = run_encoders(p, freq, time, m)?;
    let n: usize = fouts.len();
    let ghost s1 = p@;
    let bottom: GpuTensor = fouts[n - 1];
    let bottom_t: GpuTensor = touts[n - 1];
    proof {
        reveal(tables_steps);
        assert(bottom == fouts@.last() && bottom_t == touts@.last());
    }
    let d: usize = m.crosstransformer.norm_in.dim;
    let tf: usize = match gpu_tensor::count2(bottom.d3, bottom.d2) {
        Some(k) => k,
        None => {
            return Err(gpu_tensor::large());
        },
    };
    let freq_pe: GpuTensor = table(p, 0, tf, d)?;
    let freq_table: Vec<A::T> = embedding::sin_embed_2d(a, d, bottom.d2, bottom.d3);
    let time_pe: GpuTensor = table(p, 1, bottom_t.d2, d)?;
    let time_table: Vec<A::T> = embedding::sin_embed_1d(a, bottom_t.d2, d);
    proof {
        lemma_list(s1, p@, fouts@, 4);
        lemma_list(s1, p@, touts@, 3);
        gpu_model::lemma_model(s0, p@, *m);
    }
    let (f, t) = run_rest(p, time, &fouts, &touts, freq_pe, time_pe, m)?;
    Ok(GpuForward { freq: f, time: t, freq_table, time_table })
}

} // verus!
