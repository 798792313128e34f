//! The network on the device.
use vstd::prelude::*;
use crate::arith::Arith;
use crate::cuda_ops::elementwise;
use crate::cuda_ops::forward as gpu_forward;
use crate::cuda_ops::layers as gpu_layers;
use crate::cuda_ops::transformer as gpu_transformer;
use crate::gpu_model::GpuHTDemucs;
use crate::gpu_tensor::GpuTensor;
use crate::index;
use crate::meaning;
use crate::meaning::growth;
use crate::meaning::layers;
use crate::meaning::operators;
use crate::meaning::transformer as sequences;
use crate::meaning::weights;
use crate::model::HTDemucs;
use crate::ops_cpu::decoder;
use crate::ops_cpu::embedding;
use crate::ops_cpu::encoder;
use crate::ops_cpu::forward;
use crate::ops_cpu::transformer;
use crate::program::Factor;
use crate::program;
use crate::program::Step;

verus! {

/// The contents of a list of tensors.
pub open spec fn contents<T>(v: Seq<Seq<T>>, outs: Seq<GpuTensor>) -> Seq<Seq<T>> {
    Seq::new(outs.len(), |i: int| meaning::at(v, outs[i]))
}

/// The list holds what the layers of the frequency encoder make, each of the one before.
#[verifier::opaque]
pub open spec fn are_freq_outs<A: Arith>(
    a: &A,
    v: Seq<Seq<A::T>>,
    fs: [usize; 4],
    m: HTDemucs<A::T>,
    outs: Seq<GpuTensor>,
) -> bool {
    &&& forall|k: int|
        #![trigger outs[k]]
        0 <= k < outs.len() ==> {
            &&& meaning::holds(v, outs[k])
            &&& outs[k].rank == 4
            &&& meaning::axes4(outs[k]) == encoder::freq_chain_shape(fs, m.encoders@, k + 1)
        }
    &&& forall|k: int|
        #![trigger m.encoders@[k]]
        1 <= k < outs.len() ==> encoder::is_henc(
            a,
            meaning::at(v, outs[k - 1]),
            encoder::freq_chain_shape(fs, m.encoders@, k),
            &m.encoders@[k],
            meaning::at(v, outs[k]),
        )
}

/// The list holds what the layers of the time encoder make, each of the one before.
#[verifier::opaque]
pub open spec fn are_time_outs<A: Arith>(
    a: &A,
    v: Seq<Seq<A::T>>,
    time: GpuTensor,
    ts: [usize; 3],
    m: HTDemucs<A::T>,
    outs: Seq<GpuTensor>,
) -> bool {
    &&& forall|k: int|
        #![trigger outs[k]]
        0 <= k < outs.len() ==> {
            &&& meaning::holds(v, outs[k])
            &&& outs[k].rank == 3
            &&& meaning::axes3(outs[k]) == forward::time_chain_shape(ts, m.tencoders@, k + 1)
        }
    &&& forall|k: int|
        #![trigger m.tencoders@[k]]
        0 <= k < outs.len() ==> encoder::is_tenc(
            a,
            meaning::at(v, gpu_forward::enters(time, outs, k)),
            forward::time_chain_shape(ts, m.tencoders@, k),
            &m.tencoders@[k],
            meaning::at(v, outs[k]),
        )
}

/// One more layer of the frequency encoder.
proof fn lemma_freq_out<A: Arith>(
    a: &A,
    v: Seq<Seq<A::T>>,
    fs: [usize; 4],
    m: HTDemucs<A::T>,
    outs: Seq<GpuTensor>,
    t: GpuTensor,
)
    requires
        are_freq_outs(a, v, fs, m, outs),
        outs.len() > 0,
        meaning::holds(v, t),
        t.rank == 4,
        meaning::axes4(t) == encoder::freq_chain_shape(fs, m.encoders@, outs.len() as int + 1),
        encoder::is_henc(
            a,
            meaning::at(v, outs.last()),
            encoder::freq_chain_shape(fs, m.encoders@, outs.len() as int),
            &m.encoders@[outs.len() as int],
            meaning::at(v, t),
        ),
    ensures
        are_freq_outs(a, v, fs, m, outs.push(t)),
{
    reveal(are_freq_outs);
    let more = outs.push(t);
    assert forall|k: int|
        #![trigger more[k]]
        0 <= k < more.len() implies {
        &&& meaning::holds(v, more[k])
        &&& more[k].rank == 4
        &&& meaning::axes4(more[k]) == encoder::freq_chain_shape(fs, m.encoders@, k + 1)
    } by {
        if k < outs.len() {
            assert(more[k] == outs[k]);
        }
    }
    assert forall|k: int|
        #![trigger m.encoders@[k]]
        1 <= k < more.len() implies encoder::is_henc(
        a,
        meaning::at(v, more[k - 1]),
        encoder::freq_chain_shape(fs, m.encoders@, k),
        &m.encoders@[k],
        meaning::at(v, more[k]),
    ) by {
        assert(more[k - 1] == outs[k - 1]);
        if k < outs.len() {
            assert(more[k] == outs[k]);
        }
    }
}

/// One more layer of the time encoder.
proof fn lemma_time_out<A: Arith>(
    a: &A,
    v: Seq<Seq<A::T>>,
    time: GpuTensor,
    ts: [usize; 3],
    m: HTDemucs<A::T>,
    outs: Seq<GpuTensor>,
    t: GpuTensor,
)
    requires
        are_time_outs(a, v, time, ts, m, outs),
        meaning::holds(v, t),
        t.rank == 3,
        meaning::axes3(t) == forward::time_chain_shape(ts, m.tencoders@, outs.len() as int + 1),
        encoder::is_tenc(
            a,
            meaning::at(v, gpu_forward::enters(time, outs, outs.len() as int)),
            forward::time_chain_shape(ts, m.tencoders@, outs.len() as int),
            &m.tencoders@[outs.len() as int],
            meaning::at(v, t),
        ),
    ensures
        are_time_outs(a, v, time, ts, m, outs.push(t)),
{
    reveal(are_time_outs);
    let more = outs.push(t);
    assert forall|k: int|
        #![trigger more[k]]
        0 <= k < more.len() implies {
        &&& meaning::holds(v, more[k])
        &&& more[k].rank == 3
        &&& meaning::axes3(more[k]) == forward::time_chain_shape(ts, m.tencoders@, k + 1)
    } by {
        if k < outs.len() {
            assert(more[k] == outs[k]);
        }
    }
    assert forall|k: int|
        #![trigger m.tencoders@[k]]
        0 <= k < more.len() implies encoder::is_tenc(
        a,
        meaning::at(v, gpu_forward::enters(time, more, k)),
        forward::time_chain_shape(ts, m.tencoders@, k),
        &m.tencoders@[k],
        meaning::at(v, more[k]),
    ) by {
        assert(gpu_forward::enters(time, more, k) == gpu_forward::enters(time, outs, k));
        if k < outs.len() {
            assert(more[k] == outs[k]);
        }
    }
}

/// A list of results is among the values.
pub open spec fn went_list(
    whole: Seq<Step>,
    s: Seq<Step>,
    b: crate::gpu_tensor::Built<Seq<GpuTensor>>,
) -> bool {
    &&& program::extends(s, b->Ok_0.0)
    &&& program::extends(s, whole)
}

/// The layers of the frequency encoder from the one at `i` on are those of the processor.
proof fn encode_from_means<A: Arith>(
    a: &A,
    whole: Seq<Step>,
    v: Seq<Seq<A::T>>,
    s: Seq<Step>,
    outs: Seq<GpuTensor>,
    g: GpuHTDemucs,
    i: int,
    m: HTDemucs<A::T>,
    fs: [usize; 4],
)
    requires
        meaning::unrounded(a),
        meaning::has_zero(a),
        meaning::runs(a, whole, v, gpu_forward::encode_steps_from(s, outs, g.encoders@, i)),
        program::extends(s, whole),
        weights::holds_model(v, g, m),
        weights::pointwise(m),
        1 <= i <= m.encoders@.len(),
        outs.len() == i,
        are_freq_outs(a, v, fs, m, outs),
        encoder::freq_chain_ok(
            index::size4(fs),
            fs,
            m.encoders@,
            m.encoders@.len() as int,
            &m.freq_emb,
        ),
    ensures
        went_list(whole, s, gpu_forward::encode_steps_from(s, outs, g.encoders@, i)),
        ({
            let r = gpu_forward::encode_steps_from(s, outs, g.encoders@, i)->Ok_0.1;
            &&& r.len() == m.encoders@.len()
            &&& r[0] == outs[0]
            &&& are_freq_outs(a, v, fs, m, r)
        }),
    decreases m.encoders@.len() - i,
{
    growth::encode_grows(s, outs, g.encoders@, i);
    assert(g.encoders@.len() == m.encoders@.len()) by {
        reveal(weights::holds_model);
    }
    if i < m.encoders@.len() {
        let x = outs.last();
        let b1 = gpu_layers::henc_layer_steps(s, x, g.encoders@[i]);
        let (s1, t) = b1->Ok_0;
        let b2 = gpu_forward::encode_steps_from(s1, outs.push(t), g.encoders@, i + 1);
        growth::encode_grows(s1, outs.push(t), g.encoders@, i + 1);
        growth::lemma_inside(s1, b2->Ok_0.0, whole);
        let layer = m.encoders@[i];
        assert(weights::holds_henc(v, g.encoders@[i], layer)) by {
            reveal(weights::holds_model);
        }
        assert(weights::dconv_pointwise(layer.dconv)) by {
            reveal(weights::pointwise);
        }
        assert(meaning::holds(
            v,
            x,
        ) && x.rank == 4 && meaning::axes4(x) == encoder::freq_chain_shape(fs, m.encoders@, i)) by {
            reveal(are_freq_outs);
            assert(outs[i - 1] == x);
        }
        assert(encoder::henc_ok(index::size4(meaning::axes4(x)), meaning::axes4(x), &layer)) by {
            reveal(encoder::freq_chain_ok);
        }
        layers::henc_means(a, whole, v, s, x, g.encoders@[i], &layer);
        lemma_freq_out(a, v, fs, m, outs, t);
        encode_from_means(a, whole, v, s1, outs.push(t), g, i + 1, m, fs);
        assert(outs.push(t)[0] == outs[0]);
    }
}

/// The embedding of the device is the one of the processor.
proof fn lemma_embedded<A: Arith>(
    a: &A,
    x: Seq<A::T>,
    e: [usize; 4],
    emb: &crate::model::FreqEmb<A::T>,
    out: Seq<A::T>,
)
    requires
        emb.dim == e[1],
        meaning::is_embedding_added(
            a,
            x,
            e[1] as int,
            e[2] as int,
            e[3] as int,
            emb.data@,
            Factor::EmbeddingScale,
            out,
        ),
    ensures
        encoder::is_embedded(a, x, e, emb, out),
{
    reveal(encoder::is_embedded);
    assert forall|v: A::T, w: A::T, r: A::T| #[trigger]
        meaning::is_scaled_sum(a, v, w, Factor::EmbeddingScale, r)
        implies encoder::is_embedded_value(a, v, w, r) by {}
}

/// The frequency encoder is the one of the processor.
#[verifier::spinoff_prover]
proof fn encode_freq_means<A: Arith>(
    a: &A,
    whole: Seq<Step>,
    v: Seq<Seq<A::T>>,
    s: Seq<Step>,
    freq: GpuTensor,
    g: GpuHTDemucs,
    m: HTDemucs<A::T>,
) -> (h: Seq<A::T>)
    requires
        meaning::unrounded(a),
        meaning::has_zero(a),
        meaning::runs(a, whole, v, gpu_forward::encode_freq_steps(s, freq, g)),
        meaning::holds(v, freq),
        freq.rank == 4,
        weights::holds_model(v, g, m),
        weights::pointwise(m),
        encoder::freq_chain_ok(
            index::size4(meaning::axes4(freq)),
            meaning::axes4(freq),
            m.encoders@,
            m.encoders@.len() as int,
            &m.freq_emb,
        ),
        m.freq_emb.dim == encoder::freq_chain_shape(meaning::axes4(freq), m.encoders@, 1)[1],
    ensures
        went_list(whole, s, gpu_forward::encode_freq_steps(s, freq, g)),
        ({
            let r = gpu_forward::encode_freq_steps(s, freq, g)->Ok_0.1;
            let fs = meaning::axes4(freq);
            &&& r.len() == m.encoders@.len()
            &&& are_freq_outs(a, v, fs, m, r)
            &&& encoder::are_freq_outputs(
                a,
                meaning::at(v, freq),
                fs,
                m.encoders@,
                &m.freq_emb,
                contents(v, r),
            )
        }),
{
    growth::encode_freq_grows(s, freq, g);
    let fs = meaning::axes4(freq);
    let n = m.encoders@.len() as int;
    assert(1 <= n) by {
        reveal(encoder::freq_chain_ok);
    }
    let layer = m.encoders@[0];
    assert(weights::holds_henc(
        v,
        g.encoders@[0],
        layer,
    ) && v[g.freq_emb.data.id as int] == m.freq_emb.data@) by {
        reveal(weights::holds_model);
    }
    assert(weights::dconv_pointwise(layer.dconv)) by {
        reveal(weights::pointwise);
    }
    assert(encoder::henc_ok(index::size4(fs), fs, &layer)) by {
        reveal(encoder::freq_chain_ok);
    }
    let b1 = gpu_layers::henc_layer_steps(s, freq, g.encoders@[0]);
    growth::henc_grows(s, freq, g.encoders@[0]);
    let (s1, h1) = b1->Ok_0;
    let b2 = elementwise::add_freq_emb_steps(s1, h1, g.freq_emb, Factor::EmbeddingScale);
    let (s2, h2) = b2->Ok_0;
    let b3 = gpu_forward::encode_steps_from(s2, seq![h2], g.encoders@, 1);
    growth::encode_grows(s2, seq![h2], g.encoders@, 1);
    growth::lemma_inside(s2, b3->Ok_0.0, whole);
    growth::lemma_inside(s1, b2->Ok_0.0, whole);
    layers::henc_means(a, whole, v, s, freq, g.encoders@[0], &layer);
    operators::add_freq_emb_means(a, whole, v, s1, h1, g.freq_emb, Factor::EmbeddingScale);
    let e = encoder::freq_chain_shape(fs, m.encoders@, 1);
    assert(encoder::freq_chain_shape(fs, m.encoders@, 0) == fs);
    assert(meaning::axes4(h1) == e);
    assert(e[1] == h1.d1 && e[2] == h1.d2 && e[3] == h1.d3);
    lemma_embedded(a, meaning::at(v, h1), e, &m.freq_emb, meaning::at(v, h2));
    assert(are_freq_outs(a, v, fs, m, seq![h2])) by {
        reveal(are_freq_outs);
    }
    encode_from_means(a, whole, v, s2, seq![h2], g, 1, m, fs);
    let r = b3->Ok_0.1;
    let outs = contents(v, r);
    assert(encoder::are_freq_outputs(
        a,
        meaning::at(v, freq),
        fs,
        m.encoders@,
        &m.freq_emb,
        outs,
    )) by {
        reveal(are_freq_outs);
        assert(outs[0] == meaning::at(v, h2));
        assert(encoder::is_henc(a, meaning::at(v, freq), fs, &m.encoders@[0], meaning::at(v, h1)));
    }
    meaning::at(v, h1)
}

/// The layers of the time encoder from the one at `i` on are those of the processor.
proof fn encode_time_from_means<A: Arith>(
    a: &A,
    whole: Seq<Step>,
    v: Seq<Seq<A::T>>,
    s: Seq<Step>,
    time: GpuTensor,
    outs: Seq<GpuTensor>,
    g: GpuHTDemucs,
    n: int,
    i: int,
    m: HTDemucs<A::T>,
)
    requires
        meaning::unrounded(a),
        meaning::has_zero(a),
        meaning::runs(
            a,
            whole,
            v,
            gpu_forward::encode_time_steps_from(s, time, outs, g.tencoders@, n, i),
        ),
        program::extends(s, whole),
        meaning::holds(v, time),
        time.rank == 3,
        weights::holds_model(v, g, m),
        weights::pointwise(m),
        0 <= i <= n <= m.tencoders@.len(),
        outs.len() == i,
        are_time_outs(a, v, time, meaning::axes3(time), m, outs),
        forward::time_chain_ok(
            index::size3(meaning::axes3(time)),
            meaning::axes3(time),
            m.tencoders@,
            n,
        ),
    ensures
        went_list(whole, s, gpu_forward::encode_time_steps_from(s, time, outs, g.tencoders@, n, i)),
        ({
            let r = gpu_forward::encode_time_steps_from(s, time, outs, g.tencoders@, n, i)->Ok_0.1;
            &&& r.len() == n
            &&& are_time_outs(a, v, time, meaning::axes3(time), m, r)
        }),
    decreases n - i,
{
    growth::encode_time_grows(s, time, outs, g.tencoders@, n, i);
    if i < n {
        let ts = meaning::axes3(time);
        let x = gpu_forward::enters(time, outs, i);
        let b1 = gpu_layers::tenc_layer_steps(s, x, g.tencoders@[i]);
        let (s1, t) = b1->Ok_0;
        let b2 = gpu_forward::encode_time_steps_from(
            s1,
            time,
            outs.push(t),
            g.tencoders@,
            n,
            i + 1,
        );
        growth::encode_time_grows(s1, time, outs.push(t), g.tencoders@, n, i + 1);
        growth::lemma_inside(s1, b2->Ok_0.0, whole);
        let layer = m.tencoders@[i];
        assert(weights::holds_tenc(v, g.tencoders@[i], layer)) by {
            reveal(weights::holds_model);
        }
        assert(weights::dconv_pointwise(layer.dconv)) by {
            reveal(weights::pointwise);
        }
        assert(meaning::holds(
            v,
            x,
        ) && x.rank == 3
            && meaning::axes3(x) == forward::time_chain_shape(ts, m.tencoders@, i)) by {
            reveal(are_time_outs);
            if i > 0 {
                assert(outs[i - 1] == x);
            }
        }
        assert(encoder::tenc_ok(index::size3(meaning::axes3(x)), meaning::axes3(x), &layer)) by {
            reveal(forward::time_chain_ok);
        }
        layers::tenc_means(a, whole, v, s, x, g.tencoders@[i], &layer);
        lemma_time_out(a, v, time, ts, m, outs, t);
        encode_time_from_means(a, whole, v, s1, time, outs.push(t), g, n, i + 1, m);
    }
}

/// The values between layers of the frequency decoder from the one at `i` on.
spec fn are_freq_decoded_from<A: Arith>(
    a: &A,
    x: Seq<A::T>,
    e: [usize; 4],
    fs: [usize; 4],
    m: HTDemucs<A::T>,
    skips: Seq<Seq<A::T>>,
    i: int,
    vals: Seq<Seq<A::T>>,
) -> bool {
    forall|j: int|
        #![trigger m.decoders@[j]]
        i <= j < i + vals.len() ==> decoder::is_hdec(
            a,
            if j == i {
                x
            } else {
                vals[j - 1 - i]
            },
            forward::freq_decoded_shape(e, fs, m.encoders@, m.decoders@, skips.len() as int, j),
            skips[skips.len() - 1 - j],
            forward::freq_target(fs, m.encoders@, skips.len() as int, j),
            &m.decoders@[j],
            vals[j - i],
        )
}

/// One more layer before.
proof fn lemma_freq_decoded_before<A: Arith>(
    a: &A,
    x: Seq<A::T>,
    e: [usize; 4],
    fs: [usize; 4],
    m: HTDemucs<A::T>,
    skips: Seq<Seq<A::T>>,
    i: int,
    y: Seq<A::T>,
    rest: Seq<Seq<A::T>>,
)
    requires
        decoder::is_hdec(
            a,
            x,
            forward::freq_decoded_shape(e, fs, m.encoders@, m.decoders@, skips.len() as int, i),
            skips[skips.len() - 1 - i],
            forward::freq_target(fs, m.encoders@, skips.len() as int, i),
            &m.decoders@[i],
            y,
        ),
        are_freq_decoded_from(a, y, e, fs, m, skips, i + 1, rest),
    ensures
        are_freq_decoded_from(a, x, e, fs, m, skips, i, seq![y] + rest),
{
    let vals = seq![y] + rest;
    assert forall|j: int|
        #![trigger m.decoders@[j]]
        i <= j < i + vals.len() implies decoder::is_hdec(
        a,
        if j == i {
            x
        } else {
            vals[j - 1 - i]
        },
        forward::freq_decoded_shape(e, fs, m.encoders@, m.decoders@, skips.len() as int, j),
        skips[skips.len() - 1 - j],
        forward::freq_target(fs, m.encoders@, skips.len() as int, j),
        &m.decoders@[j],
        vals[j - i],
    ) by {
        if j > i {
            assert(vals[j - i] == rest[j - (i + 1)]);
            if j > i + 1 {
                assert(vals[j - 1 - i] == rest[j - 1 - (i + 1)]);
            }
        }
    }
}

/// The layers of the frequency decoder from the one at `i` on are those of the processor.
#[verifier::spinoff_prover]
proof fn decode_from_means<A: Arith>(
    a: &A,
    whole: Seq<Step>,
    v: Seq<Seq<A::T>>,
    s: Seq<Step>,
    x: GpuTensor,
    outs: Seq<GpuTensor>,
    g: GpuHTDemucs,
    i: int,
    m: HTDemucs<A::T>,
    e: [usize; 4],
    fs: [usize; 4],
) -> (vals: Seq<Seq<A::T>>)
    requires
        meaning::unrounded(a),
        meaning::runs(a, whole, v, gpu_forward::decode_steps_from(s, x, outs, g.decoders@, i)),
        program::extends(s, whole),
        meaning::holds(v, x),
        x.rank == 4,
        weights::holds_model(v, g, m),
        weights::pointwise(m),
        0 <= i <= outs.len(),
        outs.len() == m.encoders@.len(),
        outs.len() <= m.decoders@.len(),
        are_freq_outs(a, v, fs, m, outs),
        forward::freq_decode_ok(e, fs, m.encoders@, m.decoders@, outs.len() as int),
        meaning::axes4(x) == forward::freq_decoded_shape(
            e,
            fs,
            m.encoders@,
            m.decoders@,
            outs.len() as int,
            i,
        ),
    ensures
        meaning::went(whole, v, s, gpu_forward::decode_steps_from(s, x, outs, g.decoders@, i)),
        vals.len() == outs.len() - i,
        are_freq_decoded_from(a, meaning::at(v, x), e, fs, m, contents(v, outs), i, vals),
        ({
            let r = gpu_forward::decode_steps_from(s, x, outs, g.decoders@, i)->Ok_0.1;
            &&& r.rank == 4
            &&& meaning::axes4(r) == forward::freq_decoded_shape(
                e,
                fs,
                m.encoders@,
                m.decoders@,
                outs.len() as int,
                outs.len() as int,
            )
            &&& meaning::at(v, r) == if vals.len() == 0 { meaning::at(v, x) } else { vals.last() }
        }),
    decreases outs.len() - i,
{
    growth::decode_grows(s, x, outs, g.decoders@, i);
    let n = outs.len() as int;
    if i == n {
        seq![]
    } else {
        let skip = outs[n - 1 - i];
        let target = gpu_forward::freq_target(outs, i);
        let b1 = gpu_layers::hdec_layer_steps(s, x, skip, target, g.decoders@[i]);
        let (s1, y) = b1->Ok_0;
        let b2 = gpu_forward::decode_steps_from(s1, y, outs, g.decoders@, i + 1);
        growth::decode_grows(s1, y, outs, g.decoders@, i + 1);
        growth::lemma_inside(s1, b2->Ok_0.0, whole);
        let layer = m.decoders@[i];
        assert(weights::holds_hdec(v, g.decoders@[i], layer)) by {
            reveal(weights::holds_model);
        }
        assert(weights::dconv_pointwise(layer.dconv)) by {
            reveal(weights::pointwise);
        }
        assert(meaning::holds(
            v,
            skip,
        ) && skip.rank == 4
            && meaning::axes4(skip) == encoder::freq_chain_shape(fs, m.encoders@, n - i)) by {
            reveal(are_freq_outs);
            assert(n - 1 - i + 1 == n - i);
        }
        assert(target == forward::freq_target(fs, m.encoders@, n, i) && target > 0) by {
            reveal(are_freq_outs);
            if i + 1 < n {
                let t = outs[n - 2 - i];
                assert(n - 2 - i + 1 == n - 1 - i);
                assert(meaning::axes4(t)[2] == t.d2);
                assert(t.d2 > 0) by (nonlinear_arith)
                    requires
                        t.d0 * t.d1 * t.d2 * t.d3 > 0,
                ;
            }
        }
        assert(decoder::hdec_ok(
            index::size4(meaning::axes4(x)),
            meaning::axes4(x),
            index::size4(meaning::axes4(skip)),
            meaning::axes4(skip),
            &layer,
        )) by {
            reveal(forward::freq_decode_ok);
        }
        layers::hdec_means(a, whole, v, s, x, skip, target, g.decoders@[i], &layer);
        assert(forward::freq_decoded_shape(
            e,
            fs,
            m.encoders@,
            m.decoders@,
            n,
            i + 1,
        ) == meaning::axes4(y));
        let rest = decode_from_means(a, whole, v, s1, y, outs, g, i + 1, m, e, fs);
        assert(contents(v, outs)[n - 1 - i] == meaning::at(v, skip));
        lemma_freq_decoded_before(
            a,
            meaning::at(v, x),
            e,
            fs,
            m,
            contents(v, outs),
            i,
            meaning::at(v, y),
            rest,
        );
        seq![meaning::at(v, y)] + rest
    }
}

/// The values between layers of the time decoder from the one at `i` on.
spec fn are_time_decoded_from<A: Arith>(
    a: &A,
    x: Seq<A::T>,
    e: [usize; 3],
    ts: [usize; 3],
    m: HTDemucs<A::T>,
    skips: Seq<Seq<A::T>>,
    i: int,
    vals: Seq<Seq<A::T>>,
) -> bool {
    forall|j: int|
        #![trigger m.tdecoders@[j]]
        i <= j < i + vals.len() ==> decoder::is_tdec(
            a,
            if j == i {
                x
            } else {
                vals[j - 1 - i]
            },
            forward::time_decoded_shape(e, ts, m.tencoders@, m.tdecoders@, skips.len() as int, j),
            skips[skips.len() - 1 - j],
            forward::time_chain_shape(ts, m.tencoders@, skips.len() - j),
            forward::time_target(ts, m.tencoders@, skips.len() as int, j),
            &m.tdecoders@[j],
            vals[j - i],
        )
}

/// One more layer before.
proof fn lemma_time_decoded_before<A: Arith>(
    a: &A,
    x: Seq<A::T>,
    e: [usize; 3],
    ts: [usize; 3],
    m: HTDemucs<A::T>,
    skips: Seq<Seq<A::T>>,
    i: int,
    y: Seq<A::T>,
    rest: Seq<Seq<A::T>>,
)
    requires
        decoder::is_tdec(
            a,
            x,
            forward::time_decoded_shape(e, ts, m.tencoders@, m.tdecoders@, skips.len() as int, i),
            skips[skips.len() - 1 - i],
            forward::time_chain_shape(ts, m.tencoders@, skips.len() - i),
            forward::time_target(ts, m.tencoders@, skips.len() as int, i),
            &m.tdecoders@[i],
            y,
        ),
        are_time_decoded_from(a, y, e, ts, m, skips, i + 1, rest),
    ensures
        are_time_decoded_from(a, x, e, ts, m, skips, i, seq![y] + rest),
{
    let vals = seq![y] + rest;
    assert forall|j: int|
        #![trigger m.tdecoders@[j]]
        i <= j < i + vals.len() implies decoder::is_tdec(
        a,
        if j == i {
            x
        } else {
            vals[j - 1 - i]
        },
        forward::time_decoded_shape(e, ts, m.tencoders@, m.tdecoders@, skips.len() as int, j),
        skips[skips.len() - 1 - j],
        forward::time_chain_shape(ts, m.tencoders@, skips.len() - j),
        forward::time_target(ts, m.tencoders@, skips.len() as int, j),
        &m.tdecoders@[j],
        vals[j - i],
    ) by {
        if j > i {
            assert(vals[j - i] == rest[j - (i + 1)]);
            if j > i + 1 {
                assert(vals[j - 1 - i] == rest[j - 1 - (i + 1)]);
            }
        }
    }
}

/// What a layer of the time decoder takes has as many channels as its skip connection.
#[verifier::opaque]
pub open spec fn time_mirrored<T>(e: [usize; 3], ts: [usize; 3], m: HTDemucs<T>, n: int) -> bool {
    forall|i: int|
        #![trigger m.tdecoders@[i]]
        0 <= i < n ==> {
            let x = forward::time_decoded_shape(e, ts, m.tencoders@, m.tdecoders@, n, i);
            let skip = forward::time_chain_shape(ts, m.tencoders@, n - i);
            &&& x[0] == skip[0]
            &&& x[1] == skip[1]
            &&& m.tdecoders@[i].conv_tr.out_ch > 0
        }
}

/// The layers of the time decoder from the one at `i` on are those of the processor.
#[verifier::spinoff_prover]
proof fn decode_time_from_means<A: Arith>(
    a: &A,
    whole: Seq<Step>,
    v: Seq<Seq<A::T>>,
    s: Seq<Step>,
    x: GpuTensor,
    time: GpuTensor,
    outs: Seq<GpuTensor>,
    g: GpuHTDemucs,
    i: int,
    m: HTDemucs<A::T>,
    e: [usize; 3],
) -> (vals: Seq<Seq<A::T>>)
    requires
        meaning::unrounded(a),
        meaning::runs(
            a,
            whole,
            v,
            gpu_forward::decode_time_steps_from(s, x, time, outs, g.tdecoders@, i),
        ),
        program::extends(s, whole),
        meaning::holds(v, x),
        meaning::holds(v, time),
        x.rank == 3,
        time.rank == 3,
        weights::holds_model(v, g, m),
        weights::pointwise(m),
        0 <= i <= outs.len(),
        outs.len() <= m.tdecoders@.len(),
        are_time_outs(a, v, time, meaning::axes3(time), m, outs),
        forward::time_decode_ok(
            e,
            meaning::axes3(time),
            m.tencoders@,
            m.tdecoders@,
            outs.len() as int,
        ),
        time_mirrored(e, meaning::axes3(time), m, outs.len() as int),
        meaning::axes3(x) == forward::time_decoded_shape(
            e,
            meaning::axes3(time),
            m.tencoders@,
            m.tdecoders@,
            outs.len() as int,
            i,
        ),
    ensures
        meaning::went(
            whole,
            v,
            s,
            gpu_forward::decode_time_steps_from(s, x, time, outs, g.tdecoders@, i),
        ),
        vals.len() == outs.len() - i,
        are_time_decoded_from(
            a,
            meaning::at(v, x),
            e,
            meaning::axes3(time),
            m,
            contents(v, outs),
            i,
            vals,
        ),
        ({
            let r = gpu_forward::decode_time_steps_from(s, x, time, outs, g.tdecoders@, i)->Ok_0.1;
            &&& r.rank == 3
            &&& meaning::axes3(r) == forward::time_decoded_shape(
                e,
                meaning::axes3(time),
                m.tencoders@,
                m.tdecoders@,
                outs.len() as int,
                outs.len() as int,
            )
            &&& meaning::at(v, r) == if vals.len() == 0 { meaning::at(v, x) } else { vals.last() }
        }),
    decreases outs.len() - i,
{
    growth::decode_time_grows(s, x, time, outs, g.tdecoders@, i);
    let n = outs.len() as int;
    let ts = meaning::axes3(time);
    if i == n {
        seq![]
    } else {
        let skip = outs[n - 1 - i];
        let entry = gpu_forward::enters(time, outs, n - 1 - i);
        let target = entry.d2;
        let b1 = gpu_layers::tdec_layer_steps(s, x, skip, target, g.tdecoders@[i]);
        let (s1, y) = b1->Ok_0;
        let b2 = gpu_forward::decode_time_steps_from(s1, y, time, outs, g.tdecoders@, i + 1);
        growth::decode_time_grows(s1, y, time, outs, g.tdecoders@, i + 1);
        growth::lemma_inside(s1, b2->Ok_0.0, whole);
        let layer = m.tdecoders@[i];
        assert(weights::holds_tdec(v, g.tdecoders@[i], layer)) by {
            reveal(weights::holds_model);
        }
        assert(weights::dconv_pointwise(layer.dconv)) by {
            reveal(weights::pointwise);
        }
        assert(meaning::holds(
            v,
            skip,
        ) && skip.rank == 3
            && meaning::axes3(skip) == forward::time_chain_shape(ts, m.tencoders@, n - i)) by {
            reveal(are_time_outs);
            assert(n - 1 - i + 1 == n - i);
        }
        assert(target == forward::time_target(ts, m.tencoders@, n, i) && target > 0) by {
            reveal(are_time_outs);
            if i + 1 < n {
                let t = outs[n - 2 - i];
                assert(n - 2 - i + 1 == n - 1 - i);
                assert(t == entry);
            }
            assert(meaning::axes3(entry)[2] == entry.d2);
            assert(entry.d2 > 0) by (nonlinear_arith)
                requires
                    entry.d0 * entry.d1 * entry.d2 > 0,
            ;
        }
        assert(decoder::tdec_ok(
            index::size3(meaning::axes3(x)),
            meaning::axes3(x),
            index::size3(meaning::axes3(skip)),
            meaning::axes3(skip),
            &layer,
        )) by {
            reveal(forward::time_decode_ok);
        }
        assert(skip.d0 == x.d0 && skip.d1 == x.d1 && layer.conv_tr.out_ch > 0) by {
            reveal(time_mirrored);
            let h = meaning::axes3(x);
            let k = meaning::axes3(skip);
            assert(h[0] == x.d0 && h[1] == x.d1 && k[0] == skip.d0 && k[1] == skip.d1);
        }
        layers::tdec_means(a, whole, v, s, x, skip, target, g.tdecoders@[i], &layer);
        assert(forward::time_decoded_shape(
            e,
            ts,
            m.tencoders@,
            m.tdecoders@,
            n,
            i + 1,
        ) == meaning::axes3(y));
        let rest = decode_time_from_means(a, whole, v, s1, y, time, outs, g, i + 1, m, e);
        assert(contents(v, outs)[n - 1 - i] == meaning::at(v, skip));
        lemma_time_decoded_before(
            a,
            meaning::at(v, x),
            e,
            ts,
            m,
            contents(v, outs),
            i,
            meaning::at(v, y),
            rest,
        );
        seq![meaning::at(v, y)] + rest
    }
}

/// The network on standardized inputs, as the processor runs it.
#[verifier::opaque]
pub open spec fn is_core<A: Arith>(
    a: &A,
    fin: Seq<A::T>,
    fs: [usize; 4],
    tin: Seq<A::T>,
    ts: [usize; 3],
    m: &HTDemucs<A::T>,
    fout: Seq<A::T>,
    tout: Seq<A::T>,
) -> bool {
    let n = m.encoders@.len() as int;
    let f = encoder::freq_chain_shape(fs, m.encoders@, n);
    let t = forward::time_chain_shape(ts, m.tencoders@, n);
    exists|fskips: Seq<Seq<A::T>>, tskips: Seq<Seq<A::T>>, fmid: Seq<A::T>, tmid: Seq<A::T>|
        {
            &&& fskips.len() == n
            &&& tskips.len() == n
            &&& #[trigger] encoder::are_freq_outputs(a, fin, fs, m.encoders@, &m.freq_emb, fskips)
            &&& #[trigger] forward::are_time_outputs(a, tin, ts, m.tencoders@, tskips)
            &&& #[trigger] transformer::is_cross_domain(
                a,
                fskips[n - 1],
                f,
                tskips[n - 1],
                t,
                &m.crosstransformer,
                fmid,
                tmid,
            )
            &&& forward::is_freq_decoded(
                a,
                fmid,
                transformer::freq_out_shape(f, &m.crosstransformer),
                fs,
                m.encoders@,
                fskips,
                m.decoders@,
                fout,
            )
            &&& forward::is_time_decoded(
                a,
                tmid,
                transformer::time_out_shape(t, &m.crosstransformer),
                ts,
                m.tencoders@,
                tskips,
                m.tdecoders@,
                tout,
            )
        }
}

/// The processor accepts the inputs, and the parts of the model fit each other exactly.
#[verifier::opaque]
pub open spec fn model_fits<T>(fs: [usize; 4], ts: [usize; 3], m: HTDemucs<T>) -> bool {
    let n = m.encoders@.len() as int;
    let f = encoder::freq_chain_shape(fs, m.encoders@, n);
    let t = forward::time_chain_shape(ts, m.tencoders@, n);
    &&& forward::forward_ok(index::size4(fs), fs, index::size3(ts), ts, &m)
    &&& sequences::fits_exactly(f, t, &m.crosstransformer)
    &&& m.freq_emb.dim == encoder::freq_chain_shape(fs, m.encoders@, 1)[1]
    &&& time_mirrored(transformer::time_out_shape(t, &m.crosstransformer), ts, m, n)
    &&& weights::pointwise(m)
}

/// What goes to the device is among the values: the weights, the tables and the inputs.
#[verifier::opaque]
pub open spec fn supplied<T>(
    whole: Seq<Step>,
    v: Seq<Seq<T>>,
    arrays: Seq<Seq<T>>,
    freq_table: Seq<T>,
    time_table: Seq<T>,
    freq: Seq<T>,
    time: Seq<T>,
) -> bool {
    forall|i: int|
        #![trigger whole[i]]
        0 <= i < whole.len() ==> match whole[i] {
            Step::Upload { slot, len } => v[i] == arrays[slot as int],
            Step::Table { slot, len } => v[i] == if slot == 0 {
                freq_table
            } else {
                time_table
            },
            Step::Input { slot, len } => v[i] == if slot == 0 {
                freq
            } else {
                time
            },
            _ => true,
        }
}

/// What comes after the encoders is as on the processor.
#[verifier::spinoff_prover]
proof fn rest_means<A: Arith>(
    a: &A,
    whole: Seq<Step>,
    v: Seq<Seq<A::T>>,
    s: Seq<Step>,
    freq: GpuTensor,
    time: GpuTensor,
    fouts: Seq<GpuTensor>,
    touts: Seq<GpuTensor>,
    fpe: GpuTensor,
    tpe: GpuTensor,
    g: GpuHTDemucs,
    m: HTDemucs<A::T>,
)
    requires
        meaning::unrounded(a),
        meaning::has_zero(a),
        meaning::runs(a, whole, v, gpu_forward::rest_steps(s, time, fouts, touts, fpe, tpe, g)),
        program::extends(s, whole),
        meaning::holds(v, time),
        time.rank == 3,
        weights::holds_model(v, g, m),
        model_fits(meaning::axes4(freq), meaning::axes3(time), m),
        fouts.len() == m.encoders@.len(),
        touts.len() == m.encoders@.len(),
        fouts.len() > 0,
        are_freq_outs(a, v, meaning::axes4(freq), m, fouts),
        are_time_outs(a, v, time, meaning::axes3(time), m, touts),
        encoder::are_freq_outputs(
            a,
            meaning::at(v, freq),
            meaning::axes4(freq),
            m.encoders@,
            &m.freq_emb,
            contents(v, fouts),
        ),
        embedding::is_embed_2d(
            a,
            m.crosstransformer.norm_in.dim as int,
            fouts.last().d2 as int,
            fouts.last().d3 as int,
            meaning::at(v, fpe),
        ),
        embedding::is_embed_1d(
            a,
            touts.last().d2 as int,
            m.crosstransformer.norm_in.dim as int,
            meaning::at(v, tpe),
        ),
    ensures
        sequences::went_both(
            whole,
            v,
            s,
            gpu_forward::rest_steps(s, time, fouts, touts, fpe, tpe, g),
        ),
        ({
            let r = gpu_forward::rest_steps(s, time, fouts, touts, fpe, tpe, g)->Ok_0.1;
            let fs = meaning::axes4(freq);
            let ts = meaning::axes3(time);
            &&& r.0.rank == 4
            &&& r.1.rank == 3
            &&& meaning::axes4(r.0) == forward::forward_freq_shape(fs, &m)
            &&& meaning::axes3(r.1) == forward::forward_time_shape(ts, &m)
            &&& is_core(
                a,
                meaning::at(v, freq),
                fs,
                meaning::at(v, time),
                ts,
                &m,
                meaning::at(v, r.0),
                meaning::at(v, r.1),
            )
        }),
{
    reveal(gpu_forward::rest_steps);
    growth::rest_grows(s, time, fouts, touts, fpe, tpe, g);
    let fs = meaning::axes4(freq);
    let ts = meaning::axes3(time);
    let n = m.encoders@.len() as int;
    let f = encoder::freq_chain_shape(fs, m.encoders@, n);
    let t = forward::time_chain_shape(ts, m.tencoders@, n);
    let x = fouts.last();
    let y = touts.last();
    let ct = g.crosstransformer;
    let fe = transformer::freq_out_shape(f, &m.crosstransformer);
    let te = transformer::time_out_shape(t, &m.crosstransformer);
    let b1 = gpu_transformer::cross_domain_steps(s, x, y, ct, fpe, tpe);
    growth::cross_domain_grows(s, x, y, ct, fpe, tpe);
    let (s1, (fm, tm)) = b1->Ok_0;
    let b2 = gpu_forward::decode_steps_from(s1, fm, fouts, g.decoders@, 0);
    growth::decode_grows(s1, fm, fouts, g.decoders@, 0);
    let (s2, fo) = b2->Ok_0;
    let b3 = gpu_forward::decode_time_steps_from(s2, tm, time, touts, g.tdecoders@, 0);
    growth::decode_time_grows(s2, tm, time, touts, g.tdecoders@, 0);
    growth::lemma_inside(s2, b3->Ok_0.0, whole);
    growth::lemma_inside(s1, b2->Ok_0.0, whole);
    assert(meaning::holds(v, x) && x.rank == 4 && meaning::axes4(x) == f) by {
        reveal(are_freq_outs);
        assert(fouts[n - 1] == x);
    }
    assert(meaning::holds(v, y) && y.rank == 3 && meaning::axes3(y) == t) by {
        reveal(are_time_outs);
        assert(touts[n - 1] == y);
    }
    assert(weights::holds_transformer(v, ct, m.crosstransformer)) by {
        reveal(weights::holds_model);
    }
    assert(transformer::cross_domain_ok(
        index::size4(f),
        f,
        index::size3(t),
        t,
        &m.crosstransformer,
    ) && sequences::fits_exactly(f, t, &m.crosstransformer) && weights::pointwise(m)
        && time_mirrored(te, ts, m, n)) by {
        reveal(model_fits);
        reveal(forward::forward_ok);
    }
    assert(forward::freq_decode_ok(
        fe,
        fs,
        m.encoders@,
        m.decoders@,
        n,
    ) && forward::time_decode_ok(te, ts, m.tencoders@, m.tdecoders@, n)) by {
        reveal(model_fits);
        reveal(forward::forward_ok);
    }
    assert(n <= m.decoders@.len() && n <= m.tdecoders@.len()) by {
        reveal(forward::freq_decode_ok);
        reveal(forward::time_decode_ok);
    }
    sequences::cross_domain_means(a, whole, v, s, x, y, ct, fpe, tpe, &m.crosstransformer);
    let fvals = decode_from_means(a, whole, v, s1, fm, fouts, g, 0, m, fe, fs);
    let tvals = decode_time_from_means(a, whole, v, s2, tm, time, touts, g, 0, m, te);
    let fskips = contents(v, fouts);
    let tskips = contents(v, touts);
    assert(forward::is_freq_decoded(
        a,
        meaning::at(v, fm),
        fe,
        fs,
        m.encoders@,
        fskips,
        m.decoders@,
        meaning::at(v, fo),
    )) by {
        reveal(forward::is_freq_decoded);
        assert(forward::are_freq_decoded(
            a,
            meaning::at(v, fm),
            fe,
            fs,
            m.encoders@,
            fskips,
            m.decoders@,
            fvals,
        ));
    }
    let to = b3->Ok_0.1;
    assert(forward::is_time_decoded(
        a,
        meaning::at(v, tm),
        te,
        ts,
        m.tencoders@,
        tskips,
        m.tdecoders@,
        meaning::at(v, to),
    )) by {
        reveal(forward::is_time_decoded);
        assert(forward::are_time_decoded(
            a,
            meaning::at(v, tm),
            te,
            ts,
            m.tencoders@,
            tskips,
            m.tdecoders@,
            tvals,
        ));
    }
    assert(forward::are_time_outputs(a, meaning::at(v, time), ts, m.tencoders@, tskips)) by {
        reveal(are_time_outs);
        assert forall|i: int|
            #![trigger m.tencoders@[i]]
            0 <= i < tskips.len() implies encoder::is_tenc(
            a,
            if i == 0 {
                meaning::at(v, time)
            } else {
                tskips[i - 1]
            },
            forward::time_chain_shape(ts, m.tencoders@, i),
            &m.tencoders@[i],
            tskips[i],
        ) by {
            if i > 0 {
                assert(tskips[i - 1] == meaning::at(v, gpu_forward::enters(time, touts, i)));
            }
        }
    }
    assert(is_core(
        a,
        meaning::at(v, freq),
        fs,
        meaning::at(v, time),
        ts,
        &m,
        meaning::at(v, fo),
        meaning::at(v, to),
    )) by {
        reveal(is_core);
        assert(fskips[n - 1] == meaning::at(v, x));
        assert(tskips[n - 1] == meaning::at(v, y));
    }
}

/// The program of the network computes what the network computes on the processor.
#[verifier::spinoff_prover]
pub proof fn forward_means<A: Arith>(
    a: &A,
    whole: Seq<Step>,
    v: Seq<Seq<A::T>>,
    s: Seq<Step>,
    freq: GpuTensor,
    time: GpuTensor,
    g: GpuHTDemucs,
    m: HTDemucs<A::T>,
    arrays: Seq<Seq<A::T>>,
    freq_table: Seq<A::T>,
    time_table: Seq<A::T>,
    fin: Seq<A::T>,
    tin: Seq<A::T>,
)
    requires
        meaning::unrounded(a),
        meaning::has_zero(a),
        meaning::runs(a, whole, v, gpu_forward::forward_steps(s, freq, time, g)),
        meaning::holds(v, freq),
        meaning::holds(v, time),
        freq.rank == 4,
        time.rank == 3,
        weights::holds_model(v, g, m),
        model_fits(meaning::axes4(freq), meaning::axes3(time), m),
        supplied(whole, v, arrays, freq_table, time_table, fin, tin),
        gpu_forward::are_tables(a, s, freq, time, g, freq_table, time_table),
    ensures
        sequences::went_both(whole, v, s, gpu_forward::forward_steps(s, freq, time, g)),
        ({
            let r = gpu_forward::forward_steps(s, freq, time, g)->Ok_0.1;
            let fs = meaning::axes4(freq);
            let ts = meaning::axes3(time);
            &&& r.0.rank == 4
            &&& r.1.rank == 3
            &&& meaning::axes4(r.0) == forward::forward_freq_shape(fs, &m)
            &&& meaning::axes3(r.1) == forward::forward_time_shape(ts, &m)
            &&& is_core(
                a,
                meaning::at(v, freq),
                fs,
                meaning::at(v, time),
                ts,
                &m,
                meaning::at(v, r.0),
                meaning::at(v, r.1),
            )
        }),
{
    let fs = meaning::axes4(freq);
    let ts = meaning::axes3(time);
    let n = m.encoders@.len() as int;
    let d = g.crosstransformer.norm_in.dim;
    let b1 = gpu_forward::encoders_steps(s, freq, time, g);
    growth::encoders_grows(s, freq, time, g);
    let (s1, (fouts, touts)) = b1->Ok_0;
    let b2 = gpu_forward::tables_steps(s1, fouts, touts, d);
    growth::tables_grows(s1, fouts, touts, d);
    let (s2, (fpe, tpe)) = b2->Ok_0;
    let b3 = gpu_forward::rest_steps(s2, time, fouts, touts, fpe, tpe, g);
    growth::rest_grows(s2, time, fouts, touts, fpe, tpe, g);
    growth::lemma_inside(s2, b3->Ok_0.0, whole);
    growth::lemma_inside(s1, b2->Ok_0.0, whole);
    growth::lemma_inside(s, b1->Ok_0.0, whole);
    growth::lemma_link(s, s1, b2);
    growth::lemma_link(s, s2, b3);
    assert(encoder::freq_chain_ok(
        index::size4(fs),
        fs,
        m.encoders@,
        n,
        &m.freq_emb,
    ) && forward::time_chain_ok(index::size3(ts), ts, m.tencoders@, n) && weights::pointwise(m)
        && m.freq_emb.dim == encoder::freq_chain_shape(fs, m.encoders@, 1)[1]) by {
        reveal(model_fits);
        reveal(forward::forward_ok);
    }
    assert(1 <= n) by {
        reveal(encoder::freq_chain_ok);
    }
    assert(n <= m.tencoders@.len()) by {
        reveal(forward::time_chain_ok);
    }
    assert(g.encoders@.len() == n && d == m.crosstransformer.norm_in.dim) by {
        reveal(weights::holds_model);
        reveal(weights::holds_transformer);
    }
    encoders_mean(a, whole, v, s, freq, time, g, m);
    assert(meaning::at(v, fpe) == freq_table && meaning::at(v, tpe) == time_table) by {
        lemma_tables(a, whole, v, s1, fouts, touts, d, arrays, freq_table, time_table, fin, tin);
    }
    rest_means(a, whole, v, s2, freq, time, fouts, touts, fpe, tpe, g, m);
}

/// The encoders are those of the processor.
proof fn encoders_mean<A: Arith>(
    a: &A,
    whole: Seq<Step>,
    v: Seq<Seq<A::T>>,
    s: Seq<Step>,
    freq: GpuTensor,
    time: GpuTensor,
    g: GpuHTDemucs,
    m: HTDemucs<A::T>,
)
    requires
        meaning::unrounded(a),
        meaning::has_zero(a),
        meaning::runs(a, whole, v, gpu_forward::encoders_steps(s, freq, time, g)),
        meaning::holds(v, freq),
        meaning::holds(v, time),
        freq.rank == 4,
        time.rank == 3,
        weights::holds_model(v, g, m),
        weights::pointwise(m),
        encoder::freq_chain_ok(
            index::size4(meaning::axes4(freq)),
            meaning::axes4(freq),
            m.encoders@,
            m.encoders@.len() as int,
            &m.freq_emb,
        ),
        m.freq_emb.dim == encoder::freq_chain_shape(meaning::axes4(freq), m.encoders@, 1)[1],
        forward::time_chain_ok(
            index::size3(meaning::axes3(time)),
            meaning::axes3(time),
            m.tencoders@,
            m.encoders@.len() as int,
        ),
        m.encoders@.len() <= m.tencoders@.len(),
    ensures
        ({
            let r = gpu_forward::encoders_steps(s, freq, time, g)->Ok_0.1;
            &&& r.0.len() == m.encoders@.len()
            &&& r.1.len() == m.encoders@.len()
            &&& are_freq_outs(a, v, meaning::axes4(freq), m, r.0)
            &&& are_time_outs(a, v, time, meaning::axes3(time), m, r.1)
            &&& encoder::are_freq_outputs(
                a,
                meaning::at(v, freq),
                meaning::axes4(freq),
                m.encoders@,
                &m.freq_emb,
                contents(v, r.0),
            )
        }),
{
    reveal(gpu_forward::encoders_steps);
    let n = m.encoders@.len() as int;
    assert(g.encoders@.len() == n) by {
        reveal(weights::holds_model);
    }
    let b1 = gpu_forward::encode_freq_steps(s, freq, g);
    growth::encode_freq_grows(s, freq, g);
    let (s1, fouts) = b1->Ok_0;
    let b2 = gpu_forward::encode_time_steps_from(s1, time, seq![], g.tencoders@, n, 0);
    growth::encode_time_grows(s1, time, seq![], g.tencoders@, n, 0);
    growth::lemma_inside(s1, b2->Ok_0.0, whole);
    let h = encode_freq_means(a, whole, v, s, freq, g, m);
    assert(are_time_outs(a, v, time, meaning::axes3(time), m, Seq::<GpuTensor>::empty())) by {
        reveal(are_time_outs);
    }
    assert(Seq::<GpuTensor>::empty() =~= seq![]);
    encode_time_from_means(a, whole, v, s1, time, seq![], g, n, 0, m);
}

/// The tables are where the program has them.
proof fn lemma_tables<A: Arith>(
    a: &A,
    whole: Seq<Step>,
    v: Seq<Seq<A::T>>,
    s: Seq<Step>,
    fouts: Seq<GpuTensor>,
    touts: Seq<GpuTensor>,
    d: usize,
    arrays: Seq<Seq<A::T>>,
    freq_table: Seq<A::T>,
    time_table: Seq<A::T>,
    fin: Seq<A::T>,
    tin: Seq<A::T>,
)
    requires
        meaning::runs(a, whole, v, gpu_forward::tables_steps(s, fouts, touts, d)),
        supplied(whole, v, arrays, freq_table, time_table, fin, tin),
    ensures
        ({
            let r = gpu_forward::tables_steps(s, fouts, touts, d)->Ok_0.1;
            &&& meaning::at(v, r.0) == freq_table
            &&& meaning::at(v, r.1) == time_table
        }),
{
    reveal(gpu_forward::tables_steps);
    reveal(supplied);
    let rows = (fouts.last().d3 * fouts.last().d2) as usize;
    let b1 = gpu_forward::table_steps(s, 0, rows, d);
    let (s1, f) = b1->Ok_0;
    let b2 = gpu_forward::table_steps(s1, 1, touts.last().d2, d);
    let (s2, t) = b2->Ok_0;
    meaning::lemma_step(a, whole, v, s1, s2.last());
    meaning::lemma_step(a, whole, v, s, s1.last());
    assert(whole[s.len() as int] == s1[s.len() as int]);
    assert(whole[s1.len() as int] == s2[s1.len() as int]);
}

} // verus!
