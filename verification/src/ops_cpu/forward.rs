//! The whole network: both encoders, the transformer, and both decoders.
use vstd::prelude::*;
use crate::arith::Arith;
use crate::index;
use crate::model::HDecLayer;
use crate::model::HEncLayer;
use crate::model::HTDemucs;
use crate::model::TDecLayer;
use crate::model::TEncLayer;
use crate::ops_cpu::decoder;
use crate::ops_cpu::encoder;
use crate::ops_cpu::standardize;
use crate::ops_cpu::transformer;
use crate::N_FFT;

verus! {

/// Shape after the first `i` layers of the time encoder.
pub open spec fn time_chain_shape<T>(s: [usize; 3], layers: Seq<TEncLayer<T>>, i: int) -> [usize; 3]
    decreases i,
{
    if i <= 0 {
        s
    } else {
        encoder::tenc_shape(time_chain_shape(s, layers, i - 1), &layers[i - 1])
    }
}

/// The first `n` layers of the time encoder are defined.
#[verifier::opaque]
pub open spec fn time_chain_ok<T>(
    x_len: int,
    s: [usize; 3],
    layers: Seq<TEncLayer<T>>,
    n: int,
) -> bool {
    &&& n <= layers.len()
    &&& forall|i: int|
        #![trigger layers[i]]
        0 <= i < n ==> encoder::tenc_ok(
            if i == 0 {
                x_len
            } else {
                index::size3(time_chain_shape(s, layers, i))
            },
            time_chain_shape(s, layers, i),
            &layers[i],
        )
}

/// The buffers of a list of tensors.
pub open spec fn buffers3<T>(v: Seq<(Vec<T>, [usize; 3])>) -> Seq<Seq<T>> {
    Seq::new(v.len(), |i: int| v[i].0@)
}

/// `outs` are the results of the first layers of the time encoder.
pub open spec fn are_time_outputs<A: Arith>(
    a: &A,
    x: Seq<A::T>,
    s: [usize; 3],
    layers: Seq<TEncLayer<A::T>>,
    outs: Seq<Seq<A::T>>,
) -> bool {
    forall|i: int|
        #![trigger layers[i]]
        0 <= i < outs.len() ==> encoder::is_tenc(
            a,
            if i == 0 {
                x
            } else {
                outs[i - 1]
            },
            time_chain_shape(s, layers, i),
            &layers[i],
            outs[i],
        )
}

/// Runs the first `n` layers of the time encoder and gives the result of each.
fn time_chain<A: Arith>(a: &A, x: &[A::T], s: [usize; 3], layers: &Vec<TEncLayer<A::T>>, n: usize) -> (r: Vec<
    (Vec<A::T>, [usize; 3]),
>)
    requires
        time_chain_ok(x@.len() as int, s, layers@, n as int),
    ensures
        r@.len() == n,
        forall|i: int|
            #![trigger r@[i]]
            0 <= i < n ==> r@[i].1 == time_chain_shape(s, layers@, i + 1) && r@[i].0@.len()
                == index::size3(r@[i].1),
        are_time_outputs(a, x@, s, layers@, buffers3(r@)),
{
    let mut outs: Vec<(Vec<A::T>, [usize; 3])> = Vec::new();
    let mut i: usize = 0;
    while i < n
        invariant
            i <= n,
            outs@.len() == i,
            time_chain_ok(x@.len() as int, s, layers@, n as int),
            forall|j: int|
                #![trigger outs@[j]]
                0 <= j < i ==> outs@[j].1 == time_chain_shape(s, layers@, j + 1)
                    && outs@[j].0@.len() == index::size3(outs@[j].1),
            are_time_outputs(a, x@, s, layers@, buffers3(outs@)),
        decreases n - i,
    {
        proof {
            reveal(time_chain_ok);
            let l = layers@[i as int];
        }
        let ghost before = buffers3(outs@);
        let (out, out_shape) = if i == 0 {
            encoder::tenc_layer_forward(a, x, s, &layers[i])
        } else {
            encoder::tenc_layer_forward(a, &outs[i - 1].0, outs[i - 1].1, &layers[i])
        };
        outs.push((out, out_shape));
        proof {
            let after = buffers3(outs@);
            assert forall|j: int|
                #![trigger layers@[j]]
                0 <= j < after.len() implies encoder::is_tenc(
                a,
                if j == 0 {
                    x@
                } else {
                    after[j - 1]
                },
                time_chain_shape(s, layers@, j),
                &layers@[j],
                after[j],
            ) by {
                if j > 0 {
                    assert(after[j - 1] == before[j - 1]);
                }
                if j < i {
                    assert(after[j] == before[j]);
                }
            }
        }
        i = i + 1;
    }
    outs
}

/// The number of frequencies to keep after decoder layer `i` of `n`: as many as the encoder
/// layer one step shallower gave, and all bins of the spectrogram after the last.
pub open spec fn freq_target<T>(fs: [usize; 4], enc: Seq<HEncLayer<T>>, n: int, i: int) -> usize {
    if i + 1 < n {
        encoder::freq_chain_shape(fs, enc, n - 1 - i)[2]
    } else {
        (N_FFT / 2) as usize
    }
}

/// Shape after the first `i` of `n` layers of the frequency decoder.
pub open spec fn freq_decoded_shape<T>(
    s: [usize; 4],
    fs: [usize; 4],
    enc: Seq<HEncLayer<T>>,
    dec: Seq<HDecLayer<T>>,
    n: int,
    i: int,
) -> [usize; 4]
    decreases i,
{
    if i <= 0 {
        s
    } else {
        decoder::hdec_shape(
            freq_decoded_shape(s, fs, enc, dec, n, i - 1),
            freq_target(fs, enc, n, i - 1),
            &dec[i - 1],
        )
    }
}

/// The `n` layers of the frequency decoder are defined on a tensor of shape `s`.
#[verifier::opaque]
pub open spec fn freq_decode_ok<T>(
    s: [usize; 4],
    fs: [usize; 4],
    enc: Seq<HEncLayer<T>>,
    dec: Seq<HDecLayer<T>>,
    n: int,
) -> bool {
    &&& n <= dec.len()
    &&& forall|i: int|
        #![trigger dec[i]]
        0 <= i < n ==> decoder::hdec_ok(
            index::size4(freq_decoded_shape(s, fs, enc, dec, n, i)),
            freq_decoded_shape(s, fs, enc, dec, n, i),
            index::size4(encoder::freq_chain_shape(fs, enc, n - i)),
            encoder::freq_chain_shape(fs, enc, n - i),
            &dec[i],
        )
}

/// `outs` are the results of the layers of the frequency decoder, the deepest result of the
/// encoder entering first.
pub open spec fn are_freq_decoded<A: Arith>(
    a: &A,
    x: Seq<A::T>,
    s: [usize; 4],
    fs: [usize; 4],
    enc: Seq<HEncLayer<A::T>>,
    skips: Seq<Seq<A::T>>,
    dec: Seq<HDecLayer<A::T>>,
    outs: Seq<Seq<A::T>>,
) -> bool {
    forall|i: int|
        #![trigger dec[i]]
        0 <= i < outs.len() ==> decoder::is_hdec(
            a,
            if i == 0 {
                x
            } else {
                outs[i - 1]
            },
            freq_decoded_shape(s, fs, enc, dec, skips.len() as int, i),
            skips[skips.len() - 1 - i],
            freq_target(fs, enc, skips.len() as int, i),
            &dec[i],
            outs[i],
        )
}

/// `out` is what the frequency decoder makes of `x` and the encoder's results `skips`.
#[verifier::opaque]
pub open spec fn is_freq_decoded<A: Arith>(
    a: &A,
    x: Seq<A::T>,
    s: [usize; 4],
    fs: [usize; 4],
    enc: Seq<HEncLayer<A::T>>,
    skips: Seq<Seq<A::T>>,
    dec: Seq<HDecLayer<A::T>>,
    out: Seq<A::T>,
) -> bool {
    exists|outs: Seq<Seq<A::T>>| #[trigger]
        are_freq_decoded(a, x, s, fs, enc, skips, dec, outs) && outs.len() == skips.len() && out
            == outs.last()
}

/// Runs the layers of the frequency decoder.
fn freq_decode<A: Arith>(
    a: &A,
    x: &[A::T],
    s: [usize; 4],
    fs: Ghost<[usize; 4]>,
    enc: Ghost<Seq<HEncLayer<A::T>>>,
    skips: &Vec<(Vec<A::T>, [usize; 4])>,
    dec: &Vec<HDecLayer<A::T>>,
) -> (r: (Vec<A::T>, [usize; 4]))
    requires
        skips@.len() >= 1,
        x@.len() == index::size4(s),
        freq_decode_ok(s, fs@, enc@, dec@, skips@.len() as int),
        forall|i: int|
            #![trigger skips@[i]]
            0 <= i < skips@.len() ==> skips@[i].1 == encoder::freq_chain_shape(fs@, enc@, i + 1)
                && skips@[i].0@.len() == index::size4(skips@[i].1),
    ensures
        r.1 == freq_decoded_shape(s, fs@, enc@, dec@, skips@.len() as int, skips@.len() as int),
        r.0@.len() == index::size4(r.1),
        is_freq_decoded(a, x@, s, fs@, enc@, encoder::buffers4(skips@), dec@, r.0@),
{
    let n: usize = skips.len();
    let ghost sk = encoder::buffers4(skips@);
    let ghost mut outs: Seq<Seq<A::T>> = seq![];
    let mut data: Vec<A::T> = crate::ops_cpu::layout::to_vec(x);
    let mut shape: [usize; 4] = s;
    let mut i: usize = 0;
    while i < n
        invariant
            i <= n,
            n == skips@.len(),
            sk == encoder::buffers4(skips@),
            freq_decode_ok(s, fs@, enc@, dec@, n as int),
            forall|j: int|
                #![trigger skips@[j]]
                0 <= j < n ==> skips@[j].1 == encoder::freq_chain_shape(fs@, enc@, j + 1)
                    && skips@[j].0@.len() == index::size4(skips@[j].1),
            shape == freq_decoded_shape(s, fs@, enc@, dec@, n as int, i as int),
            data@.len() == index::size4(shape),
            outs.len() == i,
            i == 0 ==> data@ == x@,
            i > 0 ==> data@ == outs.last(),
            are_freq_decoded(a, x@, s, fs@, enc@, sk, dec@, outs),
        decreases n - i,
    {
        proof {
            reveal(freq_decode_ok);
            let l = dec@[i as int];
            let k = skips@[n - 1 - i];
            assert(sk[n - 1 - i] == k.0@);
        }
        let target: usize = if i + 1 < n {
            assert(skips@[n - 2 - i].1 == encoder::freq_chain_shape(fs@, enc@, n - 1 - i));
            skips[n - 2 - i].1[2]
        } else {
            N_FFT / 2
        };
        assert(target == freq_target(fs@, enc@, n as int, i as int));
        let ghost before = outs;
        let (out, out_shape) = decoder::hdec_layer_forward(
            a,
            &data,
            shape,
            &skips[n - 1 - i].0,
            skips[n - 1 - i].1,
            target,
            &dec[i],
        );
        proof {
            outs = outs.push(out@);
            assert forall|j: int|
                #![trigger dec@[j]]
                0 <= j < outs.len() implies decoder::is_hdec(
                a,
                if j == 0 {
                    x@
                } else {
                    outs[j - 1]
                },
                freq_decoded_shape(s, fs@, enc@, dec@, sk.len() as int, j),
                sk[sk.len() - 1 - j],
                freq_target(fs@, enc@, sk.len() as int, j),
                &dec@[j],
                outs[j],
            ) by {
                if j > 0 {
                    assert(outs[j - 1] == before[j - 1]);
                }
                if j < i {
                    assert(outs[j] == before[j]);
                }
            }
        }
        data = out;
        shape = out_shape;
        i = i + 1;
    }
    proof {
        reveal(is_freq_decoded);
        assert(are_freq_decoded(a, x@, s, fs@, enc@, sk, dec@, outs));
    }
    (data, shape)
}

/// The number of samples to keep after decoder layer `i` of `n`: as many as entered the
/// encoder layer of the same depth.
pub open spec fn time_target<T>(ts: [usize; 3], enc: Seq<TEncLayer<T>>, n: int, i: int) -> usize {
    time_chain_shape(ts, enc, n - 1 - i)[2]
}

/// Shape after the first `i` of `n` layers of the time decoder.
pub open spec fn time_decoded_shape<T>(
    s: [usize; 3],
    ts: [usize; 3],
    enc: Seq<TEncLayer<T>>,
    dec: Seq<TDecLayer<T>>,
    n: int,
    i: int,
) -> [usize; 3]
    decreases i,
{
    if i <= 0 {
        s
    } else {
        decoder::tdec_shape(
            time_decoded_shape(s, ts, enc, dec, n, i - 1),
            time_target(ts, enc, n, i - 1),
            &dec[i - 1],
        )
    }
}

/// The `n` layers of the time decoder are defined on a tensor of shape `s`.
#[verifier::opaque]
pub open spec fn time_decode_ok<T>(
    s: [usize; 3],
    ts: [usize; 3],
    enc: Seq<TEncLayer<T>>,
    dec: Seq<TDecLayer<T>>,
    n: int,
) -> bool {
    &&& n <= dec.len()
    &&& forall|i: int|
        #![trigger dec[i]]
        0 <= i < n ==> decoder::tdec_ok(
            index::size3(time_decoded_shape(s, ts, enc, dec, n, i)),
            time_decoded_shape(s, ts, enc, dec, n, i),
            index::size3(time_chain_shape(ts, enc, n - i)),
            time_chain_shape(ts, enc, n - i),
            &dec[i],
        )
}

/// `outs` are the results of the layers of the time decoder, the deepest result of the
/// encoder entering first.
pub open spec fn are_time_decoded<A: Arith>(
    a: &A,
    x: Seq<A::T>,
    s: [usize; 3],
    ts: [usize; 3],
    enc: Seq<TEncLayer<A::T>>,
    skips: Seq<Seq<A::T>>,
    dec: Seq<TDecLayer<A::T>>,
    outs: Seq<Seq<A::T>>,
) -> bool {
    forall|i: int|
        #![trigger dec[i]]
        0 <= i < outs.len() ==> decoder::is_tdec(
            a,
            if i == 0 {
                x
            } else {
                outs[i - 1]
            },
            time_decoded_shape(s, ts, enc, dec, skips.len() as int, i),
            skips[skips.len() - 1 - i],
            time_chain_shape(ts, enc, skips.len() - i),
            time_target(ts, enc, skips.len() as int, i),
            &dec[i],
            outs[i],
        )
}

/// `out` is what the time decoder makes of `x` and the encoder's results `skips`.
#[verifier::opaque]
pub open spec fn is_time_decoded<A: Arith>(
    a: &A,
    x: Seq<A::T>,
    s: [usize; 3],
    ts: [usize; 3],
    enc: Seq<TEncLayer<A::T>>,
    skips: Seq<Seq<A::T>>,
    dec: Seq<TDecLayer<A::T>>,
    out: Seq<A::T>,
) -> bool {
    exists|outs: Seq<Seq<A::T>>| #[trigger]
        are_time_decoded(a, x, s, ts, enc, skips, dec, outs) && outs.len() == skips.len() && out
            == outs.last()
}

/// Runs the layers of the time decoder.
fn time_decode<A: Arith>(
    a: &A,
    x: &[A::T],
    s: [usize; 3],
    ts: [usize; 3],
    enc: Ghost<Seq<TEncLayer<A::T>>>,
    skips: &Vec<(Vec<A::T>, [usize; 3])>,
    dec: &Vec<TDecLayer<A::T>>,
) -> (r: (Vec<A::T>, [usize; 3]))
    requires
        skips@.len() >= 1,
        x@.len() == index::size3(s),
        time_decode_ok(s, ts, enc@, dec@, skips@.len() as int),
        forall|i: int|
            #![trigger skips@[i]]
            0 <= i < skips@.len() ==> skips@[i].1 == time_chain_shape(ts, enc@, i + 1)
                && skips@[i].0@.len() == index::size3(skips@[i].1),
    ensures
        r.1 == time_decoded_shape(s, ts, enc@, dec@, skips@.len() as int, skips@.len() as int),
        r.0@.len() == index::size3(r.1),
        is_time_decoded(a, x@, s, ts, enc@, buffers3(skips@), dec@, r.0@),
{
    let n: usize = skips.len();
    let ghost sk = buffers3(skips@);
    let ghost mut outs: Seq<Seq<A::T>> = seq![];
    let mut data: Vec<A::T> = crate::ops_cpu::layout::to_vec(x);
    let mut shape: [usize; 3] = s;
    let mut i: usize = 0;
    while i < n
        invariant
            i <= n,
            n == skips@.len(),
            sk == buffers3(skips@),
            time_decode_ok(s, ts, enc@, dec@, n as int),
            forall|j: int|
                #![trigger skips@[j]]
                0 <= j < n ==> skips@[j].1 == time_chain_shape(ts, enc@, j + 1)
                    && skips@[j].0@.len() == index::size3(skips@[j].1),
            shape == time_decoded_shape(s, ts, enc@, dec@, n as int, i as int),
            data@.len() == index::size3(shape),
            outs.len() == i,
            i == 0 ==> data@ == x@,
            i > 0 ==> data@ == outs.last(),
            are_time_decoded(a, x@, s, ts, enc@, sk, dec@, outs),
        decreases n - i,
    {
        proof {
            reveal(time_decode_ok);
            let l = dec@[i as int];
            let k = skips@[n - 1 - i];
            assert(sk[n - 1 - i] == k.0@);
        }
        let target: usize = if i + 1 < n {
            assert(skips@[n - 2 - i].1 == time_chain_shape(ts, enc@, n - 1 - i));
            skips[n - 2 - i].1[2]
        } else {
            ts[2]
        };
        assert(target == time_target(ts, enc@, n as int, i as int));
        let ghost before = outs;
        let (out, out_shape) = decoder::tdec_layer_forward(
            a,
            &data,
            shape,
            &skips[n - 1 - i].0,
            skips[n - 1 - i].1,
            target,
            &dec[i],
        );
        proof {
            outs = outs.push(out@);
            assert forall|j: int|
                #![trigger dec@[j]]
                0 <= j < outs.len() implies decoder::is_tdec(
                a,
                if j == 0 {
                    x@
                } else {
                    outs[j - 1]
                },
                time_decoded_shape(s, ts, enc@, dec@, sk.len() as int, j),
                sk[sk.len() - 1 - j],
                time_chain_shape(ts, enc@, sk.len() - j),
                time_target(ts, enc@, sk.len() as int, j),
                &dec@[j],
                outs[j],
            ) by {
                if j > 0 {
                    assert(outs[j - 1] == before[j - 1]);
                }
                if j < i {
                    assert(outs[j] == before[j]);
                }
            }
        }
        data = out;
        shape = out_shape;
        i = i + 1;
    }
    proof {
        reveal(is_time_decoded);
        assert(are_time_decoded(a, x@, s, ts, enc@, sk, dec@, outs));
    }
    (data, shape)
}

/// Shape of the frequency tensor that the network gives.
pub open spec fn forward_freq_shape<T>(fs: [usize; 4], m: &HTDemucs<T>) -> [usize; 4] {
    let n = m.encoders@.len() as int;
    freq_decoded_shape(
        transformer::freq_out_shape(
            encoder::freq_chain_shape(fs, m.encoders@, n),
            &m.crosstransformer,
        ),
        fs,
        m.encoders@,
        m.decoders@,
        n,
        n,
    )
}

/// Shape of the time tensor that the network gives.
pub open spec fn forward_time_shape<T>(ts: [usize; 3], m: &HTDemucs<T>) -> [usize; 3] {
    let n = m.encoders@.len() as int;
    time_decoded_shape(
        transformer::time_out_shape(
            time_chain_shape(ts, m.tencoders@, n),
            &m.crosstransformer,
        ),
        ts,
        m.tencoders@,
        m.tdecoders@,
        n,
        n,
    )
}

/// The inputs on which [`htdemucs_forward`] is defined.
#[verifier::opaque]
pub open spec fn forward_ok<T>(
    freq_len: int,
    fs: [usize; 4],
    time_len: int,
    ts: [usize; 3],
    m: &HTDemucs<T>,
) -> bool {
    let n = m.encoders@.len() as int;
    let f = encoder::freq_chain_shape(fs, m.encoders@, n);
    let t = time_chain_shape(ts, m.tencoders@, n);
    &&& fs[1] * fs[2] <= usize::MAX
    &&& standardize::per_batch4(fs) <= usize::MAX
    &&& fs[0] * standardize::per_batch4(fs) <= freq_len
    &&& standardize::per_batch3(ts) <= usize::MAX
    &&& ts[0] * standardize::per_batch3(ts) <= time_len
    &&& encoder::freq_chain_ok(freq_len, fs, m.encoders@, n, &m.freq_emb)
    &&& time_chain_ok(time_len, ts, m.tencoders@, n)
    &&& transformer::cross_domain_ok(
        index::size4(f),
        f,
        index::size3(t),
        t,
        &m.crosstransformer,
    )
    &&& freq_decode_ok(
        transformer::freq_out_shape(f, &m.crosstransformer),
        fs,
        m.encoders@,
        m.decoders@,
        n,
    )
    &&& time_decode_ok(
        transformer::time_out_shape(t, &m.crosstransformer),
        ts,
        m.tencoders@,
        m.tdecoders@,
        n,
    )
    &&& 0 < forward_freq_shape(fs, m)[0] <= fs[0]
    &&& 0 < forward_time_shape(ts, m)[0] <= ts[0]
}

/// `(freq_out, time_out)` is the result of [`htdemucs_forward`].
#[verifier::opaque]
pub open spec fn is_forward<A: Arith>(
    a: &A,
    freq: Seq<A::T>,
    fs: [usize; 4],
    time: Seq<A::T>,
    ts: [usize; 3],
    m: &HTDemucs<A::T>,
    freq_out: Seq<A::T>,
    time_out: Seq<A::T>,
) -> bool {
    let n = m.encoders@.len() as int;
    let f = encoder::freq_chain_shape(fs, m.encoders@, n);
    let t = time_chain_shape(ts, m.tencoders@, n);
    exists|
        fm: Seq<A::T>,
        fd: Seq<A::T>,
        fin: Seq<A::T>,
        tm: Seq<A::T>,
        td: Seq<A::T>,
        tin: Seq<A::T>,
        fskips: Seq<Seq<A::T>>,
        tskips: Seq<Seq<A::T>>,
        fmid: Seq<A::T>,
        tmid: Seq<A::T>,
        fout: Seq<A::T>,
        tout: Seq<A::T>,
    |
        {
            &&& standardize::are_batch_stats(
                a,
                freq,
                fs[0] as int,
                standardize::per_batch4(fs),
                fm,
                fd,
            )
            &&& #[trigger] standardize::is_standardized(
                a,
                freq,
                fs[0] as int,
                standardize::per_batch4(fs),
                fm,
                fd,
                fin,
            )
            &&& standardize::are_batch_stats(
                a,
                time,
                ts[0] as int,
                standardize::per_batch3(ts),
                tm,
                td,
            )
            &&& #[trigger] standardize::is_standardized(
                a,
                time,
                ts[0] as int,
                standardize::per_batch3(ts),
                tm,
                td,
                tin,
            )
            &&& fskips.len() == n
            &&& tskips.len() == n
            &&& #[trigger] encoder::are_freq_outputs(
                a,
                fin,
                fs,
                m.encoders@,
                &m.freq_emb,
                fskips,
            )
            &&& #[trigger] are_time_outputs(a, tin, ts, m.tencoders@, tskips)
            &&& #[trigger] transformer::is_cross_domain(
                a,
                fskips[n - 1],
                f,
                tskips[n - 1],
                t,
                &m.crosstransformer,
                fmid,
                tmid,
            )
            &&& #[trigger] is_freq_decoded(
                a,
                fmid,
                transformer::freq_out_shape(f, &m.crosstransformer),
                fs,
                m.encoders@,
                fskips,
                m.decoders@,
                fout,
            )
            &&& #[trigger] is_time_decoded(
                a,
                tmid,
                transformer::time_out_shape(t, &m.crosstransformer),
                ts,
                m.tencoders@,
                tskips,
                m.tdecoders@,
                tout,
            )
            &&& standardize::is_restored(
                a,
                fout,
                forward_freq_shape(fs, m)[0] as int,
                fout.len() as int / forward_freq_shape(fs, m)[0] as int,
                fm,
                fd,
                freq_out,
            )
            &&& standardize::is_restored(
                a,
                tout,
                forward_time_shape(ts, m)[0] as int,
                tout.len() as int / forward_time_shape(ts, m)[0] as int,
                tm,
                td,
                time_out,
            )
        }
}

/// The whole network on a `[1, 4, bins, frames]` spectrogram and a `[1, 2, samples]`
/// waveform: both are standardized and encoded, exchange information in the transformer, are
/// decoded with the encoders' results, and brought back to their scale.
pub fn htdemucs_forward<A: Arith>(
    a: &A,
    freq: &[A::T],
    freq_shape: [usize; 4],
    time: &[A::T],
    time_shape: [usize; 3],
    model: &HTDemucs<A::T>,
) -> (r: (Vec<A::T>, [usize; 4], Vec<A::T>, [usize; 3]))
    requires
        forward_ok(freq@.len() as int, freq_shape, time@.len() as int, time_shape, model),
    ensures
        r.1 == forward_freq_shape(freq_shape, model),
        r.0@.len() == index::size4(r.1),
        r.3 == forward_time_shape(time_shape, model),
        r.2@.len() == index::size3(r.3),
        is_forward(a, freq@, freq_shape, time@, time_shape, model, r.0@, r.2@),
{
    proof {
        reveal(forward_ok);
    }
    let depth: usize = model.encoders.len();
    let (freq_n, _, freq_mean, _, freq_std, _) = standardize::normalize_freq(
        a,
        freq,
        freq_shape,
    );
    let (time_n, _, time_mean, _, time_std, _) = standardize::normalize_time(
        a,
        time,
        time_shape,
    );
    let freq_skips: Vec<(Vec<A::T>, [usize; 4])> = encoder::freq_chain(
        a,
        &freq_n,
        freq_shape,
        &model.encoders,
        depth,
        &model.freq_emb,
    );
    let time_skips: Vec<(Vec<A::T>, [usize; 3])> = time_chain(
        a,
        &time_n,
        time_shape,
        &model.tencoders,
        depth,
    );
    let ghost fsk = encoder::buffers4(freq_skips@);
    let ghost tsk = buffers3(time_skips@);
    assert(freq_skips@[depth - 1].0@ == fsk[depth - 1]);
    assert(time_skips@[depth - 1].0@ == tsk[depth - 1]);
    let (f_mid, f_mid_shape, t_mid, t_mid_shape) = transformer::cross_domain_transformer_forward(
        a,
        &freq_skips[depth - 1].0,
        freq_skips[depth - 1].1,
        &time_skips[depth - 1].0,
        time_skips[depth - 1].1,
        &model.crosstransformer,
    );
    let (mut f_out, f_out_shape) = freq_decode(
        a,
        &f_mid,
        f_mid_shape,
        Ghost(freq_shape),
        Ghost(model.encoders@),
        &freq_skips,
        &model.decoders,
    );
    let (mut t_out, t_out_shape) = time_decode(
        a,
        &t_mid,
        t_mid_shape,
        time_shape,
        Ghost(model.tencoders@),
        &time_skips,
        &model.tdecoders,
    );
    standardize::denormalize_freq(a, &mut f_out, f_out_shape, &freq_mean, &freq_std);
    standardize::denormalize_time(a, &mut t_out, t_out_shape, &time_mean, &time_std);
    proof {
        reveal(is_forward);
    }
    (f_out, f_out_shape, t_out, t_out_shape)
}

} // verus!
