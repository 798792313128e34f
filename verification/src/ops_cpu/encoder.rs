//! Layers of the frequency and time encoders.
use vstd::prelude::*;
use crate::arith;
use crate::arith::Arith;
use crate::index;
use crate::model::FreqEmb;
use crate::model::FreqEncoder;
use crate::model::HEncLayer;
use crate::model::TEncLayer;
use crate::ops_cpu::conv;
use crate::ops_cpu::dconv;
use crate::ops_cpu::elementwise;
use crate::ops_cpu::layout;

verus! {

/// Shape after the strided convolution of a frequency encoder layer.
pub open spec fn henc_conv_shape<T>(s: [usize; 4], layer: &HEncLayer<T>) -> [usize; 4] {
    conv::conv2d_shape(s, &layer.conv, 2, 0, 4, 1)
}

/// The tensor `[b, c, f, t]` with the frequencies moved to the batch: `[b * f, c, t]`.
pub open spec fn folded_shape(s: [usize; 4]) -> [usize; 3] {
    [(s[0] * s[2]) as usize, s[1], s[3]]
}

/// The tensor `[b * f, c, t]` that residual layers give back, with the frequencies of `s`
/// moved back out of the batch: `[b, c, f, t]`.
pub open spec fn unfolded_shape(s: [usize; 4], d: [usize; 3]) -> [usize; 4] {
    [s[0], s[1], s[2], d[2]]
}

/// Shape after the residual layers, applied for each frequency on its own.
pub open spec fn per_frequency_shape<T>(
    s: [usize; 4],
    layers: Seq<crate::model::DConvLayer<T>>,
) -> [usize; 4] {
    unfolded_shape(s, dconv::dconv_shape(folded_shape(s), layers, layers.len() as int))
}

/// The inputs on which the residual layers can be applied for each frequency on its own.
#[verifier::opaque]
pub open spec fn per_frequency_ok<T>(
    s: [usize; 4],
    layers: Seq<crate::model::DConvLayer<T>>,
) -> bool {
    &&& s[0] * s[2] <= usize::MAX
    &&& dconv::dconv_ok(index::size4(s), folded_shape(s), layers)
}

/// `out` is `x`, of shape `s`, after the residual layers applied for each frequency on its
/// own.
#[verifier::opaque]
pub open spec fn is_per_frequency<A: Arith>(
    a: &A,
    x: Seq<A::T>,
    s: [usize; 4],
    layers: Seq<crate::model::DConvLayer<A::T>>,
    out: Seq<A::T>,
) -> bool {
    exists|d: Seq<A::T>| #[trigger]
        dconv::is_dconv(
            a,
            layout::swapped(x, s[0] as int, s[1] as int, s[2] as int, s[3] as int),
            folded_shape(s),
            layers,
            d,
        ) && out == layout::swapped(
            d,
            s[0] as int,
            s[2] as int,
            s[1] as int,
            per_frequency_shape(s, layers)[3] as int,
        )
}

/// Applies the residual layers for each frequency on its own.
pub fn dconv_per_frequency<A: Arith>(
    a: &A,
    x: &[A::T],
    s: [usize; 4],
    dc: &crate::model::DConv<A::T>,
) -> (r: (Vec<A::T>, [usize; 4]))
    requires
        x@.len() == index::size4(s),
        per_frequency_ok(s, dc.layers@),
    ensures
        r.1 == per_frequency_shape(s, dc.layers@),
        r.0@.len() == index::size4(r.1),
        is_per_frequency(a, x@, s, dc.layers@, r.0@),
{
    proof {
        reveal(per_frequency_ok);
        reveal(is_per_frequency);
    }
    let flat: Vec<A::T> = layout::swap_middle(x, s[0], s[1], s[2], s[3]);
    let n: usize = s[0] * s[2];
    let flat_shape: [usize; 3] = [n, s[1], s[3]];
    proof {
        index::lemma_swap_extent(s[0] as int, s[1] as int, s[2] as int, s[3] as int);
        assert(flat@.len() == index::size3(flat_shape));
        assert(flat_shape =~= folded_shape(s));
        dconv::lemma_dconv_shape(
            index::size4(s),
            flat_shape,
            dc.layers@,
            dc.layers@.len() as int,
        );
    }
    let (d, d_shape) = dconv::dconv_forward(a, &flat, flat_shape, dc);
    let out: Vec<A::T> = layout::swap_middle(&d, s[0], s[2], s[1], d_shape[2]);
    let out_shape: [usize; 4] = [s[0], s[1], s[2], d_shape[2]];
    proof {
        index::lemma_swap_extent(s[0] as int, s[1] as int, s[2] as int, d_shape[2] as int);
        index::lemma_extent(s[0] as int, s[1] as int);
        index::lemma_extent(s[0] * s[1], s[2] as int);
        index::lemma_extent(s[0] * s[1] * s[2], d_shape[2] as int);
        assert(out_shape =~= per_frequency_shape(s, dc.layers@));
    }
    (out, out_shape)
}

/// Shape after the rewriting convolution of a frequency encoder layer.
pub open spec fn henc_rewrite_shape<T>(s: [usize; 4], layer: &HEncLayer<T>) -> [usize; 4] {
    conv::conv2d_shape(
        per_frequency_shape(henc_conv_shape(s, layer), layer.dconv.layers@),
        &layer.rewrite,
        0,
        0,
        1,
        1,
    )
}

/// The shape that [`henc_layer_forward`] gives.
#[verifier::opaque]
pub open spec fn henc_shape<T>(s: [usize; 4], layer: &HEncLayer<T>) -> [usize; 4] {
    let r = henc_rewrite_shape(s, layer);
    [r[0], (r[1] / 2) as usize, r[2], r[3]]
}

/// The inputs on which [`henc_layer_forward`] is defined.
#[verifier::opaque]
pub open spec fn henc_ok<T>(x_len: int, s: [usize; 4], layer: &HEncLayer<T>) -> bool {
    let h = henc_conv_shape(s, layer);
    let u = per_frequency_shape(h, layer.dconv.layers@);
    &&& conv::conv2d_ok(x_len, s, &layer.conv, layer.conv_bias.data@, 2, 0, 4, 1)
    &&& per_frequency_ok(h, layer.dconv.layers@)
    &&& conv::conv2d_ok(
        index::size4(u),
        u,
        &layer.rewrite,
        layer.rewrite_bias.data@,
        0,
        0,
        1,
        1,
    )
    &&& layer.rewrite.out_ch == 2 * layer.conv.out_ch
}

/// `out` is the result of [`henc_layer_forward`].
#[verifier::opaque]
pub open spec fn is_henc<A: Arith>(
    a: &A,
    x: Seq<A::T>,
    s: [usize; 4],
    layer: &HEncLayer<A::T>,
    out: Seq<A::T>,
) -> bool {
    let h = henc_conv_shape(s, layer);
    let u = per_frequency_shape(h, layer.dconv.layers@);
    let r = henc_rewrite_shape(s, layer);
    exists|c: Seq<A::T>, g: Seq<A::T>, d: Seq<A::T>, w: Seq<A::T>|
        {
            &&& #[trigger] conv::is_conv2d(
                a,
                x,
                s,
                &layer.conv,
                layer.conv_bias.data@,
                2,
                0,
                4,
                1,
                c,
            )
            &&& #[trigger] elementwise::is_gelu(a, c, g)
            &&& #[trigger] is_per_frequency(a, g, h, layer.dconv.layers@, d)
            &&& #[trigger] conv::is_conv2d(
                a,
                d,
                u,
                &layer.rewrite,
                layer.rewrite_bias.data@,
                0,
                0,
                1,
                1,
                w,
            )
            &&& elementwise::is_glu(a, w, r[0] as int, r[1] as int / 2, r[2] * r[3], out)
        }
}

/// Gates the first half of the channels of a `[B, 2 * C, H, W]` tensor by the second.
pub fn glu_4d<A: Arith>(a: &A, x: &[A::T], s: [usize; 4]) -> (r: (Vec<A::T>, [usize; 4]))
    requires
        s[1] % 2 == 0,
        s[1] > 0,
        x@.len() == index::size4(s),
    ensures
        r.1 == [s[0], s[1] / 2, s[2], s[3]],
        r.0@.len() == index::size4(r.1),
        elementwise::is_glu(a, x@, s[0] as int, s[1] as int / 2, s[2] * s[3], r.0@),
{
    let len: usize = x.len();
    let c: usize = s[1] / 2;
    let shape: [usize; 4] = [s[0], c, s[2], s[3]];
    if s[0] == 0 {
        let out: Vec<A::T> = Vec::new();
        proof {
            reveal(elementwise::is_glu);
            assert(0 * c * (s[2] * s[3]) == 0 && 0 * c * s[2] * s[3] == 0) by (nonlinear_arith);
        }
        return (out, shape);
    }
    proof {
        assert(s[0] * s[1] * s[2] * s[3] == s[0] * s[1] * (s[2] * s[3])) by (nonlinear_arith);
        assert(s[2] * s[3] <= s[0] * s[1] * (s[2] * s[3])) by (nonlinear_arith)
            requires
                s[0] > 0,
                s[1] > 0,
                s[2] >= 0,
                s[3] >= 0,
        ;
        assert(s[0] * c * s[2] * s[3] == s[0] * c * (s[2] * s[3])) by (nonlinear_arith);
    }
    let out: Vec<A::T> = elementwise::glu_planes(a, x, s[0], c, s[2] * s[3]);
    (out, shape)
}

/// One layer of the frequency encoder on a `[B, C_in, Fr, T]` tensor: a convolution that
/// quarters the frequencies, GELU, the residual layers for each frequency, a convolution
/// to twice the channels, and GLU.
pub fn henc_layer_forward<A: Arith>(a: &A, x: &[A::T], x_shape: [usize; 4], layer: &HEncLayer<A::T>) -> (r: (
    Vec<A::T>,
    [usize; 4],
))
    requires
        henc_ok(x@.len() as int, x_shape, layer),
    ensures
        r.1 == henc_shape(x_shape, layer),
        r.0@.len() == index::size4(r.1),
        is_henc(a, x@, x_shape, layer, r.0@),
{
    proof {
        reveal(henc_shape);
    }
    proof {
        reveal(henc_ok);
        reveal(is_henc);
    }
    let (mut h, h_shape) = conv::conv2d(a, x, x_shape, &layer.conv, &layer.conv_bias, 2, 0, 4, 1);
    elementwise::gelu(a, &mut h);
    let (u, u_shape) = dconv_per_frequency(a, &h, h_shape, &layer.dconv);
    let (w, w_shape) = conv::conv2d(
        a,
        &u,
        u_shape,
        &layer.rewrite,
        &layer.rewrite_bias,
        0,
        0,
        1,
        1,
    );
    glu_4d(a, &w, w_shape)
}

/// `r` may be `v + e / 5`.
pub open spec fn is_embedded_value<A: Arith>(a: &A, v: A::T, e: A::T, r: A::T) -> bool {
    exists|fifth: A::T, p: A::T|
        {
            &&& #[trigger] arith::is_ratio(a, 1, 5, fifth)
            &&& #[trigger] arith::is_product(a, e, fifth, p)
            &&& arith::is_sum(a, v, p, r)
        }
}

/// `out` is `x`, of shape `s`, with a fifth of the embedding of its frequency added to each
/// element.
#[verifier::opaque]
pub open spec fn is_embedded<A: Arith>(
    a: &A,
    x: Seq<A::T>,
    s: [usize; 4],
    emb: &FreqEmb<A::T>,
    out: Seq<A::T>,
) -> bool {
    &&& out.len() == x.len()
    &&& forall|i: int|
        0 <= i < x.len() ==> is_embedded_value(
            a,
            x[i],
            emb.data@[index::pos2(
                i / s[3] as int % s[2] as int,
                i / s[3] as int / s[2] as int % s[1] as int,
                emb.dim as int,
            )],
            #[trigger] out[i],
        )
}

/// The embedding has an entry for each frequency and channel of the shape `s`.
pub open spec fn embedding_covers<T>(s: [usize; 4], emb: &FreqEmb<T>) -> bool {
    s[1] > 0 && s[2] > 0 ==> (s[2] - 1) * emb.dim + (s[1] - 1) < emb.data@.len()
}

/// Adds a fifth of the embedding of its frequency to each element.
pub fn add_freq_emb<A: Arith>(a: &A, x: &mut [A::T], s: [usize; 4], emb: &FreqEmb<A::T>)
    requires
        old(x)@.len() == index::size4(s),
        embedding_covers(s, emb),
    ensures
        final(x)@.len() == old(x)@.len(),
        is_embedded(a, old(x)@, s, emb, final(x)@),
{
    let n: usize = x.len();
    let rows: usize = emb.data.len();
    let mut i: usize = 0;
    while i < n
        invariant
            i <= n,
            n == x@.len(),
            n == old(x)@.len(),
            n == s[0] * s[1] * s[2] * s[3],
            rows == emb.data@.len(),
            embedding_covers(s, emb),
            forall|j: int| i <= j < n ==> x@[j] == old(x)@[j],
            forall|j: int|
                0 <= j < i ==> is_embedded_value(
                    a,
                    old(x)@[j],
                    emb.data@[index::pos2(
                        j / s[3] as int % s[2] as int,
                        j / s[3] as int / s[2] as int % s[1] as int,
                        emb.dim as int,
                    )],
                    #[trigger] x@[j],
                ),
        decreases n - i,
    {
        proof {
            index::lemma_unquad(i as int, s[0] as int, s[1] as int, s[2] as int, s[3] as int);
        }
        let fi: usize = i / s[3] % s[2];
        let ci: usize = i / s[3] / s[2] % s[1];
        proof {
            assert(0 <= fi * emb.dim && fi * emb.dim + ci <= (s[2] - 1) * emb.dim + (s[1] - 1))
                by (nonlinear_arith)
                requires
                    0 <= fi <= s[2] - 1,
                    0 <= ci <= s[1] - 1,
                    0 <= emb.dim,
            ;
        }
        let e: A::T = emb.data[fi * emb.dim + ci];
        let fifth: A::T = arith::ratio(a, 1, 5);
        let p: A::T = arith::times(a, e, fifth);
        let v: A::T = x[i];
        let r: A::T = arith::plus(a, v, p);
        assert(is_embedded_value(a, v, e, r));
        x[i] = r;
        i = i + 1;
    }
    proof {
        reveal(is_embedded);
    }
}

/// Shape after the first `i` layers of the frequency encoder.
pub open spec fn freq_chain_shape<T>(s: [usize; 4], layers: Seq<HEncLayer<T>>, i: int) -> [usize; 4]
    decreases i,
{
    if i <= 0 {
        s
    } else {
        henc_shape(freq_chain_shape(s, layers, i - 1), &layers[i - 1])
    }
}

/// The inputs on which the first `n` layers of the frequency encoder are defined.
#[verifier::opaque]
pub open spec fn freq_chain_ok<T>(
    x_len: int,
    s: [usize; 4],
    layers: Seq<HEncLayer<T>>,
    n: int,
    emb: &FreqEmb<T>,
) -> bool {
    &&& 1 <= n <= layers.len()
    &&& embedding_covers(freq_chain_shape(s, layers, 1), emb)
    &&& forall|i: int|
        #![trigger layers[i]]
        0 <= i < n ==> henc_ok(
            if i == 0 {
                x_len
            } else {
                index::size4(freq_chain_shape(s, layers, i))
            },
            freq_chain_shape(s, layers, i),
            &layers[i],
        )
}

/// What [`freq_chain_ok`] says of layer `i`.
proof fn lemma_freq_chain_at<T>(
    x_len: int,
    s: [usize; 4],
    layers: Seq<HEncLayer<T>>,
    n: int,
    emb: &FreqEmb<T>,
    i: int,
)
    requires
        freq_chain_ok(x_len, s, layers, n, emb),
        0 <= i < n,
    ensures
        n <= layers.len(),
        embedding_covers(freq_chain_shape(s, layers, 1), emb),
        henc_ok(
            if i == 0 {
                x_len
            } else {
                index::size4(freq_chain_shape(s, layers, i))
            },
            freq_chain_shape(s, layers, i),
            &layers[i],
        ),
{
    reveal(freq_chain_ok);
    let layer = layers[i];
}

/// The buffers of a list of tensors.
pub open spec fn buffers4<T>(v: Seq<(Vec<T>, [usize; 4])>) -> Seq<Seq<T>> {
    Seq::new(v.len(), |i: int| v[i].0@)
}

/// `outs` are the results of the first layers of the frequency encoder, the embedding added
/// to the first of them.
pub open spec fn are_freq_outputs<A: Arith>(
    a: &A,
    x: Seq<A::T>,
    s: [usize; 4],
    layers: Seq<HEncLayer<A::T>>,
    emb: &FreqEmb<A::T>,
    outs: Seq<Seq<A::T>>,
) -> bool {
    &&& exists|h: Seq<A::T>| #[trigger]
        is_henc(a, x, s, &layers[0], h) && is_embedded(
            a,
            h,
            freq_chain_shape(s, layers, 1),
            emb,
            outs[0],
        )
    &&& forall|i: int|
        #![trigger layers[i]]
        1 <= i < outs.len() ==> is_henc(
            a,
            outs[i - 1],
            freq_chain_shape(s, layers, i),
            &layers[i],
            outs[i],
        )
}

/// Runs the first `n` layers of the frequency encoder and gives the result of each.
pub fn freq_chain<A: Arith>(
    a: &A,
    x: &[A::T],
    s: [usize; 4],
    layers: &Vec<HEncLayer<A::T>>,
    n: usize,
    emb: &FreqEmb<A::T>,
) -> (r: Vec<(Vec<A::T>, [usize; 4])>)
    requires
        freq_chain_ok(x@.len() as int, s, layers@, n as int, emb),
    ensures
        r@.len() == n,
        n >= 1,
        forall|i: int|
            #![trigger r@[i]]
            0 <= i < n ==> r@[i].1 == freq_chain_shape(s, layers@, i + 1) && r@[i].0@.len()
                == index::size4(r@[i].1),
        are_freq_outputs(a, x@, s, layers@, emb, buffers4(r@)),
{
    proof {
        assert(1 <= n <= layers@.len()) by {
            reveal(freq_chain_ok);
        }
        lemma_freq_chain_at(x@.len() as int, s, layers@, n as int, emb, 0);
    }
    let (mut h, h_shape) = henc_layer_forward(a, x, s, &layers[0]);
    let ghost first = h@;
    assert(h_shape == freq_chain_shape(s, layers@, 1)) by {
        reveal_with_fuel(freq_chain_shape, 2);
    }
    add_freq_emb(a, &mut h, h_shape, emb);
    let mut outs: Vec<(Vec<A::T>, [usize; 4])> = Vec::new();
    outs.push((h, h_shape));
    let mut i: usize = 1;
    while i < n
        invariant
            1 <= i <= n <= layers@.len(),
            outs@.len() == i,
            freq_chain_ok(x@.len() as int, s, layers@, n as int, emb),
            is_henc(a, x@, s, &layers@[0], first),
            is_embedded(a, first, freq_chain_shape(s, layers@, 1), emb, outs@[0].0@),
            forall|j: int|
                #![trigger outs@[j]]
                0 <= j < i ==> outs@[j].1 == freq_chain_shape(s, layers@, j + 1)
                    && outs@[j].0@.len() == index::size4(outs@[j].1),
            forall|j: int|
                #![trigger layers@[j]]
                1 <= j < i ==> is_henc(
                    a,
                    outs@[j - 1].0@,
                    freq_chain_shape(s, layers@, j),
                    &layers@[j],
                    outs@[j].0@,
                ),
        decreases n - i,
    {
        proof {
            lemma_freq_chain_at(x@.len() as int, s, layers@, n as int, emb, i as int);
        }
        let ghost before = outs@;
        let (out, out_shape) = henc_layer_forward(a, &outs[i - 1].0, outs[i - 1].1, &layers[i]);
        outs.push((out, out_shape));
        proof {
            assert forall|j: int| 1 <= j < i + 1 implies is_henc(
                a,
                outs@[j - 1].0@,
                freq_chain_shape(s, layers@, j),
                &#[trigger] layers@[j],
                outs@[j].0@,
            ) by {
                assert(outs@[j - 1] == before[j - 1]);
                if j < i {
                    assert(outs@[j] == before[j]);
                }
            }
        }
        i = i + 1;
    }
    proof {
        let b = buffers4(outs@);
        assert(is_embedded(a, first, freq_chain_shape(s, layers@, 1), emb, b[0]));
    }
    outs
}

/// Frequency encoder on a `[B, 4, Fr, T]` tensor: four layers, with a fifth of the embedding
/// of the frequency added after the first. Gives the last result, its shape, and the result of
/// each layer for the decoder.
pub fn freq_encoder_forward<A: Arith>(
    a: &A,
    freq: &[A::T],
    freq_shape: [usize; 4],
    enc: &FreqEncoder<A::T>,
) -> (r: (Vec<A::T>, [usize; 4], Vec<(Vec<A::T>, [usize; 4])>))
    requires
        freq_chain_ok(freq@.len() as int, freq_shape, enc.layers@, 4, &enc.freq_emb),
    ensures
        r.2@.len() == 4,
        r.0@ == r.2@[3].0@,
        r.1 == r.2@[3].1,
        forall|i: int|
            #![trigger r.2@[i]]
            0 <= i < 4 ==> r.2@[i].1 == freq_chain_shape(freq_shape, enc.layers@, i + 1)
                && r.2@[i].0@.len() == index::size4(r.2@[i].1),
        are_freq_outputs(a, freq@, freq_shape, enc.layers@, &enc.freq_emb, buffers4(r.2@)),
{
    let skips: Vec<(Vec<A::T>, [usize; 4])> = freq_chain(
        a,
        freq,
        freq_shape,
        &enc.layers,
        4,
        &enc.freq_emb,
    );
    let h: Vec<A::T> = layout::to_vec(&skips[3].0);
    let h_shape: [usize; 4] = skips[3].1;
    (h, h_shape, skips)
}

/// `t` rounded up to a multiple of four.
pub open spec fn rounded_up(t: int) -> int {
    if t % 4 == 0 {
        t
    } else {
        t + (4 - t % 4)
    }
}

/// Shape of the input of a time encoder layer once it is padded.
pub open spec fn tenc_padded_shape(s: [usize; 3]) -> [usize; 3] {
    [s[0], s[1], rounded_up(s[2] as int) as usize]
}

/// Shape after the strided convolution of a time encoder layer.
pub open spec fn tenc_conv_shape<T>(s: [usize; 3], layer: &TEncLayer<T>) -> [usize; 3] {
    conv::conv1d_shape(tenc_padded_shape(s), &layer.conv, 2, 4, 1)
}

/// Shape after the residual layers of a time encoder layer.
pub open spec fn tenc_dconv_shape<T>(s: [usize; 3], layer: &TEncLayer<T>) -> [usize; 3] {
    dconv::dconv_shape(
        tenc_conv_shape(s, layer),
        layer.dconv.layers@,
        layer.dconv.layers@.len() as int,
    )
}

/// Shape after the rewriting convolution of a time encoder layer.
pub open spec fn tenc_rewrite_shape<T>(s: [usize; 3], layer: &TEncLayer<T>) -> [usize; 3] {
    conv::conv1d_shape(tenc_dconv_shape(s, layer), &layer.rewrite, 0, 1, 1)
}

/// The shape that [`tenc_layer_forward`] gives.
#[verifier::opaque]
pub open spec fn tenc_shape<T>(s: [usize; 3], layer: &TEncLayer<T>) -> [usize; 3] {
    let r = tenc_rewrite_shape(s, layer);
    [r[0], (r[1] / 2) as usize, r[2]]
}

/// The inputs on which [`tenc_layer_forward`] is defined.
#[verifier::opaque]
pub open spec fn tenc_ok<T>(x_len: int, s: [usize; 3], layer: &TEncLayer<T>) -> bool {
    let p = tenc_padded_shape(s);
    let h = tenc_conv_shape(s, layer);
    let d = tenc_dconv_shape(s, layer);
    &&& index::size3(s) <= x_len
    &&& rounded_up(s[2] as int) <= usize::MAX
    &&& s[0] * s[1] <= usize::MAX
    &&& index::size3(p) <= usize::MAX
    &&& conv::conv1d_ok(index::size3(p), p, &layer.conv, layer.conv_bias.data@, 2, 4, 1)
    &&& dconv::dconv_ok(index::size3(h), h, layer.dconv.layers@)
    &&& conv::conv1d_ok(index::size3(d), d, &layer.rewrite, layer.rewrite_bias.data@, 0, 1, 1)
    &&& layer.rewrite.out_ch == 2 * layer.conv.out_ch
}

/// `out` is the result of [`tenc_layer_forward`].
#[verifier::opaque]
pub open spec fn is_tenc<A: Arith>(
    a: &A,
    x: Seq<A::T>,
    s: [usize; 3],
    layer: &TEncLayer<A::T>,
    out: Seq<A::T>,
) -> bool {
    let p = tenc_padded_shape(s);
    let h = tenc_conv_shape(s, layer);
    let d = tenc_dconv_shape(s, layer);
    let r = tenc_rewrite_shape(s, layer);
    exists|z: A::T, c: Seq<A::T>, g: Seq<A::T>, e: Seq<A::T>, w: Seq<A::T>|
        {
            &&& #[trigger] arith::is_zero(a, z)
            &&& #[trigger] conv::is_conv1d(
                a,
                layout::padded(x, s[0] * s[1], s[2] as int, p[2] as int, z),
                p,
                &layer.conv,
                layer.conv_bias.data@,
                2,
                4,
                1,
                c,
            )
            &&& #[trigger] elementwise::is_gelu(a, c, g)
            &&& #[trigger] dconv::is_dconv(a, g, h, layer.dconv.layers@, e)
            &&& #[trigger] conv::is_conv1d(
                a,
                e,
                d,
                &layer.rewrite,
                layer.rewrite_bias.data@,
                0,
                1,
                1,
                w,
            )
            &&& elementwise::is_glu(a, w, r[0] as int, r[1] as int / 2, r[2] as int, out)
        }
}

/// One layer of the time encoder on a `[B, C_in, T]` tensor: zeros to the right up to a
/// multiple of four samples, a convolution that quarters the samples, GELU, the residual
/// layers, a convolution to twice the channels, and GLU.
pub fn tenc_layer_forward<A: Arith>(a: &A, x: &[A::T], x_shape: [usize; 3], layer: &TEncLayer<A::T>) -> (r: (
    Vec<A::T>,
    [usize; 3],
))
    requires
        tenc_ok(x@.len() as int, x_shape, layer),
    ensures
        r.1 == tenc_shape(x_shape, layer),
        r.0@.len() == index::size3(r.1),
        is_tenc(a, x@, x_shape, layer, r.0@),
{
    proof {
        reveal(tenc_shape);
    }
    proof {
        reveal(tenc_ok);
        reveal(is_tenc);
    }
    let t: usize = x_shape[2];
    let pad_right: usize = if t % 4 == 0 {
        0
    } else {
        4 - t % 4
    };
    let t_padded: usize = t + pad_right;
    let p_shape: [usize; 3] = [x_shape[0], x_shape[1], t_padded];
    proof {
        assert(p_shape =~= tenc_padded_shape(x_shape));
        index::lemma_extent(x_shape[0] as int, x_shape[1] as int);
        index::lemma_extent(x_shape[0] * x_shape[1], t_padded as int);
    }
    let z: A::T = arith::zero(a);
    let x_padded: Vec<A::T> = layout::pad_rows(x, x_shape[0] * x_shape[1], t, t_padded, z);
    let (mut h, h_shape) = conv::conv1d_with_stride(
        a,
        &x_padded,
        p_shape,
        &layer.conv,
        &layer.conv_bias,
        2,
        4,
        1,
    );
    elementwise::gelu(a, &mut h);
    let (h3, h3_shape) = dconv::dconv_forward(a, &h, h_shape, &layer.dconv);
    let (h4, h4_shape) = conv::conv1d(a, &h3, h3_shape, &layer.rewrite, &layer.rewrite_bias, 0, 1);
    elementwise::glu_channel(a, &h4, h4_shape)
}

} // verus!
