//! Under which name each parameter of the network is stored.
use vstd::prelude::*;
use crate::arith;
use crate::arith::Arith;
use crate::loading;
use crate::loading::Weights;
use crate::model::Conv1dWeight;
use crate::model::Conv2dWeight;
use crate::model::CrossAttnLayer;
use crate::model::DConvLayer;
use crate::model::HTDemucs;
use crate::model::MhaWeights;
use crate::model::SelfAttnLayer;
use crate::model::TransformerLayerWeights;
use crate::model::Weight2D;
use crate::ops_cpu::layout;
use crate::raw_tensor;
use crate::text;

verus! {

/// The bits of element `i` of a tensor in single precision, the lowest byte first.
pub open spec fn bits_of(data: Seq<u8>, i: int) -> int {
    data[4 * i] + 0x100 * data[4 * i + 1] + 0x1_0000 * data[4 * i + 2] + 0x100_0000 * data[4 * i
        + 3]
}

/// Numbers in single precision are stored in four bytes each, the lowest first, one after the
/// other.
pub proof fn single_precision_is_stored_in_four_bytes<A: Arith>(
    a: &A,
    t: raw_tensor::RawTensorView,
    out: Seq<A::T>,
    i: int,
)
    requires
        t.dtype is F32,
        raw_tensor::are_elements(a, t, out),
        0 <= i < out.len(),
    ensures
        4 * out.len() <= t.data.len() < 4 * out.len() + 4,
        0 <= bits_of(t.data, i) <= u32::MAX,
        arith::is_decoded(a, bits_of(t.data, i) as u32, out[i]),
{
    reveal(raw_tensor::are_elements);
    let r = out[i];
}

/// Numbers in half precision are stored in two bytes each, the lower first, one after the other;
/// those in the shortened single precision are the upper halves of numbers in single precision.
pub proof fn half_precision_is_stored_in_two_bytes<A: Arith>(
    a: &A,
    t: raw_tensor::RawTensorView,
    out: Seq<A::T>,
    i: int,
)
    requires
        t.dtype is F16 || t.dtype is BF16,
        raw_tensor::are_elements(a, t, out),
        0 <= i < out.len(),
    ensures
        2 * out.len() <= t.data.len() < 2 * out.len() + 2,
        ({
            let bits = t.data[2 * i] + 256 * t.data[2 * i + 1];
            if t.dtype is F16 {
                arith::is_decoded_half(a, bits as u16, out[i])
            } else {
                arith::is_decoded(a, (0x1_0000 * bits) as u32, out[i])
            }
        }),
{
    reveal(raw_tensor::are_elements);
    let r = out[i];
}

/// The number `i` as a name.
pub open spec fn number(i: int) -> Seq<char> {
    text::decimal_text(i as nat)
}

/// `v` are the numbers of the tensor with the name `key`.
pub open spec fn stored<A: Arith>(
    a: &A,
    m: Weights,
    sig: Seq<char>,
    key: Seq<char>,
    v: Seq<A::T>,
) -> bool {
    raw_tensor::are_elements(a, m[(sig, key)], v)
}

/// `w` is the kernel with the name `key`: output channels, input channels, height and width.
pub open spec fn stored4<A: Arith>(
    a: &A,
    m: Weights,
    sig: Seq<char>,
    key: Seq<char>,
    w: Conv2dWeight<A::T>,
) -> bool {
    let s = m[(sig, key)].shape;
    &&& w.out_ch == s[0] && w.in_ch == s[1] && w.kh == s[2] && w.kw == s[3]
    &&& stored(a, m, sig, key, w.data@)
}

/// `w` is the kernel with the name `key`: output channels, input channels and length.
pub open spec fn stored3<A: Arith>(
    a: &A,
    m: Weights,
    sig: Seq<char>,
    key: Seq<char>,
    w: Conv1dWeight<A::T>,
) -> bool {
    let s = m[(sig, key)].shape;
    &&& w.out_ch == s[0] && w.in_ch == s[1] && w.k == s[2]
    &&& stored(a, m, sig, key, w.data@)
}

/// `w` is the matrix with the name `key`.
pub open spec fn stored2<A: Arith>(
    a: &A,
    m: Weights,
    sig: Seq<char>,
    key: Seq<char>,
    w: Weight2D<A::T>,
) -> bool {
    let s = m[(sig, key)].shape;
    &&& w.rows == s[0] && w.cols == s[1]
    &&& stored(a, m, sig, key, w.data@)
}

/// `x` holds the numbers of a `[n, c, area]` tensor, its last two axes exchanged.
pub open spec fn is_turned<T>(x: Seq<T>, d: Seq<T>, n: int, c: int, area: int) -> bool {
    forall|i: int, j: int, p: int|
        0 <= i < n && 0 <= j < c && 0 <= p < area ==> #[trigger] x[(i * area + p) * c + j]
            == d[(i * c + j) * area + p]
}

/// `w` is the kernel of a transposed convolution with the name `key`, which is stored by input
/// channels, output channels, height and width; the output channels come last.
pub open spec fn stored_turned4<A: Arith>(
    a: &A,
    m: Weights,
    sig: Seq<char>,
    key: Seq<char>,
    w: Conv2dWeight<A::T>,
) -> bool {
    let s = m[(sig, key)].shape;
    &&& w.in_ch == s[0] && w.out_ch == s[1] && w.kh == s[2] && w.kw == s[3]
    &&& exists|d: Seq<A::T>| #[trigger]
        stored(a, m, sig, key, d) && is_turned(
            w.data@,
            d,
            w.in_ch as int,
            w.out_ch as int,
            w.kh * w.kw,
        )
}

/// As [`stored_turned4`], in one dimension.
pub open spec fn stored_turned3<A: Arith>(
    a: &A,
    m: Weights,
    sig: Seq<char>,
    key: Seq<char>,
    w: Conv1dWeight<A::T>,
) -> bool {
    let s = m[(sig, key)].shape;
    &&& w.in_ch == s[0] && w.out_ch == s[1] && w.k == s[2]
    &&& exists|d: Seq<A::T>| #[trigger]
        stored(a, m, sig, key, d) && is_turned(
            w.data@,
            d,
            w.in_ch as int,
            w.out_ch as int,
            w.k as int,
        )
}

/// Exchanging the axes of the kernels.
proof fn lemma_turned<T>(d: Seq<T>, n: int, c: int, area: int)
    requires
        0 <= n,
        0 <= c,
        0 <= area,
    ensures
        is_turned(layout::swapped(d, n, c, area, 1), d, n, c, area),
{
    let x = layout::swapped(d, n, c, area, 1);
    assert forall|i: int, j: int, p: int|
        0 <= i < n && 0 <= j < c && 0 <= p < area implies #[trigger] x[(i * area + p) * c + j]
        == d[(i * c + j) * area + p] by {
        layout::swapped_element(d, n, c, area, 1, i, j, p, 0);
    }
}

/// Kernels of transposed convolutions.
proof fn lemma_turned_kernels<A: Arith>(a: &A, m: Weights, sig: Seq<char>, p: Seq<char>)
    ensures
        forall|w: Conv2dWeight<A::T>| #[trigger]
            loading::is_conv_transpose2d(a, m, sig, p, w) ==> stored_turned4(
                a,
                m,
                sig,
                p + ".weight"@,
                w,
            ),
        forall|w: Conv1dWeight<A::T>| #[trigger]
            loading::is_conv_transpose1d(a, m, sig, p, w) ==> stored_turned3(
                a,
                m,
                sig,
                p + ".weight"@,
                w,
            ),
{
    reveal(loading::is_conv_transpose2d);
    reveal(loading::is_conv_transpose1d);
    let t = m[(sig, p + ".weight"@)];
    assert forall|w: Conv2dWeight<A::T>| #[trigger]
        loading::is_conv_transpose2d(a, m, sig, p, w) implies stored_turned4(
        a,
        m,
        sig,
        p + ".weight"@,
        w,
    ) by {
        let d = choose|d: Seq<A::T>| #[trigger]
            raw_tensor::are_elements(a, t, d) && w.data@ == layout::swapped(
                d,
                t.shape[0] as int,
                t.shape[1] as int,
                t.shape[2] * t.shape[3],
                1,
            );
        assert(0 <= t.shape[2] * t.shape[3]) by (nonlinear_arith)
            requires
                0 <= t.shape[2],
                0 <= t.shape[3],
        ;
        lemma_turned(d, t.shape[0] as int, t.shape[1] as int, t.shape[2] * t.shape[3]);
        assert(stored(a, m, sig, p + ".weight"@, d));
    }
    assert forall|w: Conv1dWeight<A::T>| #[trigger]
        loading::is_conv_transpose1d(a, m, sig, p, w) implies stored_turned3(
        a,
        m,
        sig,
        p + ".weight"@,
        w,
    ) by {
        let d = choose|d: Seq<A::T>| #[trigger]
            raw_tensor::are_elements(a, t, d) && w.data@ == layout::swapped(
                d,
                t.shape[0] as int,
                t.shape[1] as int,
                t.shape[2] as int,
                1,
            );
        lemma_turned(d, t.shape[0] as int, t.shape[1] as int, t.shape[2] as int);
        assert(stored(a, m, sig, p + ".weight"@, d));
    }
}

/// The names of the parameters of the frequency encoder.
pub proof fn encoder_names<A: Arith>(
    a: &A,
    m: Weights,
    sig: Seq<char>,
    n_sources: usize,
    width: usize,
    x: HTDemucs<A::T>,
    i: int,
)
    requires
        loading::is_htdemucs(a, m, sig, n_sources, width, x),
        0 <= i < 4,
    ensures
        x.encoders@.len() == 4,
        stored4(
            a,
            m,
            sig,
            "encoder"@ + "."@ + number(i) + ".conv"@ + ".weight"@,
            x.encoders@[i].conv,
        ),
        stored(
            a,
            m,
            sig,
            "encoder"@ + "."@ + number(i) + ".conv"@ + ".bias"@,
            x.encoders@[i].conv_bias.data@,
        ),
        stored4(
            a,
            m,
            sig,
            "encoder"@ + "."@ + number(i) + ".rewrite"@ + ".weight"@,
            x.encoders@[i].rewrite,
        ),
        stored(
            a,
            m,
            sig,
            "encoder"@ + "."@ + number(i) + ".rewrite"@ + ".bias"@,
            x.encoders@[i].rewrite_bias.data@,
        ),
{
    reveal(loading::is_htdemucs);
    reveal(loading::are_encoders);
    reveal(loading::is_henc);
    reveal(loading::is_conv2d);
    reveal(loading::is_bias);
    reveal(loading::is_vector);
    let l = x.encoders@[i];
}

/// The names of the parameters of the time encoder.
pub proof fn tencoder_names<A: Arith>(
    a: &A,
    m: Weights,
    sig: Seq<char>,
    n_sources: usize,
    width: usize,
    x: HTDemucs<A::T>,
    i: int,
)
    requires
        loading::is_htdemucs(a, m, sig, n_sources, width, x),
        0 <= i < 4,
    ensures
        x.tencoders@.len() == 4,
        stored3(
            a,
            m,
            sig,
            "tencoder"@ + "."@ + number(i) + ".conv"@ + ".weight"@,
            x.tencoders@[i].conv,
        ),
        stored(
            a,
            m,
            sig,
            "tencoder"@ + "."@ + number(i) + ".conv"@ + ".bias"@,
            x.tencoders@[i].conv_bias.data@,
        ),
        stored3(
            a,
            m,
            sig,
            "tencoder"@ + "."@ + number(i) + ".rewrite"@ + ".weight"@,
            x.tencoders@[i].rewrite,
        ),
        stored(
            a,
            m,
            sig,
            "tencoder"@ + "."@ + number(i) + ".rewrite"@ + ".bias"@,
            x.tencoders@[i].rewrite_bias.data@,
        ),
{
    reveal(loading::is_htdemucs);
    reveal(loading::are_encoders);
    reveal(loading::is_tenc);
    reveal(loading::is_conv1d);
    reveal(loading::is_bias);
    reveal(loading::is_vector);
    let l = x.tencoders@[i];
}

/// The names of the parameters of the frequency decoder, whose last layer, and no other, is marked
/// as the last.
pub proof fn decoder_names<A: Arith>(
    a: &A,
    m: Weights,
    sig: Seq<char>,
    n_sources: usize,
    width: usize,
    x: HTDemucs<A::T>,
    i: int,
)
    requires
        loading::is_htdemucs(a, m, sig, n_sources, width, x),
        0 <= i < 4,
    ensures
        x.decoders@.len() == 4,
        x.decoders@[i].last <==> i == 3,
        stored4(
            a,
            m,
            sig,
            "decoder"@ + "."@ + number(i) + ".rewrite"@ + ".weight"@,
            x.decoders@[i].rewrite,
        ),
        stored(
            a,
            m,
            sig,
            "decoder"@ + "."@ + number(i) + ".rewrite"@ + ".bias"@,
            x.decoders@[i].rewrite_bias.data@,
        ),
        stored_turned4(
            a,
            m,
            sig,
            "decoder"@ + "."@ + number(i) + ".conv_tr"@ + ".weight"@,
            x.decoders@[i].conv_tr,
        ),
        stored(
            a,
            m,
            sig,
            "decoder"@ + "."@ + number(i) + ".conv_tr"@ + ".bias"@,
            x.decoders@[i].conv_tr_bias.data@,
        ),
{
    reveal(loading::is_htdemucs);
    reveal(loading::are_decoders);
    reveal(loading::is_hdec);
    reveal(loading::is_conv2d);
    reveal(loading::is_bias);
    reveal(loading::is_vector);
    lemma_turned_kernels(a, m, sig, "decoder"@ + "."@ + number(i) + ".conv_tr"@);
    let l = x.decoders@[i];
}

/// The names of the parameters of the time decoder, whose last layer, and no other, is marked as
/// the last.
pub proof fn tdecoder_names<A: Arith>(
    a: &A,
    m: Weights,
    sig: Seq<char>,
    n_sources: usize,
    width: usize,
    x: HTDemucs<A::T>,
    i: int,
)
    requires
        loading::is_htdemucs(a, m, sig, n_sources, width, x),
        0 <= i < 4,
    ensures
        x.tdecoders@.len() == 4,
        x.tdecoders@[i].last <==> i == 3,
        stored3(
            a,
            m,
            sig,
            "tdecoder"@ + "."@ + number(i) + ".rewrite"@ + ".weight"@,
            x.tdecoders@[i].rewrite,
        ),
        stored(
            a,
            m,
            sig,
            "tdecoder"@ + "."@ + number(i) + ".rewrite"@ + ".bias"@,
            x.tdecoders@[i].rewrite_bias.data@,
        ),
        stored_turned3(
            a,
            m,
            sig,
            "tdecoder"@ + "."@ + number(i) + ".conv_tr"@ + ".weight"@,
            x.tdecoders@[i].conv_tr,
        ),
        stored(
            a,
            m,
            sig,
            "tdecoder"@ + "."@ + number(i) + ".conv_tr"@ + ".bias"@,
            x.tdecoders@[i].conv_tr_bias.data@,
        ),
{
    reveal(loading::is_htdemucs);
    reveal(loading::are_decoders);
    reveal(loading::is_tdec);
    reveal(loading::is_conv1d);
    reveal(loading::is_bias);
    reveal(loading::is_vector);
    lemma_turned_kernels(a, m, sig, "tdecoder"@ + "."@ + number(i) + ".conv_tr"@);
    let l = x.tdecoders@[i];
}

/// The parameters of a layer of a residual stack, under the name `p`.
pub open spec fn is_residual_layer<A: Arith>(
    a: &A,
    m: Weights,
    sig: Seq<char>,
    p: Seq<char>,
    l: DConvLayer<A::T>,
) -> bool {
    &&& stored3(a, m, sig, p + ".0"@ + ".weight"@, l.conv1)
    &&& stored(a, m, sig, p + ".0"@ + ".bias"@, l.conv1_bias.data@)
    &&& stored3(a, m, sig, p + ".3"@ + ".weight"@, l.conv2)
    &&& stored(a, m, sig, p + ".3"@ + ".bias"@, l.conv2_bias.data@)
    &&& stored(a, m, sig, p + ".1"@ + ".weight"@, l.norm1.gamma@)
    &&& stored(a, m, sig, p + ".1"@ + ".bias"@, l.norm1.beta@)
    &&& stored(a, m, sig, p + ".4"@ + ".weight"@, l.norm2.gamma@)
    &&& stored(a, m, sig, p + ".4"@ + ".bias"@, l.norm2.beta@)
    &&& stored(a, m, sig, p + ".6"@ + ".scale"@, l.scale.scale@)
}

/// The names of the parameters of the residual stacks.
pub proof fn residual_names<A: Arith>(
    a: &A,
    m: Weights,
    sig: Seq<char>,
    n_sources: usize,
    width: usize,
    x: HTDemucs<A::T>,
    i: int,
    j: int,
)
    requires
        loading::is_htdemucs(a, m, sig, n_sources, width, x),
        0 <= i < 4,
        0 <= j < 2,
    ensures
        x.encoders@[i].dconv.layers@.len() == 2,
        is_residual_layer(
            a,
            m,
            sig,
            "encoder"@ + "."@ + number(i) + ".dconv.layers"@ + "."@ + number(j),
            x.encoders@[i].dconv.layers@[j],
        ),
        x.tencoders@[i].dconv.layers@.len() == 2,
        is_residual_layer(
            a,
            m,
            sig,
            "tencoder"@ + "."@ + number(i) + ".dconv.layers"@ + "."@ + number(j),
            x.tencoders@[i].dconv.layers@[j],
        ),
        x.decoders@[i].dconv.layers@.len() == 2,
        is_residual_layer(
            a,
            m,
            sig,
            "decoder"@ + "."@ + number(i) + ".dconv.layers"@ + "."@ + number(j),
            x.decoders@[i].dconv.layers@[j],
        ),
        x.tdecoders@[i].dconv.layers@.len() == 2,
        is_residual_layer(
            a,
            m,
            sig,
            "tdecoder"@ + "."@ + number(i) + ".dconv.layers"@ + "."@ + number(j),
            x.tdecoders@[i].dconv.layers@[j],
        ),
{
    reveal(loading::is_htdemucs);
    reveal(loading::are_encoders);
    reveal(loading::are_decoders);
    reveal(loading::is_henc);
    reveal(loading::is_tenc);
    reveal(loading::is_hdec);
    reveal(loading::is_tdec);
    reveal(loading::are_dconv_layers);
    let (e, f, g, h) = (x.encoders@[i], x.tencoders@[i], x.decoders@[i], x.tdecoders@[i]);
    let p = number(i) + ".dconv.layers"@;
    lemma_residual(
        a,
        m,
        sig,
        "encoder"@ + "."@ + number(i) + ".dconv.layers"@ + "."@ + number(j),
        e.dconv.layers@[j],
    );
    lemma_residual(
        a,
        m,
        sig,
        "tencoder"@ + "."@ + number(i) + ".dconv.layers"@ + "."@ + number(j),
        f.dconv.layers@[j],
    );
    lemma_residual(
        a,
        m,
        sig,
        "decoder"@ + "."@ + number(i) + ".dconv.layers"@ + "."@ + number(j),
        g.dconv.layers@[j],
    );
    lemma_residual(
        a,
        m,
        sig,
        "tdecoder"@ + "."@ + number(i) + ".dconv.layers"@ + "."@ + number(j),
        h.dconv.layers@[j],
    );
}

/// A layer of a residual stack.
proof fn lemma_residual<A: Arith>(
    a: &A,
    m: Weights,
    sig: Seq<char>,
    p: Seq<char>,
    l: DConvLayer<A::T>,
)
    requires
        loading::is_dconv_layer(a, m, sig, p, l),
    ensures
        is_residual_layer(a, m, sig, p, l),
{
    reveal(loading::is_dconv_layer);
    reveal(loading::is_conv1d);
    reveal(loading::is_groupnorm);
    reveal(loading::is_layer_scale);
    reveal(loading::is_bias);
    reveal(loading::is_vector);
}

/// The parameters of attention of width `d`, under the name `p`.
pub open spec fn is_attention<A: Arith>(
    a: &A,
    m: Weights,
    sig: Seq<char>,
    p: Seq<char>,
    d: usize,
    l: MhaWeights<A::T>,
) -> bool {
    &&& stored(a, m, sig, p + ".in_proj_weight"@, l.in_proj_weight@)
    &&& stored(a, m, sig, p + ".in_proj_bias"@, l.in_proj_bias@)
    &&& stored(a, m, sig, p + ".out_proj"@ + ".weight"@, l.out_proj_weight@)
    &&& stored(a, m, sig, p + ".out_proj.bias"@, l.out_proj_bias@)
    &&& l.d_model == d
    &&& l.n_heads == 8
}

/// The parameters of a layer of self-attention, under the name `p`.
pub open spec fn is_self_attention<A: Arith>(
    a: &A,
    m: Weights,
    sig: Seq<char>,
    p: Seq<char>,
    d: usize,
    l: SelfAttnLayer<A::T>,
) -> bool {
    &&& stored(a, m, sig, p + ".norm1"@ + ".weight"@, l.norm1.gamma@)
    &&& stored(a, m, sig, p + ".norm1"@ + ".bias"@, l.norm1.beta@)
    &&& stored(a, m, sig, p + ".norm2"@ + ".weight"@, l.norm2.gamma@)
    &&& stored(a, m, sig, p + ".norm2"@ + ".bias"@, l.norm2.beta@)
    &&& stored(a, m, sig, p + ".norm_out"@ + ".weight"@, l.norm_out.gamma@)
    &&& stored(a, m, sig, p + ".norm_out"@ + ".bias"@, l.norm_out.beta@)
    &&& is_attention(a, m, sig, p + ".self_attn"@, d, l.attn)
    &&& stored2(a, m, sig, p + ".linear1"@ + ".weight"@, l.linear1)
    &&& stored(a, m, sig, p + ".linear1.bias"@, l.linear1_bias@)
    &&& stored2(a, m, sig, p + ".linear2"@ + ".weight"@, l.linear2)
    &&& stored(a, m, sig, p + ".linear2.bias"@, l.linear2_bias@)
    &&& stored(a, m, sig, p + ".gamma_1"@ + ".scale"@, l.gamma_1.scale@)
    &&& stored(a, m, sig, p + ".gamma_2"@ + ".scale"@, l.gamma_2.scale@)
}

/// The parameters of a layer of cross-attention, under the name `p`.
pub open spec fn is_cross_attention<A: Arith>(
    a: &A,
    m: Weights,
    sig: Seq<char>,
    p: Seq<char>,
    d: usize,
    l: CrossAttnLayer<A::T>,
) -> bool {
    &&& stored(a, m, sig, p + ".norm1"@ + ".weight"@, l.norm1.gamma@)
    &&& stored(a, m, sig, p + ".norm1"@ + ".bias"@, l.norm1.beta@)
    &&& stored(a, m, sig, p + ".norm2"@ + ".weight"@, l.norm2.gamma@)
    &&& stored(a, m, sig, p + ".norm2"@ + ".bias"@, l.norm2.beta@)
    &&& stored(a, m, sig, p + ".norm3"@ + ".weight"@, l.norm3.gamma@)
    &&& stored(a, m, sig, p + ".norm3"@ + ".bias"@, l.norm3.beta@)
    &&& stored(a, m, sig, p + ".norm_out"@ + ".weight"@, l.norm_out.gamma@)
    &&& stored(a, m, sig, p + ".norm_out"@ + ".bias"@, l.norm_out.beta@)
    &&& is_attention(a, m, sig, p + ".cross_attn"@, d, l.attn)
    &&& stored2(a, m, sig, p + ".linear1"@ + ".weight"@, l.linear1)
    &&& stored(a, m, sig, p + ".linear1.bias"@, l.linear1_bias@)
    &&& stored2(a, m, sig, p + ".linear2"@ + ".weight"@, l.linear2)
    &&& stored(a, m, sig, p + ".linear2.bias"@, l.linear2_bias@)
    &&& stored(a, m, sig, p + ".gamma_1"@ + ".scale"@, l.gamma_1.scale@)
    &&& stored(a, m, sig, p + ".gamma_2"@ + ".scale"@, l.gamma_2.scale@)
}

/// The parameters of a layer of the transformer, under the name `p`.
pub open spec fn is_attention_layer<A: Arith>(
    a: &A,
    m: Weights,
    sig: Seq<char>,
    p: Seq<char>,
    d: usize,
    l: TransformerLayerWeights<A::T>,
) -> bool {
    if m.contains_key((sig, p + ".self_attn.in_proj_weight"@)) {
        &&& l.cross_attn is None
        &&& l.self_attn is Some
        &&& is_self_attention(a, m, sig, p, d, l.self_attn->0)
    } else {
        &&& l.self_attn is None
        &&& l.cross_attn is Some
        &&& is_cross_attention(a, m, sig, p, d, l.cross_attn->0)
    }
}

/// A layer of the transformer.
proof fn lemma_attention_layer<A: Arith>(
    a: &A,
    m: Weights,
    sig: Seq<char>,
    p: Seq<char>,
    d: usize,
    l: TransformerLayerWeights<A::T>,
)
    requires
        loading::is_transformer_layer(a, m, sig, p, d, l),
    ensures
        is_attention_layer(a, m, sig, p, d, l),
{
    reveal(loading::is_transformer_layer);
    reveal(loading::is_self_attn);
    reveal(loading::is_cross_attn);
    reveal(loading::is_mha);
    reveal(loading::is_layernorm);
    reveal(loading::is_groupnorm);
    reveal(loading::is_weight2d);
    reveal(loading::is_layer_scale);
    reveal(loading::is_vector);
}

/// The names of the parameters of the layers of the transformer: those of the frequencies and
/// those of the time.
pub proof fn transformer_layer_names<A: Arith>(
    a: &A,
    m: Weights,
    sig: Seq<char>,
    n_sources: usize,
    width: usize,
    x: HTDemucs<A::T>,
    i: int,
)
    requires
        loading::is_htdemucs(a, m, sig, n_sources, width, x),
        0 <= i < 5,
    ensures
        x.crosstransformer.layers@.len() == 5,
        x.crosstransformer.layers_t@.len() == 5,
        is_attention_layer(
            a,
            m,
            sig,
            "crosstransformer.layers"@ + "."@ + number(i),
            width,
            x.crosstransformer.layers@[i],
        ),
        is_attention_layer(
            a,
            m,
            sig,
            "crosstransformer.layers_t"@ + "."@ + number(i),
            width,
            x.crosstransformer.layers_t@[i],
        ),
{
    reveal(loading::is_htdemucs);
    reveal(loading::is_cross_domain);
    reveal(loading::are_transformer_layers);
    let (l, k) = (x.crosstransformer.layers@[i], x.crosstransformer.layers_t@[i]);
    lemma_attention_layer(a, m, sig, "crosstransformer.layers"@ + "."@ + number(i), width, l);
    lemma_attention_layer(a, m, sig, "crosstransformer.layers_t"@ + "."@ + number(i), width, k);
}

/// The names of the other parameters of the transformer, and of the embedding of frequencies,
/// which counts tenfold.
pub proof fn transformer_names<A: Arith>(
    a: &A,
    m: Weights,
    sig: Seq<char>,
    n_sources: usize,
    width: usize,
    x: HTDemucs<A::T>,
)
    requires
        loading::is_htdemucs(a, m, sig, n_sources, width, x),
    ensures
        stored(
            a,
            m,
            sig,
            "crosstransformer.norm_in"@ + ".weight"@,
            x.crosstransformer.norm_in.gamma@,
        ),
        stored(a, m, sig, "crosstransformer.norm_in"@ + ".bias"@, x.crosstransformer.norm_in.beta@),
        stored(
            a,
            m,
            sig,
            "crosstransformer.norm_in_t"@ + ".weight"@,
            x.crosstransformer.norm_in_t.gamma@,
        ),
        stored(
            a,
            m,
            sig,
            "crosstransformer.norm_in_t"@ + ".bias"@,
            x.crosstransformer.norm_in_t.beta@,
        ),
        x.crosstransformer.channel_upsampler is Some <==> width != 384,
        x.crosstransformer.channel_upsampler_bias is Some <==> width != 384,
        width != 384 ==> stored3(
            a,
            m,
            sig,
            "channel_upsampler"@ + ".weight"@,
            x.crosstransformer.channel_upsampler->0,
        ),
        width != 384 ==> stored(
            a,
            m,
            sig,
            "channel_upsampler"@ + ".bias"@,
            x.crosstransformer.channel_upsampler_bias->0@,
        ),
        x.crosstransformer.channel_downsampler is Some <==> width != 384,
        x.crosstransformer.channel_downsampler_bias is Some <==> width != 384,
        width != 384 ==> stored3(
            a,
            m,
            sig,
            "channel_downsampler"@ + ".weight"@,
            x.crosstransformer.channel_downsampler->0,
        ),
        width != 384 ==> stored(
            a,
            m,
            sig,
            "channel_downsampler"@ + ".bias"@,
            x.crosstransformer.channel_downsampler_bias->0@,
        ),
        x.crosstransformer.channel_upsampler_t is Some <==> width != 384,
        x.crosstransformer.channel_upsampler_t_bias is Some <==> width != 384,
        width != 384 ==> stored3(
            a,
            m,
            sig,
            "channel_upsampler_t"@ + ".weight"@,
            x.crosstransformer.channel_upsampler_t->0,
        ),
        width != 384 ==> stored(
            a,
            m,
            sig,
            "channel_upsampler_t"@ + ".bias"@,
            x.crosstransformer.channel_upsampler_t_bias->0@,
        ),
        x.crosstransformer.channel_downsampler_t is Some <==> width != 384,
        x.crosstransformer.channel_downsampler_t_bias is Some <==> width != 384,
        width != 384 ==> stored3(
            a,
            m,
            sig,
            "channel_downsampler_t"@ + ".weight"@,
            x.crosstransformer.channel_downsampler_t->0,
        ),
        width != 384 ==> stored(
            a,
            m,
            sig,
            "channel_downsampler_t"@ + ".bias"@,
            x.crosstransformer.channel_downsampler_t_bias->0@,
        ),
        ({
            let t = m[(sig, "freq_emb.embedding.weight"@)];
            &&& x.freq_emb.n_bins == t.shape[0]
            &&& x.freq_emb.dim == t.shape[1]
            &&& x.freq_emb.data@.len() == raw_tensor::element_count(t)
            &&& forall|i: int|
                0 <= i < x.freq_emb.data@.len() ==> loading::is_tenfold_element(
                    a,
                    t,
                    i,
                    #[trigger] x.freq_emb.data@[i],
                )
        }),
        x.n_sources == n_sources,
{
    reveal(loading::is_htdemucs);
    reveal(loading::is_cross_domain);
    reveal(loading::is_resampler);
    reveal(loading::is_conv1d);
    reveal(loading::is_layernorm);
    reveal(loading::is_vector);
    reveal(loading::is_freq_emb);
}

/// Of a loaded model, the last layer of each of the two decoders is marked as the last, and no
/// other: the two branches end alike.
pub open spec fn ends_in_its_last_layers<T>(x: HTDemucs<T>) -> bool {
    &&& x.decoders@.len() == x.encoders@.len()
    &&& x.tdecoders@.len() == x.encoders@.len()
    &&& forall|i: int|
        0 <= i < x.decoders@.len() ==> ((#[trigger] x.decoders@[i]).last <==> i + 1
            == x.decoders@.len())
    &&& forall|i: int|
        0 <= i < x.tdecoders@.len() ==> ((#[trigger] x.tdecoders@[i]).last <==> i + 1
            == x.tdecoders@.len())
}

/// Every loaded model ends in its last layers.
pub proof fn loaded_models_end_in_their_last_layers<A: Arith>(
    a: &A,
    m: Weights,
    sig: Seq<char>,
    n_sources: usize,
    width: usize,
    x: HTDemucs<A::T>,
)
    requires
        loading::is_htdemucs(a, m, sig, n_sources, width, x),
    ensures
        ends_in_its_last_layers(x),
{
    encoder_names(a, m, sig, n_sources, width, x, 0);
    decoder_names(a, m, sig, n_sources, width, x, 0);
    tdecoder_names(a, m, sig, n_sources, width, x, 0);
    assert forall|i: int| 0 <= i < x.decoders@.len() implies ((#[trigger] x.decoders@[i]).last
        <==> i + 1 == x.decoders@.len()) by {
        decoder_names(a, m, sig, n_sources, width, x, i);
    }
    assert forall|i: int| 0 <= i < x.tdecoders@.len() implies ((#[trigger] x.tdecoders@[i]).last
        <==> i + 1 == x.tdecoders@.len()) by {
        tdecoder_names(a, m, sig, n_sources, width, x, i);
    }
}

} // verus!
