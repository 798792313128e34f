//! Models with the same weights compute the same.
//!
//! Each lemma says of one part of the network that what holds of it with one set of weights
//! holds of it with another that is alike.
use vstd::prelude::*;
use crate::arith::Arith;
use crate::index;
use crate::model::Conv1dWeight;
use crate::model::Conv2dWeight;
use crate::model::CrossAttnLayer;
use crate::model::CrossDomainTransformer;
use crate::model::DConvLayer;
use crate::model::GroupNorm1;
use crate::model::HDecLayer;
use crate::model::HEncLayer;
use crate::model::HTDemucs;
use crate::model::LayerNorm1;
use crate::model::LayerScale;
use crate::model::MhaWeights;
use crate::model::SelfAttnLayer;
use crate::model::TDecLayer;
use crate::model::TEncLayer;
use crate::model::TransformerLayerWeights;
use crate::model::Weight2D;
use crate::ops_cpu::attention;
use crate::ops_cpu::conv;
use crate::ops_cpu::dconv;
use crate::ops_cpu::decoder;
use crate::ops_cpu::encoder;
use crate::ops_cpu::forward;
use crate::ops_cpu::transformer;
use crate::same_weights;
use crate::T_LAYERS;

verus! {

/// A convolution in one dimension.
proof fn conv1d<A: Arith>(a: &A, w: Conv1dWeight<A::T>, u: Conv1dWeight<A::T>)
    requires
        same_weights::same_conv1d(w, u, true),
    ensures
        forall|n: int, s: [usize; 3], b: Seq<A::T>, p: usize, t: usize, d: usize| #[trigger]
            conv::conv1d_ok(n, s, &w, b, p, t, d) ==> conv::conv1d_ok(n, s, &u, b, p, t, d),
        forall|
            x: Seq<A::T>,
            s: [usize; 3],
            b: Seq<A::T>,
            p: usize,
            t: usize,
            d: usize,
            out: Seq<A::T>,
        | #[trigger]
            conv::is_conv1d(a, x, s, &w, b, p, t, d, out) ==> conv::is_conv1d(
                a,
                x,
                s,
                &u,
                b,
                p,
                t,
                d,
                out,
            ),
{
    reveal(conv::conv1d_ok);
    reveal(conv::is_conv1d);
}

/// A convolution in two dimensions.
proof fn conv2d<A: Arith>(a: &A, w: Conv2dWeight<A::T>, u: Conv2dWeight<A::T>)
    requires
        same_weights::same_conv2d(w, u, true),
    ensures
        forall|
            n: int,
            s: [usize; 4],
            b: Seq<A::T>,
            p: usize,
            q: usize,
            t: usize,
            d: usize,
        | #[trigger]
            conv::conv2d_ok(n, s, &w, b, p, q, t, d) ==> conv::conv2d_ok(n, s, &u, b, p, q, t, d),
        forall|
            x: Seq<A::T>,
            s: [usize; 4],
            b: Seq<A::T>,
            p: usize,
            q: usize,
            t: usize,
            d: usize,
            out: Seq<A::T>,
        | #[trigger]
            conv::is_conv2d(a, x, s, &w, b, p, q, t, d, out) ==> conv::is_conv2d(
                a,
                x,
                s,
                &u,
                b,
                p,
                q,
                t,
                d,
                out,
            ),
{
    reveal(conv::conv2d_ok);
    reveal(conv::is_conv2d);
}

/// A transposed convolution in one dimension.
proof fn conv_transpose1d<A: Arith>(a: &A, w: Conv1dWeight<A::T>, u: Conv1dWeight<A::T>)
    requires
        same_weights::same_conv1d(w, u, true),
    ensures
        forall|n: int, s: [usize; 3], b: Seq<A::T>, p: usize, t: usize| #[trigger]
            conv::conv_transpose1d_ok(n, s, &w, b, p, t) ==> conv::conv_transpose1d_ok(
                n,
                s,
                &u,
                b,
                p,
                t,
            ),
        forall|x: Seq<A::T>, s: [usize; 3], b: Seq<A::T>, p: usize, t: usize, out: Seq<A::T>|
            #[trigger]
            conv::is_conv_transpose1d(a, x, s, &w, b, p, t, out) ==> conv::is_conv_transpose1d(
                a,
                x,
                s,
                &u,
                b,
                p,
                t,
                out,
            ),
{
    reveal(conv::conv_transpose1d_ok);
    reveal(conv::is_conv_transpose1d);
}

/// A transposed convolution in two dimensions.
proof fn conv_transpose2d<A: Arith>(a: &A, w: Conv2dWeight<A::T>, u: Conv2dWeight<A::T>)
    requires
        same_weights::same_conv2d(w, u, true),
    ensures
        forall|
            n: int,
            s: [usize; 4],
            b: Seq<A::T>,
            p: usize,
            q: usize,
            t: usize,
            d: usize,
        | #[trigger]
            conv::conv_transpose2d_ok(n, s, &w, b, p, q, t, d) ==> conv::conv_transpose2d_ok(
                n,
                s,
                &u,
                b,
                p,
                q,
                t,
                d,
            ),
        forall|
            x: Seq<A::T>,
            s: [usize; 4],
            b: Seq<A::T>,
            p: usize,
            q: usize,
            t: usize,
            d: usize,
            out: Seq<A::T>,
        | #[trigger]
            conv::is_conv_transpose2d(a, x, s, &w, b, p, q, t, d, out)
                ==> conv::is_conv_transpose2d(a, x, s, &u, b, p, q, t, d, out),
{
    reveal(conv::conv_transpose2d_ok);
    reveal(conv::is_conv_transpose2d);
}

/// A residual layer.
proof fn dconv_layer<A: Arith>(a: &A, l: DConvLayer<A::T>, k: DConvLayer<A::T>)
    requires
        same_weights::same_dconv_layer(l, k, true),
    ensures
        forall|s: [usize; 3], d: usize| #[trigger]
            dconv::dconv_layer_shape(s, &l, d) == dconv::dconv_layer_shape(s, &k, d),
        forall|n: int, s: [usize; 3], d: usize| #[trigger]
            dconv::dconv_layer_ok(n, s, &l, d) ==> dconv::dconv_layer_ok(n, s, &k, d),
        forall|x: Seq<A::T>, s: [usize; 3], d: usize, out: Seq<A::T>| #[trigger]
            dconv::is_dconv_layer(a, x, s, &l, d, out) ==> dconv::is_dconv_layer(
                a,
                x,
                s,
                &k,
                d,
                out,
            ),
{
    reveal(same_weights::same_dconv_layer);
    reveal(dconv::dconv_layer_shape);
    reveal(dconv::dconv_layer_ok);
    reveal(dconv::is_dconv_layer);
    conv1d(a, l.conv1, k.conv1);
    conv1d(a, l.conv2, k.conv2);
    assert forall|x: Seq<A::T>, s: [usize; 3], d: usize, out: Seq<A::T>| #[trigger]
        dconv::is_dconv_layer(a, x, s, &l, d, out) implies dconv::is_dconv_layer(
        a,
        x,
        s,
        &k,
        d,
        out,
    ) by {
        assert(dconv::compressed_shape(s, &l, d) == dconv::compressed_shape(s, &k, d));
        assert(dconv::expanded_shape(s, &l, d) == dconv::expanded_shape(s, &k, d));
    }
}

/// The shapes within a residual branch.
proof fn lemma_dconv_shape<A: Arith>(
    a: &A,
    s: [usize; 3],
    l: Seq<DConvLayer<A::T>>,
    k: Seq<DConvLayer<A::T>>,
    j: int,
)
    requires
        same_weights::same_dconv_layers(l, k, true),
        j <= l.len(),
    ensures
        dconv::dconv_shape(s, l, j) == dconv::dconv_shape(s, k, j),
    decreases j,
{
    if j > 0 {
        lemma_dconv_shape(a, s, l, k, j - 1);
        assert(same_weights::same_dconv_layer(l[j - 1], k[j - 1], true));
        dconv_layer(a, l[j - 1], k[j - 1]);
        let t = dconv::dconv_shape(s, l, j - 1);
        assert(dconv::dconv_layer_shape(t, &l[j - 1], dconv::dilation(j - 1) as usize)
            == dconv::dconv_layer_shape(t, &k[j - 1], dconv::dilation(j - 1) as usize));
    }
}

/// A residual branch.
proof fn dconv_branch<A: Arith>(a: &A, l: Seq<DConvLayer<A::T>>, k: Seq<DConvLayer<A::T>>)
    requires
        same_weights::same_dconv_layers(l, k, true),
    ensures
        forall|s: [usize; 3]| #[trigger]
            dconv::dconv_shape(s, l, l.len() as int) == dconv::dconv_shape(s, k, k.len() as int),
        forall|n: int, s: [usize; 3]| #[trigger]
            dconv::dconv_ok(n, s, l) ==> dconv::dconv_ok(n, s, k),
        forall|x: Seq<A::T>, s: [usize; 3], out: Seq<A::T>| #[trigger]
            dconv::is_dconv(a, x, s, l, out) ==> dconv::is_dconv(a, x, s, k, out),
{
    reveal(dconv::dconv_ok);
    reveal(dconv::is_dconv);
    assert forall|s: [usize; 3]| #[trigger]
        dconv::dconv_shape(s, l, l.len() as int) == dconv::dconv_shape(s, k, k.len() as int) by {
        lemma_dconv_shape(a, s, l, k, l.len() as int);
    }
    assert forall|n: int, s: [usize; 3]| #[trigger] dconv::dconv_ok(n, s, l) implies
        dconv::dconv_ok(n, s, k) by {
        assert forall|j: int|
            #![trigger k[j]]
            0 <= j < k.len() implies dconv::dconv_layer_ok(
            if j == 0 {
                n
            } else {
                index::size3(dconv::dconv_shape(s, k, j))
            },
            dconv::dconv_shape(s, k, j),
            &k[j],
            dconv::dilation(j) as usize,
        ) by {
            lemma_dconv_shape(a, s, l, k, j);
            assert(same_weights::same_dconv_layer(l[j], k[j], true));
            dconv_layer(a, l[j], k[j]);
        }
    }
    assert forall|x: Seq<A::T>, s: [usize; 3], out: Seq<A::T>| #[trigger]
        dconv::is_dconv(a, x, s, l, out) implies dconv::is_dconv(a, x, s, k, out) by {
        let steps = choose|steps: Seq<Seq<A::T>>| #[trigger]
            dconv::are_dconv_steps(a, x, s, l, steps) && out == steps.last();
        assert forall|j: int|
            #![trigger k[j]]
            0 <= j < k.len() implies dconv::is_dconv_layer(
            a,
            steps[j],
            dconv::dconv_shape(s, k, j),
            &k[j],
            dconv::dilation(j) as usize,
            steps[j + 1],
        ) by {
            lemma_dconv_shape(a, s, l, k, j);
            assert(same_weights::same_dconv_layer(l[j], k[j], true));
            dconv_layer(a, l[j], k[j]);
        }
        assert(dconv::are_dconv_steps(a, x, s, k, steps));
    }
}

/// A residual branch for each frequency.
proof fn per_frequency<A: Arith>(a: &A, l: Seq<DConvLayer<A::T>>, k: Seq<DConvLayer<A::T>>)
    requires
        same_weights::same_dconv_layers(l, k, true),
    ensures
        forall|s: [usize; 4]| #[trigger]
            encoder::per_frequency_shape(s, l) == encoder::per_frequency_shape(s, k),
        forall|s: [usize; 4]| #[trigger]
            encoder::per_frequency_ok(s, l) ==> encoder::per_frequency_ok(s, k),
        forall|x: Seq<A::T>, s: [usize; 4], out: Seq<A::T>| #[trigger]
            encoder::is_per_frequency(a, x, s, l, out) ==> encoder::is_per_frequency(
                a,
                x,
                s,
                k,
                out,
            ),
{
    reveal(encoder::per_frequency_ok);
    reveal(encoder::is_per_frequency);
    dconv_branch(a, l, k);
}

/// A layer of the frequency encoder.
proof fn henc<A: Arith>(a: &A, l: HEncLayer<A::T>, k: HEncLayer<A::T>)
    requires
        same_weights::same_henc(l, k, true),
    ensures
        forall|s: [usize; 4]| #[trigger] encoder::henc_shape(s, &l) == encoder::henc_shape(s, &k),
        forall|n: int, s: [usize; 4]| #[trigger]
            encoder::henc_ok(n, s, &l) ==> encoder::henc_ok(n, s, &k),
        forall|x: Seq<A::T>, s: [usize; 4], out: Seq<A::T>| #[trigger]
            encoder::is_henc(a, x, s, &l, out) ==> encoder::is_henc(a, x, s, &k, out),
{
    reveal(same_weights::same_henc);
    reveal(same_weights::same_dconv);
    reveal(encoder::henc_shape);
    reveal(encoder::henc_ok);
    reveal(encoder::is_henc);
    conv2d(a, l.conv, k.conv);
    conv2d(a, l.rewrite, k.rewrite);
    per_frequency(a, l.dconv.layers@, k.dconv.layers@);
    assert forall|x: Seq<A::T>, s: [usize; 4], out: Seq<A::T>| #[trigger]
        encoder::is_henc(a, x, s, &l, out) implies encoder::is_henc(a, x, s, &k, out) by {
        let h = encoder::henc_conv_shape(s, &l);
        assert(h == encoder::henc_conv_shape(s, &k));
        assert(encoder::per_frequency_shape(h, l.dconv.layers@) == encoder::per_frequency_shape(
            h,
            k.dconv.layers@,
        ));
        assert(encoder::henc_rewrite_shape(s, &l) == encoder::henc_rewrite_shape(s, &k));
    }
}

/// A layer of the time encoder.
proof fn tenc<A: Arith>(a: &A, l: TEncLayer<A::T>, k: TEncLayer<A::T>)
    requires
        same_weights::same_tenc(l, k, true),
    ensures
        forall|s: [usize; 3]| #[trigger] encoder::tenc_shape(s, &l) == encoder::tenc_shape(s, &k),
        forall|n: int, s: [usize; 3]| #[trigger]
            encoder::tenc_ok(n, s, &l) ==> encoder::tenc_ok(n, s, &k),
        forall|x: Seq<A::T>, s: [usize; 3], out: Seq<A::T>| #[trigger]
            encoder::is_tenc(a, x, s, &l, out) ==> encoder::is_tenc(a, x, s, &k, out),
{
    reveal(same_weights::same_tenc);
    reveal(same_weights::same_dconv);
    reveal(encoder::tenc_shape);
    reveal(encoder::tenc_ok);
    reveal(encoder::is_tenc);
    conv1d(a, l.conv, k.conv);
    conv1d(a, l.rewrite, k.rewrite);
    dconv_branch(a, l.dconv.layers@, k.dconv.layers@);
    assert forall|x: Seq<A::T>, s: [usize; 3], out: Seq<A::T>| #[trigger]
        encoder::is_tenc(a, x, s, &l, out) implies encoder::is_tenc(a, x, s, &k, out) by {
        assert(encoder::tenc_conv_shape(s, &l) == encoder::tenc_conv_shape(s, &k));
        assert(encoder::tenc_dconv_shape(s, &l) == encoder::tenc_dconv_shape(s, &k));
        assert(encoder::tenc_rewrite_shape(s, &l) == encoder::tenc_rewrite_shape(s, &k));
    }
}

/// A layer of the frequency decoder.
proof fn hdec<A: Arith>(a: &A, l: HDecLayer<A::T>, k: HDecLayer<A::T>)
    requires
        same_weights::same_hdec(l, k, true),
    ensures
        forall|s: [usize; 4], t: usize| #[trigger]
            decoder::hdec_shape(s, t, &l) == decoder::hdec_shape(s, t, &k),
        forall|n: int, s: [usize; 4], m: int, q: [usize; 4]| #[trigger]
            decoder::hdec_ok(n, s, m, q, &l) ==> decoder::hdec_ok(n, s, m, q, &k),
        forall|x: Seq<A::T>, s: [usize; 4], skip: Seq<A::T>, t: usize, out: Seq<A::T>| #[trigger]
            decoder::is_hdec(a, x, s, skip, t, &l, out) ==> decoder::is_hdec(
                a,
                x,
                s,
                skip,
                t,
                &k,
                out,
            ),
{
    reveal(same_weights::same_hdec);
    reveal(same_weights::same_dconv);
    reveal(decoder::hdec_shape);
    reveal(decoder::hdec_ok);
    reveal(decoder::is_hdec);
    conv2d(a, l.rewrite, k.rewrite);
    conv_transpose2d(a, l.conv_tr, k.conv_tr);
    per_frequency(a, l.dconv.layers@, k.dconv.layers@);
    assert forall|x: Seq<A::T>, s: [usize; 4], skip: Seq<A::T>, t: usize, out: Seq<A::T>| #[trigger]
        decoder::is_hdec(a, x, s, skip, t, &l, out) implies decoder::is_hdec(
        a,
        x,
        s,
        skip,
        t,
        &k,
        out,
    ) by {
        assert(decoder::hdec_rewrite_shape(s, &l) == decoder::hdec_rewrite_shape(s, &k));
        assert(decoder::hdec_glu_shape(s, &l) == decoder::hdec_glu_shape(s, &k));
        assert(decoder::hdec_dconv_shape(s, &l) == decoder::hdec_dconv_shape(s, &k));
        assert(decoder::hdec_tr_shape(s, &l) == decoder::hdec_tr_shape(s, &k));
    }
}

/// A layer of the time decoder.
proof fn tdec<A: Arith>(a: &A, l: TDecLayer<A::T>, k: TDecLayer<A::T>)
    requires
        same_weights::same_tdec(l, k, true),
    ensures
        forall|s: [usize; 3], t: usize| #[trigger]
            decoder::tdec_shape(s, t, &l) == decoder::tdec_shape(s, t, &k),
        forall|n: int, s: [usize; 3], m: int, q: [usize; 3]| #[trigger]
            decoder::tdec_ok(n, s, m, q, &l) ==> decoder::tdec_ok(n, s, m, q, &k),
        forall|
            x: Seq<A::T>,
            s: [usize; 3],
            skip: Seq<A::T>,
            q: [usize; 3],
            t: usize,
            out: Seq<A::T>,
        | #[trigger]
            decoder::is_tdec(a, x, s, skip, q, t, &l, out) ==> decoder::is_tdec(
                a,
                x,
                s,
                skip,
                q,
                t,
                &k,
                out,
            ),
{
    reveal(same_weights::same_tdec);
    reveal(same_weights::same_dconv);
    reveal(decoder::tdec_shape);
    reveal(decoder::tdec_ok);
    reveal(decoder::is_tdec);
    conv1d(a, l.rewrite, k.rewrite);
    conv_transpose1d(a, l.conv_tr, k.conv_tr);
    dconv_branch(a, l.dconv.layers@, k.dconv.layers@);
    assert forall|
        x: Seq<A::T>,
        s: [usize; 3],
        skip: Seq<A::T>,
        q: [usize; 3],
        t: usize,
        out: Seq<A::T>,
    | #[trigger]
        decoder::is_tdec(a, x, s, skip, q, t, &l, out) implies decoder::is_tdec(
        a,
        x,
        s,
        skip,
        q,
        t,
        &k,
        out,
    ) by {
        assert(decoder::tdec_rewrite_shape(s, &l) == decoder::tdec_rewrite_shape(s, &k));
        assert(decoder::tdec_glu_shape(s, &l) == decoder::tdec_glu_shape(s, &k));
        assert(decoder::tdec_dconv_shape(s, &l) == decoder::tdec_dconv_shape(s, &k));
        assert(decoder::tdec_tr_shape(s, &l) == decoder::tdec_tr_shape(s, &k));
    }
}

/// A layer normalization.
proof fn layer_norm<A: Arith>(a: &A, l: LayerNorm1<A::T>, k: LayerNorm1<A::T>)
    requires
        same_weights::same_layer_norm(l, k, true),
    ensures
        forall|d: usize| #[trigger]
            attention::layernorm_fits(&l, d) ==> attention::layernorm_fits(&k, d),
        forall|x: Seq<A::T>, d: int, out: Seq<A::T>| #[trigger]
            attention::is_layernorm(a, x, &l, d, out) ==> attention::is_layernorm(a, x, &k, d, out),
{
}

/// A scaled residual.
proof fn scaled_residual<A: Arith>(a: &A, l: LayerScale<A::T>, k: LayerScale<A::T>)
    requires
        same_weights::same_scale(l, k, true),
    ensures
        forall|x: Seq<A::T>, d: int, y: Seq<A::T>, out: Seq<A::T>| #[trigger]
            attention::is_scaled_residual(a, x, &l, d, y, out) ==> attention::is_scaled_residual(
                a,
                x,
                &k,
                d,
                y,
                out,
            ),
{
}

/// An attention.
proof fn mha<A: Arith>(a: &A, l: MhaWeights<A::T>, k: MhaWeights<A::T>)
    requires
        same_weights::same_mha(l, k, true),
    ensures
        forall|n: int, s: [usize; 3], m: int, t: [usize; 3]| #[trigger]
            attention::mha_ok(n, s, m, t, &l) ==> attention::mha_ok(n, s, m, t, &k),
        forall|x: Seq<A::T>, s: [usize; 3], y: Seq<A::T>, t: [usize; 3], out: Seq<A::T>| #[trigger]
            attention::is_mha(a, x, s, y, t, &l, out) ==> attention::is_mha(
                a,
                x,
                s,
                y,
                t,
                &k,
                out,
            ),
{
    reveal(same_weights::same_mha);
    reveal(attention::mha_ok);
    reveal(attention::is_mha);
    assert forall|x: Seq<A::T>, s: [usize; 3], part: int, q: Seq<A::T>| #[trigger]
        attention::is_projected(a, x, s, &l, part, q) implies attention::is_projected(
        a,
        x,
        s,
        &k,
        part,
        q,
    ) by {}
}

/// The part of a transformer layer after the attention.
proof fn ffn<A: Arith>(
    a: &A,
    ln: LayerNorm1<A::T>,
    w1: Weight2D<A::T>,
    w2: Weight2D<A::T>,
    gamma: LayerScale<A::T>,
    gn: GroupNorm1<A::T>,
    kn: LayerNorm1<A::T>,
    u1: Weight2D<A::T>,
    u2: Weight2D<A::T>,
    kappa: LayerScale<A::T>,
    km: GroupNorm1<A::T>,
)
    requires
        same_weights::same_layer_norm(ln, kn, true),
        same_weights::same_weight2d(w1, u1, true),
        same_weights::same_weight2d(w2, u2, true),
        same_weights::same_scale(gamma, kappa, true),
        same_weights::same_group_norm(gn, km, true),
    ensures
        forall|s: [usize; 3], b1: Seq<A::T>, b2: Seq<A::T>| #[trigger]
            attention::ffn_ok(s, &ln, &w1, b1, &w2, b2, &gamma, &gn) ==> attention::ffn_ok(
                s,
                &kn,
                &u1,
                b1,
                &u2,
                b2,
                &kappa,
                &km,
            ),
        forall|x: Seq<A::T>, s: [usize; 3], b1: Seq<A::T>, b2: Seq<A::T>, out: Seq<A::T>|
            #[trigger]
            attention::is_ffn(a, x, s, &ln, &w1, b1, &w2, b2, &gamma, &gn, out)
                ==> attention::is_ffn(a, x, s, &kn, &u1, b1, &u2, b2, &kappa, &km, out),
{
    reveal(attention::ffn_ok);
    reveal(attention::is_ffn);
    layer_norm(a, ln, kn);
    scaled_residual(a, gamma, kappa);
    assert forall|x: Seq<A::T>, n: int, b1: Seq<A::T>, b2: Seq<A::T>, out: Seq<A::T>| #[trigger]
        attention::is_feed_forward(a, x, n, &w1, b1, &w2, b2, out)
        implies attention::is_feed_forward(a, x, n, &u1, b1, &u2, b2, out) by {
        reveal(attention::is_feed_forward);
    }
    assert forall|x: Seq<A::T>, s: [usize; 3], out: Seq<A::T>| #[trigger]
        attention::is_norm_out(a, x, s, &gn, out) implies attention::is_norm_out(
        a,
        x,
        s,
        &km,
        out,
    ) by {
        reveal(attention::is_norm_out);
    }
}

/// A self-attention layer.
proof fn self_attn<A: Arith>(a: &A, l: SelfAttnLayer<A::T>, k: SelfAttnLayer<A::T>)
    requires
        same_weights::same_self_attn(l, k, true),
    ensures
        forall|s: [usize; 3]| #[trigger]
            attention::self_attn_ok(s, &l) ==> attention::self_attn_ok(s, &k),
        forall|x: Seq<A::T>, s: [usize; 3], out: Seq<A::T>| #[trigger]
            attention::is_self_attn(a, x, s, &l, out) ==> attention::is_self_attn(
                a,
                x,
                s,
                &k,
                out,
            ),
{
    reveal(same_weights::same_self_attn);
    reveal(attention::self_attn_ok);
    reveal(attention::is_self_attn);
    layer_norm(a, l.norm1, k.norm1);
    mha(a, l.attn, k.attn);
    scaled_residual(a, l.gamma_1, k.gamma_1);
    ffn(
        a,
        l.norm2,
        l.linear1,
        l.linear2,
        l.gamma_2,
        l.norm_out,
        k.norm2,
        k.linear1,
        k.linear2,
        k.gamma_2,
        k.norm_out,
    );
}

/// A cross-attention layer.
proof fn cross_attn<A: Arith>(a: &A, l: CrossAttnLayer<A::T>, k: CrossAttnLayer<A::T>)
    requires
        same_weights::same_cross_attn(l, k, true),
    ensures
        forall|s: [usize; 3], t: [usize; 3]| #[trigger]
            attention::cross_attn_ok(s, t, &l) ==> attention::cross_attn_ok(s, t, &k),
        forall|x: Seq<A::T>, s: [usize; 3], y: Seq<A::T>, t: [usize; 3], out: Seq<A::T>| #[trigger]
            attention::is_cross_attn(a, x, s, y, t, &l, out) ==> attention::is_cross_attn(
                a,
                x,
                s,
                y,
                t,
                &k,
                out,
            ),
{
    reveal(same_weights::same_cross_attn);
    reveal(attention::cross_attn_ok);
    reveal(attention::is_cross_attn);
    layer_norm(a, l.norm1, k.norm1);
    layer_norm(a, l.norm2, k.norm2);
    mha(a, l.attn, k.attn);
    scaled_residual(a, l.gamma_1, k.gamma_1);
    ffn(
        a,
        l.norm3,
        l.linear1,
        l.linear2,
        l.gamma_2,
        l.norm_out,
        k.norm3,
        k.linear1,
        k.linear2,
        k.gamma_2,
        k.norm_out,
    );
}

/// A layer of the transformer, for the frequencies and the times.
proof fn layer_pair<A: Arith>(
    a: &A,
    lf: TransformerLayerWeights<A::T>,
    lt: TransformerLayerWeights<A::T>,
    kf: TransformerLayerWeights<A::T>,
    kt: TransformerLayerWeights<A::T>,
)
    requires
        same_weights::same_transformer_layer(lf, kf, true),
        same_weights::same_transformer_layer(lt, kt, true),
    ensures
        forall|s: [usize; 3], t: [usize; 3]| #[trigger]
            transformer::layer_pair_ok(s, t, &lf, &lt) ==> transformer::layer_pair_ok(
                s,
                t,
                &kf,
                &kt,
            ),
        forall|
            x: Seq<A::T>,
            s: [usize; 3],
            y: Seq<A::T>,
            t: [usize; 3],
            f: Seq<A::T>,
            g: Seq<A::T>,
        | #[trigger]
            transformer::is_layer_pair(a, x, s, y, t, &lf, &lt, f, g)
                ==> transformer::is_layer_pair(a, x, s, y, t, &kf, &kt, f, g),
{
    reveal(same_weights::same_transformer_layer);
    reveal(transformer::layer_pair_ok);
    reveal(transformer::is_layer_pair);
    if lf.self_attn is Some {
        self_attn(a, lf.self_attn->0, kf.self_attn->0);
    }
    if lt.self_attn is Some {
        self_attn(a, lt.self_attn->0, kt.self_attn->0);
    }
    if lf.cross_attn is Some {
        cross_attn(a, lf.cross_attn->0, kf.cross_attn->0);
    }
    if lt.cross_attn is Some {
        cross_attn(a, lt.cross_attn->0, kt.cross_attn->0);
    }
}

/// A map of the channels of a frequency tensor, where there is one.
proof fn resampled4<A: Arith>(
    a: &A,
    l: Option<Conv1dWeight<A::T>>,
    lb: Option<Vec<A::T>>,
    k: Option<Conv1dWeight<A::T>>,
    kb: Option<Vec<A::T>>,
)
    requires
        l is Some <==> k is Some,
        l is Some ==> same_weights::same_conv1d(l->0, k->0, true),
        lb is Some <==> kb is Some,
        lb is Some ==> lb->0@ == kb->0@,
    ensures
        forall|s: [usize; 4]| #[trigger]
            transformer::resampled_shape4(s, &l, &lb) == transformer::resampled_shape4(s, &k, &kb),
        forall|n: int, s: [usize; 4]| #[trigger]
            transformer::resample4_ok(n, s, &l, &lb) ==> transformer::resample4_ok(n, s, &k, &kb),
        forall|x: Seq<A::T>, s: [usize; 4], out: Seq<A::T>| #[trigger]
            transformer::is_resampled4(a, x, s, &l, &lb, out) ==> transformer::is_resampled4(
                a,
                x,
                s,
                &k,
                &kb,
                out,
            ),
{
    reveal(transformer::resample4_ok);
    reveal(transformer::is_resampled4);
    reveal(transformer::channel_map_ok);
    reveal(transformer::is_channel_map);
    if l is Some {
        conv1d(a, l->0, k->0);
    }
}

/// A map of the channels of a time tensor, where there is one.
proof fn resampled3<A: Arith>(
    a: &A,
    l: Option<Conv1dWeight<A::T>>,
    lb: Option<Vec<A::T>>,
    k: Option<Conv1dWeight<A::T>>,
    kb: Option<Vec<A::T>>,
)
    requires
        l is Some <==> k is Some,
        l is Some ==> same_weights::same_conv1d(l->0, k->0, true),
        lb is Some <==> kb is Some,
        lb is Some ==> lb->0@ == kb->0@,
    ensures
        forall|s: [usize; 3]| #[trigger]
            transformer::resampled_shape3(s, &l, &lb) == transformer::resampled_shape3(s, &k, &kb),
        forall|n: int, s: [usize; 3]| #[trigger]
            transformer::resample3_ok(n, s, &l, &lb) ==> transformer::resample3_ok(n, s, &k, &kb),
        forall|x: Seq<A::T>, s: [usize; 3], out: Seq<A::T>| #[trigger]
            transformer::is_resampled3(a, x, s, &l, &lb, out) ==> transformer::is_resampled3(
                a,
                x,
                s,
                &k,
                &kb,
                out,
            ),
{
    reveal(transformer::resample3_ok);
    reveal(transformer::is_resampled3);
    if l is Some {
        conv1d(a, l->0, k->0);
    }
}

/// The inputs and outputs of the transformer.
proof fn transformer_ends<A: Arith>(
    a: &A,
    l: CrossDomainTransformer<A::T>,
    k: CrossDomainTransformer<A::T>,
)
    requires
        same_weights::same_transformer(l, k, true),
    ensures
        forall|s: [usize; 4]| #[trigger]
            transformer::freq_out_shape(s, &l) == transformer::freq_out_shape(s, &k),
        forall|s: [usize; 3]| #[trigger]
            transformer::time_out_shape(s, &l) == transformer::time_out_shape(s, &k),
        forall|x: Seq<A::T>, s: [usize; 4], f: Seq<A::T>| #[trigger]
            transformer::is_freq_input(a, x, s, &l, f) ==> transformer::is_freq_input(
                a,
                x,
                s,
                &k,
                f,
            ),
        forall|x: Seq<A::T>, s: [usize; 3], t: Seq<A::T>| #[trigger]
            transformer::is_time_input(a, x, s, &l, t) ==> transformer::is_time_input(
                a,
                x,
                s,
                &k,
                t,
            ),
{
    reveal(same_weights::same_transformer);
    reveal(transformer::is_freq_input);
    reveal(transformer::is_time_input);
    resampled4(
        a,
        l.channel_upsampler,
        l.channel_upsampler_bias,
        k.channel_upsampler,
        k.channel_upsampler_bias,
    );
    resampled4(
        a,
        l.channel_downsampler,
        l.channel_downsampler_bias,
        k.channel_downsampler,
        k.channel_downsampler_bias,
    );
    resampled3(
        a,
        l.channel_upsampler_t,
        l.channel_upsampler_t_bias,
        k.channel_upsampler_t,
        k.channel_upsampler_t_bias,
    );
    resampled3(
        a,
        l.channel_downsampler_t,
        l.channel_downsampler_t_bias,
        k.channel_downsampler_t,
        k.channel_downsampler_t_bias,
    );
    layer_norm(a, l.norm_in, k.norm_in);
    layer_norm(a, l.norm_in_t, k.norm_in_t);
}

/// The inputs on which the transformer is defined.
proof fn transformer_ok<A: Arith>(
    a: &A,
    l: CrossDomainTransformer<A::T>,
    k: CrossDomainTransformer<A::T>,
    n: int,
    fs: [usize; 4],
    m: int,
    ts: [usize; 3],
)
    requires
        same_weights::same_transformer(l, k, true),
        transformer::cross_domain_ok(n, fs, m, ts, &l),
    ensures
        transformer::cross_domain_ok(n, fs, m, ts, &k),
{
    reveal(same_weights::same_transformer);
    reveal(transformer::cross_domain_ok);
    reveal(transformer::layers_ok);
    resampled4(
        a,
        l.channel_upsampler,
        l.channel_upsampler_bias,
        k.channel_upsampler,
        k.channel_upsampler_bias,
    );
    resampled4(
        a,
        l.channel_downsampler,
        l.channel_downsampler_bias,
        k.channel_downsampler,
        k.channel_downsampler_bias,
    );
    resampled3(
        a,
        l.channel_upsampler_t,
        l.channel_upsampler_t_bias,
        k.channel_upsampler_t,
        k.channel_upsampler_t_bias,
    );
    resampled3(
        a,
        l.channel_downsampler_t,
        l.channel_downsampler_t_bias,
        k.channel_downsampler_t,
        k.channel_downsampler_t_bias,
    );
    layer_norm(a, l.norm_in, k.norm_in);
    layer_norm(a, l.norm_in_t, k.norm_in_t);
    let d = k.norm_in.dim;
    let f3 = transformer::freq_seq_shape(fs, d);
    let t3 = transformer::time_seq_shape(ts, d);
    assert forall|i: int|
        #![trigger k.layers@[i]]
        0 <= i < T_LAYERS implies transformer::layer_pair_ok(
        f3,
        t3,
        &k.layers@[i],
        &k.layers_t@[i],
    ) by {
        assert(same_weights::same_transformer_layer(l.layers@[i], k.layers@[i], true));
        assert(same_weights::same_transformer_layer(l.layers_t@[i], k.layers_t@[i], true));
        layer_pair(a, l.layers@[i], l.layers_t@[i], k.layers@[i], k.layers_t@[i]);
        assert(transformer::layer_pair_ok(f3, t3, &l.layers@[i], &l.layers_t@[i]));
    }
}

/// The transformer.
proof fn transformer_same<A: Arith>(
    a: &A,
    l: CrossDomainTransformer<A::T>,
    k: CrossDomainTransformer<A::T>,
)
    requires
        same_weights::same_transformer(l, k, true),
        l.layers@.len() >= T_LAYERS,
        l.layers_t@.len() >= T_LAYERS,
    ensures
        forall|
            x: Seq<A::T>,
            fs: [usize; 4],
            y: Seq<A::T>,
            ts: [usize; 3],
            f: Seq<A::T>,
            t: Seq<A::T>,
        | #[trigger]
            transformer::is_cross_domain(a, x, fs, y, ts, &l, f, t)
                ==> transformer::is_cross_domain(a, x, fs, y, ts, &k, f, t),
{
    reveal(transformer::is_cross_domain);
    assert forall|
        x: Seq<A::T>,
        fs: [usize; 4],
        y: Seq<A::T>,
        ts: [usize; 3],
        f: Seq<A::T>,
        t: Seq<A::T>,
    | #[trigger]
        transformer::is_cross_domain(a, x, fs, y, ts, &l, f, t)
        implies transformer::is_cross_domain(a, x, fs, y, ts, &k, f, t) by {
        let trace = choose|trace: Seq<(Seq<A::T>, Seq<A::T>)>| #[trigger]
            transformer::is_cross_domain_traced(a, x, fs, y, ts, &l, trace, f, t);
        lemma_traced(a, l, k, x, fs, y, ts, trace, f, t);
    }
}

/// The transformer with its trace.
proof fn lemma_traced<A: Arith>(
    a: &A,
    l: CrossDomainTransformer<A::T>,
    k: CrossDomainTransformer<A::T>,
    x: Seq<A::T>,
    fs: [usize; 4],
    y: Seq<A::T>,
    ts: [usize; 3],
    trace: Seq<(Seq<A::T>, Seq<A::T>)>,
    fo: Seq<A::T>,
    to: Seq<A::T>,
)
    requires
        same_weights::same_transformer(l, k, true),
        l.layers@.len() >= T_LAYERS,
        l.layers_t@.len() >= T_LAYERS,
        transformer::is_cross_domain_traced(a, x, fs, y, ts, &l, trace, fo, to),
    ensures
        transformer::is_cross_domain_traced(a, x, fs, y, ts, &k, trace, fo, to),
{
    transformer_ends(a, l, k);
    reveal(same_weights::same_transformer);
    reveal(transformer::is_cross_domain_traced);
    resampled4(
        a,
        l.channel_downsampler,
        l.channel_downsampler_bias,
        k.channel_downsampler,
        k.channel_downsampler_bias,
    );
    resampled3(
        a,
        l.channel_downsampler_t,
        l.channel_downsampler_t_bias,
        k.channel_downsampler_t,
        k.channel_downsampler_t_bias,
    );
    let d = k.norm_in.dim;
    let f3 = transformer::freq_seq_shape(fs, d);
    let t3 = transformer::time_seq_shape(ts, d);
    let (f, t) = choose|f: Seq<A::T>, t: Seq<A::T>|
        {
            &&& #[trigger] transformer::is_freq_input(a, x, fs, &l, f)
            &&& #[trigger] transformer::is_time_input(a, y, ts, &l, t)
            &&& trace.len() == T_LAYERS
            &&& transformer::is_layer_trace(a, f, f3, t, t3, &l, trace)
        };
    assert forall|i: int|
        #![trigger trace[i]]
        0 <= i < trace.len() implies transformer::is_layer_pair(
        a,
        transformer::state_before(f, t, trace, i).0,
        f3,
        transformer::state_before(f, t, trace, i).1,
        t3,
        &k.layers@[i],
        &k.layers_t@[i],
        trace[i].0,
        trace[i].1,
    ) by {
        assert(same_weights::same_transformer_layer(l.layers@[i], k.layers@[i], true));
        assert(same_weights::same_transformer_layer(l.layers_t@[i], k.layers_t@[i], true));
        layer_pair(a, l.layers@[i], l.layers_t@[i], k.layers@[i], k.layers_t@[i]);
    }
    assert(transformer::is_layer_trace(a, f, f3, t, t3, &k, trace));
}

/// The shapes after the layers of the frequency encoder.
proof fn freq_chain_shapes<A: Arith>(
    a: &A,
    s: [usize; 4],
    l: Seq<HEncLayer<A::T>>,
    k: Seq<HEncLayer<A::T>>,
    i: int,
)
    requires
        same_weights::same_hencs(l, k, true),
        i <= l.len(),
    ensures
        encoder::freq_chain_shape(s, l, i) == encoder::freq_chain_shape(s, k, i),
    decreases i,
{
    if i > 0 {
        freq_chain_shapes(a, s, l, k, i - 1);
        assert(same_weights::same_henc(l[i - 1], k[i - 1], true));
        henc(a, l[i - 1], k[i - 1]);
        let t = encoder::freq_chain_shape(s, l, i - 1);
        assert(encoder::henc_shape(t, &l[i - 1]) == encoder::henc_shape(t, &k[i - 1]));
    }
}

/// The shapes after the layers of the time encoder.
proof fn time_chain_shapes<A: Arith>(
    a: &A,
    s: [usize; 3],
    l: Seq<TEncLayer<A::T>>,
    k: Seq<TEncLayer<A::T>>,
    i: int,
)
    requires
        same_weights::same_tencs(l, k, true),
        i <= l.len(),
    ensures
        forward::time_chain_shape(s, l, i) == forward::time_chain_shape(s, k, i),
    decreases i,
{
    if i > 0 {
        time_chain_shapes(a, s, l, k, i - 1);
        assert(same_weights::same_tenc(l[i - 1], k[i - 1], true));
        tenc(a, l[i - 1], k[i - 1]);
        let t = forward::time_chain_shape(s, l, i - 1);
        assert(encoder::tenc_shape(t, &l[i - 1]) == encoder::tenc_shape(t, &k[i - 1]));
    }
}

/// The shapes after the layers of the frequency decoder.
proof fn freq_decoded_shapes<A: Arith>(
    a: &A,
    s: [usize; 4],
    fs: [usize; 4],
    le: Seq<HEncLayer<A::T>>,
    ld: Seq<HDecLayer<A::T>>,
    ke: Seq<HEncLayer<A::T>>,
    kd: Seq<HDecLayer<A::T>>,
    n: int,
    i: int,
)
    requires
        same_weights::same_hencs(le, ke, true),
        same_weights::same_hdecs(ld, kd, true),
        n <= le.len(),
        i <= n,
        i <= ld.len(),
    ensures
        forward::freq_decoded_shape(s, fs, le, ld, n, i) == forward::freq_decoded_shape(
            s,
            fs,
            ke,
            kd,
            n,
            i,
        ),
    decreases i,
{
    if i > 0 {
        freq_decoded_shapes(a, s, fs, le, ld, ke, kd, n, i - 1);
        assert(same_weights::same_hdec(ld[i - 1], kd[i - 1], true));
        hdec(a, ld[i - 1], kd[i - 1]);
        freq_chain_shapes(a, fs, le, ke, n - i);
        let t = forward::freq_decoded_shape(s, fs, le, ld, n, i - 1);
        let g = forward::freq_target(fs, le, n, i - 1);
        assert(g == forward::freq_target(fs, ke, n, i - 1));
        assert(decoder::hdec_shape(t, g, &ld[i - 1]) == decoder::hdec_shape(t, g, &kd[i - 1]));
    }
}

/// The shapes after the layers of the time decoder.
proof fn time_decoded_shapes<A: Arith>(
    a: &A,
    s: [usize; 3],
    ts: [usize; 3],
    le: Seq<TEncLayer<A::T>>,
    ld: Seq<TDecLayer<A::T>>,
    ke: Seq<TEncLayer<A::T>>,
    kd: Seq<TDecLayer<A::T>>,
    n: int,
    i: int,
)
    requires
        same_weights::same_tencs(le, ke, true),
        same_weights::same_tdecs(ld, kd, true),
        n <= le.len(),
        i <= n,
        i <= ld.len(),
    ensures
        forward::time_decoded_shape(s, ts, le, ld, n, i) == forward::time_decoded_shape(
            s,
            ts,
            ke,
            kd,
            n,
            i,
        ),
    decreases i,
{
    if i > 0 {
        time_decoded_shapes(a, s, ts, le, ld, ke, kd, n, i - 1);
        assert(same_weights::same_tdec(ld[i - 1], kd[i - 1], true));
        tdec(a, ld[i - 1], kd[i - 1]);
        time_chain_shapes(a, ts, le, ke, n - i);
        let t = forward::time_decoded_shape(s, ts, le, ld, n, i - 1);
        let g = forward::time_target(ts, le, n, i - 1);
        assert(g == forward::time_target(ts, ke, n, i - 1));
        assert(decoder::tdec_shape(t, g, &ld[i - 1]) == decoder::tdec_shape(t, g, &kd[i - 1]));
    }
}

/// The model has as many layers of each kind as its frequency encoder.
pub open spec fn is_even<T>(m: &HTDemucs<T>) -> bool {
    let n = m.encoders@.len();
    &&& n >= 1
    &&& n <= m.tencoders@.len()
    &&& n <= m.decoders@.len()
    &&& n <= m.tdecoders@.len()
    &&& T_LAYERS <= m.crosstransformer.layers@.len()
    &&& T_LAYERS <= m.crosstransformer.layers_t@.len()
}

/// A pass is defined for models with enough layers only.
proof fn lemma_even<T>(n: int, fs: [usize; 4], m: int, ts: [usize; 3], l: &HTDemucs<T>)
    requires
        forward::forward_ok(n, fs, m, ts, l),
    ensures
        is_even(l),
{
    reveal(forward::forward_ok);
    reveal(encoder::freq_chain_ok);
    reveal(forward::time_chain_ok);
    reveal(forward::freq_decode_ok);
    reveal(forward::time_decode_ok);
    reveal(transformer::cross_domain_ok);
    reveal(transformer::layers_ok);
}

/// All shapes of a pass.
proof fn pass_shapes<A: Arith>(
    a: &A,
    l: HTDemucs<A::T>,
    k: HTDemucs<A::T>,
    fs: [usize; 4],
    ts: [usize; 3],
)
    requires
        same_weights::same_model(l, k, true),
        is_even(&l),
    ensures
        ({
            let n = l.encoders@.len() as int;
            &&& n == k.encoders@.len()
            &&& encoder::freq_chain_shape(fs, l.encoders@, n) == encoder::freq_chain_shape(
                fs,
                k.encoders@,
                n,
            )
            &&& forward::time_chain_shape(ts, l.tencoders@, n) == forward::time_chain_shape(
                ts,
                k.tencoders@,
                n,
            )
        }),
        forall|s: [usize; 4]| #[trigger]
            transformer::freq_out_shape(s, &l.crosstransformer) == transformer::freq_out_shape(
                s,
                &k.crosstransformer,
            ),
        forall|s: [usize; 3]| #[trigger]
            transformer::time_out_shape(s, &l.crosstransformer) == transformer::time_out_shape(
                s,
                &k.crosstransformer,
            ),
        forward::forward_freq_shape(fs, &l) == forward::forward_freq_shape(fs, &k),
        forward::forward_time_shape(ts, &l) == forward::forward_time_shape(ts, &k),
{
    reveal(same_weights::same_model);
    let n = l.encoders@.len() as int;
    freq_chain_shapes(a, fs, l.encoders@, k.encoders@, n);
    time_chain_shapes(a, ts, l.tencoders@, k.tencoders@, n);
    transformer_ends(a, l.crosstransformer, k.crosstransformer);
    let f = transformer::freq_out_shape(
        encoder::freq_chain_shape(fs, l.encoders@, n),
        &l.crosstransformer,
    );
    let t = transformer::time_out_shape(
        forward::time_chain_shape(ts, l.tencoders@, n),
        &l.crosstransformer,
    );
    freq_decoded_shapes(a, f, fs, l.encoders@, l.decoders@, k.encoders@, k.decoders@, n, n);
    time_decoded_shapes(a, t, ts, l.tencoders@, l.tdecoders@, k.tencoders@, k.tdecoders@, n, n);
}

/// The inputs on which a pass is defined.
pub proof fn pass_ok<A: Arith>(
    a: &A,
    l: HTDemucs<A::T>,
    k: HTDemucs<A::T>,
    x: int,
    fs: [usize; 4],
    y: int,
    ts: [usize; 3],
)
    requires
        same_weights::same_model(l, k, true),
        forward::forward_ok(x, fs, y, ts, &l),
    ensures
        forward::forward_ok(x, fs, y, ts, &k),
        is_even(&l),
        forward::forward_freq_shape(fs, &l) == forward::forward_freq_shape(fs, &k),
        forward::forward_time_shape(ts, &l) == forward::forward_time_shape(ts, &k),
{
    lemma_even(x, fs, y, ts, &l);
    pass_shapes(a, l, k, fs, ts);
    reveal(same_weights::same_model);
    reveal(forward::forward_ok);
    let n = l.encoders@.len() as int;
    let f = encoder::freq_chain_shape(fs, l.encoders@, n);
    let t = forward::time_chain_shape(ts, l.tencoders@, n);
    transformer_ok(
        a,
        l.crosstransformer,
        k.crosstransformer,
        index::size4(f),
        f,
        index::size3(t),
        t,
    );
    freq_chain_oks(a, x, fs, l, k);
    time_chain_oks(a, y, ts, l, k);
    freq_decode_oks(a, transformer::freq_out_shape(f, &l.crosstransformer), fs, l, k);
    time_decode_oks(a, transformer::time_out_shape(t, &l.crosstransformer), ts, l, k);
}

/// The inputs on which the frequency encoder is defined.
proof fn freq_chain_oks<A: Arith>(
    a: &A,
    x: int,
    fs: [usize; 4],
    l: HTDemucs<A::T>,
    k: HTDemucs<A::T>,
)
    requires
        same_weights::same_model(l, k, true),
        is_even(&l),
        encoder::freq_chain_ok(x, fs, l.encoders@, l.encoders@.len() as int, &l.freq_emb),
    ensures
        encoder::freq_chain_ok(x, fs, k.encoders@, k.encoders@.len() as int, &k.freq_emb),
{
    reveal(same_weights::same_model);
    reveal(encoder::freq_chain_ok);
    let (e, g) = (l.encoders@, k.encoders@);
    freq_chain_shapes(a, fs, e, g, 1);
    assert forall|i: int|
        #![trigger g[i]]
        0 <= i < g.len() implies encoder::henc_ok(
        if i == 0 {
            x
        } else {
            index::size4(encoder::freq_chain_shape(fs, g, i))
        },
        encoder::freq_chain_shape(fs, g, i),
        &g[i],
    ) by {
        freq_chain_shapes(a, fs, e, g, i);
        assert(same_weights::same_henc(e[i], g[i], true));
        henc(a, e[i], g[i]);
    }
}

/// The inputs on which the time encoder is defined.
proof fn time_chain_oks<A: Arith>(
    a: &A,
    y: int,
    ts: [usize; 3],
    l: HTDemucs<A::T>,
    k: HTDemucs<A::T>,
)
    requires
        same_weights::same_model(l, k, true),
        is_even(&l),
        forward::time_chain_ok(y, ts, l.tencoders@, l.encoders@.len() as int),
    ensures
        forward::time_chain_ok(y, ts, k.tencoders@, k.encoders@.len() as int),
{
    reveal(same_weights::same_model);
    reveal(forward::time_chain_ok);
    let (e, g) = (l.tencoders@, k.tencoders@);
    assert forall|i: int|
        #![trigger g[i]]
        0 <= i < k.encoders@.len() implies encoder::tenc_ok(
        if i == 0 {
            y
        } else {
            index::size3(forward::time_chain_shape(ts, g, i))
        },
        forward::time_chain_shape(ts, g, i),
        &g[i],
    ) by {
        time_chain_shapes(a, ts, e, g, i);
        assert(same_weights::same_tenc(e[i], g[i], true));
        tenc(a, e[i], g[i]);
    }
}

/// The inputs on which the frequency decoder is defined.
proof fn freq_decode_oks<A: Arith>(
    a: &A,
    s: [usize; 4],
    fs: [usize; 4],
    l: HTDemucs<A::T>,
    k: HTDemucs<A::T>,
)
    requires
        same_weights::same_model(l, k, true),
        is_even(&l),
        forward::freq_decode_ok(s, fs, l.encoders@, l.decoders@, l.encoders@.len() as int),
    ensures
        forward::freq_decode_ok(s, fs, k.encoders@, k.decoders@, k.encoders@.len() as int),
{
    reveal(same_weights::same_model);
    reveal(forward::freq_decode_ok);
    let n = l.encoders@.len() as int;
    let (e, g) = (l.decoders@, k.decoders@);
    assert forall|i: int|
        #![trigger g[i]]
        0 <= i < n implies decoder::hdec_ok(
        index::size4(forward::freq_decoded_shape(s, fs, k.encoders@, g, n, i)),
        forward::freq_decoded_shape(s, fs, k.encoders@, g, n, i),
        index::size4(encoder::freq_chain_shape(fs, k.encoders@, n - i)),
        encoder::freq_chain_shape(fs, k.encoders@, n - i),
        &g[i],
    ) by {
        freq_decoded_shapes(a, s, fs, l.encoders@, e, k.encoders@, g, n, i);
        freq_chain_shapes(a, fs, l.encoders@, k.encoders@, n - i);
        assert(same_weights::same_hdec(e[i], g[i], true));
        hdec(a, e[i], g[i]);
    }
}

/// The inputs on which the time decoder is defined.
proof fn time_decode_oks<A: Arith>(
    a: &A,
    s: [usize; 3],
    ts: [usize; 3],
    l: HTDemucs<A::T>,
    k: HTDemucs<A::T>,
)
    requires
        same_weights::same_model(l, k, true),
        is_even(&l),
        forward::time_decode_ok(s, ts, l.tencoders@, l.tdecoders@, l.encoders@.len() as int),
    ensures
        forward::time_decode_ok(s, ts, k.tencoders@, k.tdecoders@, k.encoders@.len() as int),
{
    reveal(same_weights::same_model);
    reveal(forward::time_decode_ok);
    let n = l.encoders@.len() as int;
    let (e, g) = (l.tdecoders@, k.tdecoders@);
    assert forall|i: int|
        #![trigger g[i]]
        0 <= i < n implies decoder::tdec_ok(
        index::size3(forward::time_decoded_shape(s, ts, k.tencoders@, g, n, i)),
        forward::time_decoded_shape(s, ts, k.tencoders@, g, n, i),
        index::size3(forward::time_chain_shape(ts, k.tencoders@, n - i)),
        forward::time_chain_shape(ts, k.tencoders@, n - i),
        &g[i],
    ) by {
        time_decoded_shapes(a, s, ts, l.tencoders@, e, k.tencoders@, g, n, i);
        time_chain_shapes(a, ts, l.tencoders@, k.tencoders@, n - i);
        assert(same_weights::same_tdec(e[i], g[i], true));
        tdec(a, e[i], g[i]);
    }
}

/// The frequency encoder.
proof fn freq_outputs<A: Arith>(
    a: &A,
    x: Seq<A::T>,
    fs: [usize; 4],
    l: HTDemucs<A::T>,
    k: HTDemucs<A::T>,
    outs: Seq<Seq<A::T>>,
)
    requires
        same_weights::same_model(l, k, true),
        is_even(&l),
        outs.len() == l.encoders@.len(),
        encoder::are_freq_outputs(a, x, fs, l.encoders@, &l.freq_emb, outs),
    ensures
        encoder::are_freq_outputs(a, x, fs, k.encoders@, &k.freq_emb, outs),
{
    reveal(same_weights::same_model);
    let (e, g) = (l.encoders@, k.encoders@);
    freq_chain_shapes(a, fs, e, g, 1);
    let h = choose|h: Seq<A::T>| #[trigger]
        encoder::is_henc(a, x, fs, &e[0], h) && encoder::is_embedded(
            a,
            h,
            encoder::freq_chain_shape(fs, e, 1),
            &l.freq_emb,
            outs[0],
        );
    assert(same_weights::same_henc(e[0], g[0], true));
    henc(a, e[0], g[0]);
    assert(encoder::is_henc(a, x, fs, &g[0], h));
    assert(encoder::is_embedded(
        a,
        h,
        encoder::freq_chain_shape(fs, g, 1),
        &k.freq_emb,
        outs[0],
    )) by {
        reveal(encoder::is_embedded);
    }
    assert forall|i: int|
        #![trigger g[i]]
        1 <= i < outs.len() implies encoder::is_henc(
        a,
        outs[i - 1],
        encoder::freq_chain_shape(fs, g, i),
        &g[i],
        outs[i],
    ) by {
        freq_chain_shapes(a, fs, e, g, i);
        assert(same_weights::same_henc(e[i], g[i], true));
        henc(a, e[i], g[i]);
    }
}

/// The time encoder.
proof fn time_outputs<A: Arith>(
    a: &A,
    x: Seq<A::T>,
    ts: [usize; 3],
    l: HTDemucs<A::T>,
    k: HTDemucs<A::T>,
    outs: Seq<Seq<A::T>>,
)
    requires
        same_weights::same_model(l, k, true),
        is_even(&l),
        outs.len() == l.encoders@.len(),
        forward::are_time_outputs(a, x, ts, l.tencoders@, outs),
    ensures
        forward::are_time_outputs(a, x, ts, k.tencoders@, outs),
{
    reveal(same_weights::same_model);
    let (e, g) = (l.tencoders@, k.tencoders@);
    assert forall|i: int|
        #![trigger g[i]]
        0 <= i < outs.len() implies encoder::is_tenc(
        a,
        if i == 0 {
            x
        } else {
            outs[i - 1]
        },
        forward::time_chain_shape(ts, g, i),
        &g[i],
        outs[i],
    ) by {
        time_chain_shapes(a, ts, e, g, i);
        assert(same_weights::same_tenc(e[i], g[i], true));
        tenc(a, e[i], g[i]);
    }
}

/// The frequency decoder.
proof fn freq_decoded<A: Arith>(
    a: &A,
    x: Seq<A::T>,
    s: [usize; 4],
    fs: [usize; 4],
    l: HTDemucs<A::T>,
    k: HTDemucs<A::T>,
    skips: Seq<Seq<A::T>>,
    out: Seq<A::T>,
)
    requires
        same_weights::same_model(l, k, true),
        is_even(&l),
        skips.len() == l.encoders@.len(),
        forward::is_freq_decoded(a, x, s, fs, l.encoders@, skips, l.decoders@, out),
    ensures
        forward::is_freq_decoded(a, x, s, fs, k.encoders@, skips, k.decoders@, out),
{
    reveal(same_weights::same_model);
    reveal(forward::is_freq_decoded);
    let n = skips.len() as int;
    let (e, g) = (l.decoders@, k.decoders@);
    let outs = choose|outs: Seq<Seq<A::T>>| #[trigger]
        forward::are_freq_decoded(a, x, s, fs, l.encoders@, skips, e, outs) && outs.len()
            == skips.len() && out == outs.last();
    assert forall|i: int|
        #![trigger g[i]]
        0 <= i < outs.len() implies decoder::is_hdec(
        a,
        if i == 0 {
            x
        } else {
            outs[i - 1]
        },
        forward::freq_decoded_shape(s, fs, k.encoders@, g, n, i),
        skips[n - 1 - i],
        forward::freq_target(fs, k.encoders@, n, i),
        &g[i],
        outs[i],
    ) by {
        freq_decoded_shapes(a, s, fs, l.encoders@, e, k.encoders@, g, n, i);
        freq_chain_shapes(a, fs, l.encoders@, k.encoders@, n - 1 - i);
        assert(same_weights::same_hdec(e[i], g[i], true));
        hdec(a, e[i], g[i]);
    }
    assert(forward::are_freq_decoded(a, x, s, fs, k.encoders@, skips, g, outs));
}

/// The time decoder.
proof fn time_decoded<A: Arith>(
    a: &A,
    x: Seq<A::T>,
    s: [usize; 3],
    ts: [usize; 3],
    l: HTDemucs<A::T>,
    k: HTDemucs<A::T>,
    skips: Seq<Seq<A::T>>,
    out: Seq<A::T>,
)
    requires
        same_weights::same_model(l, k, true),
        is_even(&l),
        skips.len() == l.encoders@.len(),
        forward::is_time_decoded(a, x, s, ts, l.tencoders@, skips, l.tdecoders@, out),
    ensures
        forward::is_time_decoded(a, x, s, ts, k.tencoders@, skips, k.tdecoders@, out),
{
    reveal(same_weights::same_model);
    reveal(forward::is_time_decoded);
    let n = skips.len() as int;
    let (e, g) = (l.tdecoders@, k.tdecoders@);
    let outs = choose|outs: Seq<Seq<A::T>>| #[trigger]
        forward::are_time_decoded(a, x, s, ts, l.tencoders@, skips, e, outs) && outs.len()
            == skips.len() && out == outs.last();
    assert forall|i: int|
        #![trigger g[i]]
        0 <= i < outs.len() implies decoder::is_tdec(
        a,
        if i == 0 {
            x
        } else {
            outs[i - 1]
        },
        forward::time_decoded_shape(s, ts, k.tencoders@, g, n, i),
        skips[n - 1 - i],
        forward::time_chain_shape(ts, k.tencoders@, n - i),
        forward::time_target(ts, k.tencoders@, n, i),
        &g[i],
        outs[i],
    ) by {
        time_decoded_shapes(a, s, ts, l.tencoders@, e, k.tencoders@, g, n, i);
        time_chain_shapes(a, ts, l.tencoders@, k.tencoders@, n - i);
        time_chain_shapes(a, ts, l.tencoders@, k.tencoders@, n - 1 - i);
        assert(same_weights::same_tdec(e[i], g[i], true));
        tdec(a, e[i], g[i]);
    }
    assert(forward::are_time_decoded(a, x, s, ts, k.tencoders@, skips, g, outs));
}

/// Networks with the same weights give the same results.
pub proof fn same_pass<A: Arith>(
    a: &A,
    l: HTDemucs<A::T>,
    k: HTDemucs<A::T>,
    freq: Seq<A::T>,
    fs: [usize; 4],
    time: Seq<A::T>,
    ts: [usize; 3],
    freq_out: Seq<A::T>,
    time_out: Seq<A::T>,
)
    requires
        same_weights::same_model(l, k, true),
        is_even(&l),
        forward::is_forward(a, freq, fs, time, ts, &l, freq_out, time_out),
    ensures
        forward::is_forward(a, freq, fs, time, ts, &k, freq_out, time_out),
{
    pass_shapes(a, l, k, fs, ts);
    reveal(forward::is_forward);
    let n = l.encoders@.len() as int;
    let f = encoder::freq_chain_shape(fs, l.encoders@, n);
    let t = forward::time_chain_shape(ts, l.tencoders@, n);
    assert(same_weights::same_transformer(l.crosstransformer, k.crosstransformer, true)) by {
        reveal(same_weights::same_model);
    }
    transformer_same(a, l.crosstransformer, k.crosstransformer);
    let fo = transformer::freq_out_shape(f, &l.crosstransformer);
    let to = transformer::time_out_shape(t, &l.crosstransformer);
    assert(fo == transformer::freq_out_shape(f, &k.crosstransformer));
    assert(to == transformer::time_out_shape(t, &k.crosstransformer));
    assert forall|x: Seq<A::T>, outs: Seq<Seq<A::T>>|
        outs.len() == n && #[trigger] encoder::are_freq_outputs(
            a,
            x,
            fs,
            l.encoders@,
            &l.freq_emb,
            outs,
        ) implies encoder::are_freq_outputs(a, x, fs, k.encoders@, &k.freq_emb, outs) by {
        freq_outputs(a, x, fs, l, k, outs);
    }
    assert forall|x: Seq<A::T>, outs: Seq<Seq<A::T>>|
        outs.len() == n && #[trigger] forward::are_time_outputs(
            a,
            x,
            ts,
            l.tencoders@,
            outs,
        ) implies forward::are_time_outputs(a, x, ts, k.tencoders@, outs) by {
        time_outputs(a, x, ts, l, k, outs);
    }
    assert forall|x: Seq<A::T>, skips: Seq<Seq<A::T>>, out: Seq<A::T>|
        skips.len() == n && #[trigger] forward::is_freq_decoded(
            a,
            x,
            fo,
            fs,
            l.encoders@,
            skips,
            l.decoders@,
            out,
        ) implies forward::is_freq_decoded(
        a,
        x,
        fo,
        fs,
        k.encoders@,
        skips,
        k.decoders@,
        out,
    ) by {
        freq_decoded(a, x, fo, fs, l, k, skips, out);
    }
    assert forall|x: Seq<A::T>, skips: Seq<Seq<A::T>>, out: Seq<A::T>|
        skips.len() == n && #[trigger] forward::is_time_decoded(
            a,
            x,
            to,
            ts,
            l.tencoders@,
            skips,
            l.tdecoders@,
            out,
        ) implies forward::is_time_decoded(
        a,
        x,
        to,
        ts,
        k.tencoders@,
        skips,
        k.tdecoders@,
        out,
    ) by {
        time_decoded(a, x, to, ts, l, k, skips, out);
    }
}

} // verus!
