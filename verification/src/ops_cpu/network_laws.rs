//! How the parts of the network are put together, without rounding.
use vstd::prelude::*;
use crate::arith::Arith;
use crate::exact;
use crate::index;
use crate::model::CrossAttnLayer;
use crate::model::DConvLayer;
use crate::model::HTDemucs;
use crate::model::LayerScale;
use crate::model::SelfAttnLayer;
use crate::model::TransformerLayerWeights;
use crate::ops_cpu::attention;
use crate::ops_cpu::conv;
use crate::ops_cpu::dconv;
use crate::ops_cpu::elementwise;
use crate::ops_cpu::encoder;
use crate::ops_cpu::forward;
use crate::ops_cpu::layout;
use crate::ops_cpu::norm;
use crate::ops_cpu::operator_laws;
use crate::ops_cpu::standardize;
use crate::ops_cpu::transformer;

verus! {

/// The taps of the layers of a residual stack lie a power of two apart.
pub proof fn dilations_double(j: int)
    requires
        0 <= j,
    ensures
        dconv::dilation(j) == vstd::arithmetic::power2::pow2(j as nat),
    decreases j,
{
    reveal(vstd::arithmetic::power2::pow2);
    if j > 0 {
        dilations_double(j - 1);
        vstd::arithmetic::power2::lemma_pow2_unfold(j as nat);
    } else {
        vstd::arithmetic::power2::lemma2_to64();
    }
}

/// `out`, with `n` numbers in each row, is `x`, of shape `s`, plus `g` by the scale of each
/// channel.
pub open spec fn is_residual_of<T>(
    val: spec_fn(T) -> real,
    x: Seq<T>,
    s: [usize; 3],
    n: int,
    g: Seq<T>,
    scale: &LayerScale<T>,
    out: Seq<T>,
) -> bool {
    forall|b: int, c: int, t: int|
        0 <= b < s[0] && 0 <= c < s[1] && 0 <= t < n ==> val(
            #[trigger] out[index::pos3(b, c, t, s[1] as int, n)],
        ) == val(x[index::pos3(b, c, t, s[1] as int, s[2] as int)]) + val(
            g[index::pos3(b, c, t, s[1] as int, n)],
        ) * val(scale.scale@[c])
}

/// A residual layer gives its input plus what it computes, by the scale of the channel: where the
/// scale is zero, it gives back its input.
pub proof fn residual_layers_add_to_their_input<A: Arith>(
    a: &A,
    val: spec_fn(A::T) -> real,
    x: Seq<A::T>,
    s: [usize; 3],
    layer: &DConvLayer<A::T>,
    dilation: usize,
    out: Seq<A::T>,
) -> (g: Seq<A::T>)
    requires
        exact::is_exact(a, val),
        dconv::dconv_layer_ok(x.len() as int, s, layer, dilation),
        dconv::is_dconv_layer(a, x, s, layer, dilation, out),
    ensures
        dconv::dconv_layer_shape(s, layer, dilation)[0] == s[0],
        dconv::dconv_layer_shape(s, layer, dilation)[1] == s[1],
        dconv::dconv_layer_shape(s, layer, dilation)[2] <= s[2],
        is_residual_of(
            val,
            x,
            s,
            dconv::dconv_layer_shape(s, layer, dilation)[2] as int,
            g,
            &layer.scale,
            out,
        ),
{
    reveal(dconv::is_dconv_layer);
    reveal(dconv::dconv_layer_ok);
    reveal(dconv::dconv_layer_shape);
    let h = dconv::compressed_shape(s, layer, dilation);
    let e = dconv::expanded_shape(s, layer, dilation);
    let (c1, n1, g1, c2, n2, g2, sc) = choose|
        c1: Seq<A::T>,
        n1: Seq<A::T>,
        g1: Seq<A::T>,
        c2: Seq<A::T>,
        n2: Seq<A::T>,
        g2: Seq<A::T>,
        sc: Seq<A::T>,
    |
        {
            &&& #[trigger] conv::is_conv1d(
                a,
                x,
                s,
                &layer.conv1,
                layer.conv1_bias.data@,
                dilation,
                1,
                dilation,
                c1,
            )
            &&& #[trigger] norm::is_run_normalized(
                a,
                c1,
                h[1] as int,
                h[2] as int,
                layer.norm1.gamma@,
                layer.norm1.beta@,
                n1,
            )
            &&& #[trigger] elementwise::is_gelu(a, n1, g1)
            &&& #[trigger] conv::is_conv1d(
                a,
                g1,
                h,
                &layer.conv2,
                layer.conv2_bias.data@,
                0,
                1,
                1,
                c2,
            )
            &&& #[trigger] norm::is_run_normalized(
                a,
                c2,
                e[1] as int,
                e[2] as int,
                layer.norm2.gamma@,
                layer.norm2.beta@,
                n2,
            )
            &&& #[trigger] elementwise::is_glu(a, n2, e[0] as int, e[1] as int / 2, e[2] as int, g2)
            &&& #[trigger] elementwise::is_scaled(
                a,
                g2,
                e[1] as int / 2,
                e[2] as int,
                layer.scale.scale@,
                sc,
            )
            &&& elementwise::is_added(
                a,
                sc,
                layout::trimmed(x, s[0] * s[1], s[2] as int, 1, e[2] as int),
                out,
            )
        };
    let y = layout::trimmed(x, s[0] * s[1], s[2] as int, 1, e[2] as int);
    let (batch, ch, n) = (s[0] as int, s[1] as int, e[2] as int);
    assert(g2.len() == batch * ch * n) by {
        reveal(elementwise::is_glu);
    }
    assert(sc.len() == g2.len()) by {
        reveal(elementwise::is_scaled);
    }
    assert forall|b: int, c: int, t: int| 0 <= b < batch && 0 <= c < ch && 0 <= t < n implies val(
        #[trigger] out[index::pos3(b, c, t, ch, n)],
    ) == val(x[index::pos3(b, c, t, ch, s[2] as int)]) + val(g2[index::pos3(b, c, t, ch, n)])
        * val(layer.scale.scale@[c]) by {
        let p = index::pos3(b, c, t, ch, n);
        index::lemma_triple(b, c, t, batch, ch, n);
        operator_laws::scaling_is_by_channel(
            a,
            val,
            g2,
            ch,
            n,
            layer.scale.scale@,
            sc,
            batch,
            b,
            c,
            t,
        );
        operator_laws::adding_is_by_number(a, val, sc, y, out, p);
        index::lemma_pair(b, c, batch, ch);
        operator_laws::trimmed_element(x, batch * ch, s[2] as int, 1, n, b * ch + c, t, 0);
        assert(((b * ch + c) * n + t) * 1 + 0 == p);
        assert(((b * ch + c) * s[2] + t) * 1 + 0 == index::pos3(b, c, t, ch, s[2] as int));
    }
    g2
}

/// `y` is `x` plus `m` by the scale of each of `d` features.
pub open spec fn is_added_by_scale<T>(
    val: spec_fn(T) -> real,
    x: Seq<T>,
    m: Seq<T>,
    gamma: &LayerScale<T>,
    d: int,
    y: Seq<T>,
) -> bool {
    &&& y.len() == x.len()
    &&& forall|i: int|
        0 <= i < x.len() ==> val(#[trigger] y[i]) == val(x[i]) + val(m[i]) * val(
            gamma.scale@[i % d],
        )
}

/// A scaled residual.
proof fn lemma_residual<A: Arith>(
    a: &A,
    val: spec_fn(A::T) -> real,
    x: Seq<A::T>,
    gamma: &LayerScale<A::T>,
    d: int,
    m: Seq<A::T>,
    y: Seq<A::T>,
)
    requires
        exact::is_exact(a, val),
        m.len() == x.len(),
        attention::is_scaled_residual(a, x, gamma, d, m, y),
    ensures
        is_added_by_scale(val, x, m, gamma, d, y),
{
    reveal(elementwise::is_scaled);
    reveal(elementwise::is_added);
    let sc = choose|sc: Seq<A::T>| #[trigger]
        elementwise::is_scaled(a, m, d, 1, gamma.scale@, sc) && elementwise::is_added(
            a,
            x,
            sc,
            y,
        );
    assert forall|i: int| 0 <= i < x.len() implies val(#[trigger] y[i]) == val(x[i]) + val(m[i])
        * val(gamma.scale@[i % d]) by {
        let r = y[i];
        let q = sc[i];
        assert(i / 1 == i);
    }
}

/// A layer of self-attention: first the input asks itself, both sides normalized, and the answers
/// are added to it by the first scale; then comes the second part, which is added by the second
/// scale; at last all is normalized. With both scales zero nothing but the last remains.
pub proof fn self_attention_adds_by_its_scales<A: Arith>(
    a: &A,
    val: spec_fn(A::T) -> real,
    x: Seq<A::T>,
    s: [usize; 3],
    layer: &SelfAttnLayer<A::T>,
    out: Seq<A::T>,
) -> (r: (Seq<A::T>, Seq<A::T>, Seq<A::T>, Seq<A::T>, Seq<A::T>, Seq<A::T>))
    requires
        exact::is_exact(a, val),
        x.len() == index::size3(s),
        attention::self_attn_ok(s, layer),
        attention::is_self_attn(a, x, s, layer, out),
    ensures
        ({
            let (n, m, y, o, f, z) = r;
            &&& attention::is_layernorm(a, x, &layer.norm1, s[2] as int, n)
            &&& attention::is_mha(a, n, s, n, s, &layer.attn, m)
            &&& is_added_by_scale(val, x, m, &layer.gamma_1, s[2] as int, y)
            &&& attention::is_layernorm(a, y, &layer.norm2, s[2] as int, o)
            &&& attention::is_feed_forward(
                a,
                o,
                s[0] * s[1],
                &layer.linear1,
                layer.linear1_bias@,
                &layer.linear2,
                layer.linear2_bias@,
                f,
            )
            &&& is_added_by_scale(val, y, f, &layer.gamma_2, s[2] as int, z)
            &&& attention::is_norm_out(a, z, s, &layer.norm_out, out)
        }),
{
    reveal(attention::is_self_attn);
    reveal(attention::self_attn_ok);
    reveal(attention::is_ffn);
    reveal(attention::ffn_ok);
    reveal(attention::mha_ok);
    let (n, m, y) = choose|n: Seq<A::T>, m: Seq<A::T>, y: Seq<A::T>|
        {
            &&& #[trigger] attention::is_layernorm(a, x, &layer.norm1, s[2] as int, n)
            &&& #[trigger] attention::is_mha(a, n, s, n, s, &layer.attn, m)
            &&& #[trigger] attention::is_scaled_residual(a, x, &layer.gamma_1, s[2] as int, m, y)
            &&& attention::is_ffn(
                a,
                y,
                s,
                &layer.norm2,
                &layer.linear1,
                layer.linear1_bias@,
                &layer.linear2,
                layer.linear2_bias@,
                &layer.gamma_2,
                &layer.norm_out,
                out,
            )
        };
    lemma_mha_len(a, n, s, n, s, &layer.attn, m);
    lemma_residual(a, val, x, &layer.gamma_1, s[2] as int, m, y);
    let (o, f, z) = choose|o: Seq<A::T>, f: Seq<A::T>, z: Seq<A::T>|
        {
            &&& #[trigger] attention::is_layernorm(a, y, &layer.norm2, s[2] as int, o)
            &&& #[trigger] attention::is_feed_forward(
                a,
                o,
                s[0] * s[1],
                &layer.linear1,
                layer.linear1_bias@,
                &layer.linear2,
                layer.linear2_bias@,
                f,
            )
            &&& #[trigger] attention::is_scaled_residual(a, y, &layer.gamma_2, s[2] as int, f, z)
            &&& attention::is_norm_out(a, z, s, &layer.norm_out, out)
        };
    lemma_feed_forward_len(
        a,
        o,
        s[0] * s[1],
        &layer.linear1,
        layer.linear1_bias@,
        &layer.linear2,
        layer.linear2_bias@,
        f,
    );
    lemma_residual(a, val, y, &layer.gamma_2, s[2] as int, f, z);
    (n, m, y, o, f, z)
}

/// The length of what attention gives.
proof fn lemma_mha_len<A: Arith>(
    a: &A,
    q: Seq<A::T>,
    qs: [usize; 3],
    kv: Seq<A::T>,
    ks: [usize; 3],
    attn: &crate::model::MhaWeights<A::T>,
    out: Seq<A::T>,
)
    requires
        attention::is_mha(a, q, qs, kv, ks, attn, out),
    ensures
        out.len() == qs[0] * qs[1] * attn.d_model,
{
    reveal(attention::is_mha);
    reveal(attention::is_linear);
}

/// The length of what the second part of a layer gives.
proof fn lemma_feed_forward_len<A: Arith>(
    a: &A,
    x: Seq<A::T>,
    rows: int,
    w1: &crate::model::Weight2D<A::T>,
    b1: Seq<A::T>,
    w2: &crate::model::Weight2D<A::T>,
    b2: Seq<A::T>,
    out: Seq<A::T>,
)
    requires
        attention::is_feed_forward(a, x, rows, w1, b1, w2, b2, out),
    ensures
        out.len() == rows * w2.rows,
{
    reveal(attention::is_feed_forward);
    reveal(attention::is_linear);
}

/// A layer of cross-attention: as [`self_attention_adds_by_its_scales`], but the input asks the
/// other branch, which is normalized on its own.
pub proof fn cross_attention_adds_by_its_scales<A: Arith>(
    a: &A,
    val: spec_fn(A::T) -> real,
    x: Seq<A::T>,
    s: [usize; 3],
    other: Seq<A::T>,
    os: [usize; 3],
    layer: &CrossAttnLayer<A::T>,
    out: Seq<A::T>,
) -> (r: (Seq<A::T>, Seq<A::T>, Seq<A::T>, Seq<A::T>, Seq<A::T>, Seq<A::T>, Seq<A::T>))
    requires
        exact::is_exact(a, val),
        x.len() == index::size3(s),
        attention::cross_attn_ok(s, os, layer),
        attention::is_cross_attn(a, x, s, other, os, layer, out),
    ensures
        ({
            let (n, k, m, y, o, f, z) = r;
            &&& attention::is_layernorm(a, x, &layer.norm1, s[2] as int, n)
            &&& attention::is_layernorm(a, other, &layer.norm2, os[2] as int, k)
            &&& attention::is_mha(a, n, s, k, os, &layer.attn, m)
            &&& is_added_by_scale(val, x, m, &layer.gamma_1, s[2] as int, y)
            &&& attention::is_layernorm(a, y, &layer.norm3, s[2] as int, o)
            &&& attention::is_feed_forward(
                a,
                o,
                s[0] * s[1],
                &layer.linear1,
                layer.linear1_bias@,
                &layer.linear2,
                layer.linear2_bias@,
                f,
            )
            &&& is_added_by_scale(val, y, f, &layer.gamma_2, s[2] as int, z)
            &&& attention::is_norm_out(a, z, s, &layer.norm_out, out)
        }),
{
    reveal(attention::is_cross_attn);
    reveal(attention::cross_attn_ok);
    reveal(attention::is_ffn);
    reveal(attention::ffn_ok);
    reveal(attention::mha_ok);
    let (n, k, m, y) = choose|n: Seq<A::T>, k: Seq<A::T>, m: Seq<A::T>, y: Seq<A::T>|
        {
            &&& #[trigger] attention::is_layernorm(a, x, &layer.norm1, s[2] as int, n)
            &&& #[trigger] attention::is_layernorm(a, other, &layer.norm2, os[2] as int, k)
            &&& #[trigger] attention::is_mha(a, n, s, k, os, &layer.attn, m)
            &&& #[trigger] attention::is_scaled_residual(a, x, &layer.gamma_1, s[2] as int, m, y)
            &&& attention::is_ffn(
                a,
                y,
                s,
                &layer.norm3,
                &layer.linear1,
                layer.linear1_bias@,
                &layer.linear2,
                layer.linear2_bias@,
                &layer.gamma_2,
                &layer.norm_out,
                out,
            )
        };
    lemma_mha_len(a, n, s, k, os, &layer.attn, m);
    lemma_residual(a, val, x, &layer.gamma_1, s[2] as int, m, y);
    let (o, f, z) = choose|o: Seq<A::T>, f: Seq<A::T>, z: Seq<A::T>|
        {
            &&& #[trigger] attention::is_layernorm(a, y, &layer.norm3, s[2] as int, o)
            &&& #[trigger] attention::is_feed_forward(
                a,
                o,
                s[0] * s[1],
                &layer.linear1,
                layer.linear1_bias@,
                &layer.linear2,
                layer.linear2_bias@,
                f,
            )
            &&& #[trigger] attention::is_scaled_residual(a, y, &layer.gamma_2, s[2] as int, f, z)
            &&& attention::is_norm_out(a, z, s, &layer.norm_out, out)
        };
    lemma_feed_forward_len(
        a,
        o,
        s[0] * s[1],
        &layer.linear1,
        layer.linear1_bias@,
        &layer.linear2,
        layer.linear2_bias@,
        f,
    );
    lemma_residual(a, val, y, &layer.gamma_2, s[2] as int, f, z);
    (n, k, m, y, o, f, z)
}

/// In a layer of cross-attention each branch asks the other as it was before the layer; in a layer
/// of self-attention each asks itself.
pub proof fn branches_ask_each_other<A: Arith>(
    a: &A,
    f: Seq<A::T>,
    fs: [usize; 3],
    t: Seq<A::T>,
    ts: [usize; 3],
    lf: &TransformerLayerWeights<A::T>,
    lt: &TransformerLayerWeights<A::T>,
    g: Seq<A::T>,
    u: Seq<A::T>,
)
    requires
        transformer::is_layer_pair(a, f, fs, t, ts, lf, lt, g, u),
    ensures
        lf.self_attn is Some && lt.self_attn is Some ==> attention::is_self_attn(
            a,
            f,
            fs,
            &lf.self_attn->0,
            g,
        ) && attention::is_self_attn(a, t, ts, &lt.self_attn->0, u),
        !(lf.self_attn is Some && lt.self_attn is Some) ==> attention::is_cross_attn(
            a,
            f,
            fs,
            t,
            ts,
            &lf.cross_attn->0,
            g,
        ) && attention::is_cross_attn(a, t, ts, f, fs, &lt.cross_attn->0, u),
{
    reveal(transformer::is_layer_pair);
}

/// The norm at the end of a layer is over all positions and features of an entry at once; the gain
/// and the shift are those of the feature.
pub proof fn last_norm_is_over_all<A: Arith>(
    a: &A,
    val: spec_fn(A::T) -> real,
    x: Seq<A::T>,
    s: [usize; 3],
    gn: &crate::model::GroupNorm1<A::T>,
    out: Seq<A::T>,
    b: int,
) -> (r: (Seq<A::T>, real, real, real))
    requires
        exact::is_exact(a, val),
        exact::is_exact_order(a, val),
        exact::is_exact_root(a, val),
        0 < s[1],
        0 < s[2],
        x.len() == index::size3(s),
        index::size3(s) <= usize::MAX,
        attention::is_norm_out(a, x, s, gn, out),
        0 <= b < s[0],
    ensures
        r.0.len() == s[1] * s[2],
        forall|i: int, c: int|
            0 <= i < s[1] && 0 <= c < s[2] ==> #[trigger] r.0[c * s[1] + i] == x[index::pos3(
                b,
                i,
                c,
                s[1] as int,
                s[2] as int,
            )],
        operator_laws::are_moments(val, r.0, r.1, r.2),
        r.3 > 0 as real,
        (r.3 * r.3) * (r.2 + 1 as real / 100000 as real) == 1 as real,
        forall|i: int, c: int|
            0 <= i < s[1] && 0 <= c < s[2] ==> val(
                #[trigger] out[index::pos3(b, i, c, s[1] as int, s[2] as int)],
            ) == ((val(x[index::pos3(b, i, c, s[1] as int, s[2] as int)]) - r.1) * r.3) * val(
                gn.gamma@[c],
            ) + val(gn.beta@[c]),
{
    reveal(attention::is_norm_out);
    let (batch, m, n) = (s[0] as int, s[1] as int, s[2] as int);
    let w = layout::swapped(x, batch, m, n, 1);
    let y = choose|y: Seq<A::T>| #[trigger]
        norm::is_run_normalized(a, w, n, m, gn.gamma@, gn.beta@, y) && out == layout::swapped(
            y,
            batch,
            n,
            m,
            1,
        );
    index::lemma_swap_extent(batch, m, n, 1);
    assert(w.len() == batch * n * m) by {
        assert(batch * n * m == batch * m * n) by (nonlinear_arith);
        assert(batch * n * m * 1 == batch * n * m);
        assert(0 <= batch * n * m) by (nonlinear_arith)
            requires
                0 <= batch,
                0 <= n,
                0 <= m,
        ;
    }
    assert(0 < n * m) by (nonlinear_arith)
        requires
            0 < n,
            0 < m,
    ;
    assert(w.len() as int / (n * m) == batch) by {
        assert(batch * n * m == (n * m) * batch) by (nonlinear_arith);
        vstd::arithmetic::div_mod::lemma_div_multiples_vanish(batch, n * m);
    }
    assert(w.len() <= usize::MAX) by {
        assert(batch * n * m == batch * m * n) by (nonlinear_arith);
    }
    let (mean, var, inv) = operator_laws::runs_are_normalized(
        a,
        val,
        w,
        n,
        m,
        gn.gamma@,
        gn.beta@,
        y,
        b,
    );
    assert(0 <= b * (n * m) && (b + 1) * (n * m) <= w.len() && (b + 1) * (n * m) == b * (n * m) + n
        * m) by {
        assert(0 <= b * (n * m) && (b + 1) * (n * m) <= batch * (n * m) && (b + 1) * (n * m) == b
            * (n * m) + n * m && batch * (n * m) == batch * n * m) by (nonlinear_arith)
            requires
                0 <= b,
                b + 1 <= batch,
                0 < n * m,
        ;
    }
    let run = w.subrange(b * (n * m), (b + 1) * (n * m));
    assert(n * m == m * n) by (nonlinear_arith);
    assert forall|i: int, c: int| 0 <= i < m && 0 <= c < n implies #[trigger] run[c * m + i]
        == x[index::pos3(b, i, c, m, n)] by {
        index::lemma_pair(c, i, n, m);
        layout::swapped_element(x, batch, m, n, 1, b, i, c, 0);
        assert(index::pos4(b, c, i, 0, n, m, 1) == b * (n * m) + (c * m + i)) by {
            assert((b * n + c) * m + i == b * (n * m) + (c * m + i)) by (nonlinear_arith);
        }
        assert(index::pos4(b, i, c, 0, m, n, 1) == index::pos3(b, i, c, m, n));
    }
    assert forall|i: int, c: int| 0 <= i < m && 0 <= c < n implies val(
        #[trigger] out[index::pos3(b, i, c, m, n)],
    ) == ((val(x[index::pos3(b, i, c, m, n)]) - mean) * inv) * val(gn.gamma@[c]) + val(
        gn.beta@[c],
    ) by {
        index::lemma_pair(c, i, n, m);
        layout::swapped_element(y, batch, n, m, 1, b, c, i, 0);
        assert(index::pos4(b, c, i, 0, n, m, 1) == b * (n * m) + (c * m + i)) by {
            assert((b * n + c) * m + i == b * (n * m) + (c * m + i)) by (nonlinear_arith);
        }
        assert(index::pos4(b, i, c, 0, m, n, 1) == index::pos3(b, i, c, m, n));
        let q = y[b * (n * m) + (c * m + i)];
        assert(run[c * m + i] == x[index::pos3(b, i, c, m, n)]);
    }
    (run, mean, var, inv)
}

/// The network standardizes each of its two inputs by its own mean and deviation, and restores
/// each of its two results by those of the input of the same branch.
pub proof fn branches_keep_their_statistics<A: Arith>(
    a: &A,
    val: spec_fn(A::T) -> real,
    freq: Seq<A::T>,
    fs: [usize; 4],
    time: Seq<A::T>,
    ts: [usize; 3],
    m: &HTDemucs<A::T>,
    freq_out: Seq<A::T>,
    time_out: Seq<A::T>,
) -> (r: (Seq<A::T>, Seq<A::T>, Seq<A::T>, Seq<A::T>, real, real, real, real))
    requires
        exact::is_exact(a, val),
        exact::is_exact_order(a, val),
        exact::is_exact_root(a, val),
        fs[0] == 1,
        ts[0] == 1,
        0 < freq.len() == fs[1] * fs[2] * fs[3],
        0 < time.len() == ts[1] * ts[2],
        freq.len() <= usize::MAX,
        time.len() <= usize::MAX,
        forward::forward_freq_shape(fs, m)[0] == 1,
        forward::forward_time_shape(ts, m)[0] == 1,
        forward::is_forward(a, freq, fs, time, ts, m, freq_out, time_out),
    ensures
        ({
            let (fin, tin, fout, tout, fm, fd, tm, td) = r;
            let eps = 1 as real / 100000 as real;
            &&& operator_laws::are_moments(val, freq, fm, fd * fd)
            &&& operator_laws::are_moments(val, time, tm, td * td)
            &&& fd >= 0 as real
            &&& td >= 0 as real
            &&& fin.len() == freq.len()
            &&& tin.len() == time.len()
            &&& forall|i: int|
                0 <= i < freq.len() ==> val(#[trigger] fin[i]) * (fd + eps) == val(freq[i]) - fm
            &&& forall|i: int|
                0 <= i < time.len() ==> val(#[trigger] tin[i]) * (td + eps) == val(time[i]) - tm
            &&& is_core(a, fin, fs, tin, ts, m, fout, tout)
            &&& freq_out.len() == fout.len()
            &&& time_out.len() == tout.len()
            &&& forall|i: int|
                0 <= i < fout.len() ==> val(#[trigger] freq_out[i]) == val(fout[i]) * fd + fm
            &&& forall|i: int|
                0 <= i < tout.len() ==> val(#[trigger] time_out[i]) == val(tout[i]) * td + tm
        }),
{
    reveal(forward::is_forward);
    let n = m.encoders@.len() as int;
    let f = encoder::freq_chain_shape(fs, m.encoders@, n);
    let t = forward::time_chain_shape(ts, m.tencoders@, n);
    let (fm, fd, fin, tm, td, tin, fskips, tskips, fmid, tmid, fout, tout) = choose|
        fm: Seq<A::T>,
        fd: Seq<A::T>,
        fin: Seq<A::T>,
        tm: Seq<A::T>,
        td: Seq<A::T>,
        tin: Seq<A::T>,
        fskips: Seq<Seq<A::T>>,
        tskips: Seq<Seq<A::T>>,
        fmid: Seq<A::T>,
        tmid: Seq<A::T>,
        fout: Seq<A::T>,
        tout: Seq<A::T>,
    |
        {
            &&& standardize::are_batch_stats(
                a,
                freq,
                fs[0] as int,
                standardize::per_batch4(fs),
                fm,
                fd,
            )
            &&& #[trigger] standardize::is_standardized(
                a,
                freq,
                fs[0] as int,
                standardize::per_batch4(fs),
                fm,
                fd,
                fin,
            )
            &&& standardize::are_batch_stats(
                a,
                time,
                ts[0] as int,
                standardize::per_batch3(ts),
                tm,
                td,
            )
            &&& #[trigger] standardize::is_standardized(
                a,
                time,
                ts[0] as int,
                standardize::per_batch3(ts),
                tm,
                td,
                tin,
            )
            &&& fskips.len() == n
            &&& tskips.len() == n
            &&& #[trigger] encoder::are_freq_outputs(
                a,
                fin,
                fs,
                m.encoders@,
                &m.freq_emb,
                fskips,
            )
            &&& #[trigger] forward::are_time_outputs(a, tin, ts, m.tencoders@, tskips)
            &&& #[trigger] transformer::is_cross_domain(
                a,
                fskips[n - 1],
                f,
                tskips[n - 1],
                t,
                &m.crosstransformer,
                fmid,
                tmid,
            )
            &&& #[trigger] forward::is_freq_decoded(
                a,
                fmid,
                transformer::freq_out_shape(f, &m.crosstransformer),
                fs,
                m.encoders@,
                fskips,
                m.decoders@,
                fout,
            )
            &&& #[trigger] forward::is_time_decoded(
                a,
                tmid,
                transformer::time_out_shape(t, &m.crosstransformer),
                ts,
                m.tencoders@,
                tskips,
                m.tdecoders@,
                tout,
            )
            &&& standardize::is_restored(
                a,
                fout,
                forward::forward_freq_shape(fs, m)[0] as int,
                fout.len() as int / forward::forward_freq_shape(fs, m)[0] as int,
                fm,
                fd,
                freq_out,
            )
            &&& standardize::is_restored(
                a,
                tout,
                forward::forward_time_shape(ts, m)[0] as int,
                tout.len() as int / forward::forward_time_shape(ts, m)[0] as int,
                tm,
                td,
                time_out,
            )
        };
    let (p, q) = (freq.len() as int, time.len() as int);
    assert(1 * p == p && 1 * q == q);
    operator_laws::parts_are_standardized(a, val, freq, 1, p, fm, fd, fin, 0);
    operator_laws::parts_are_standardized(a, val, time, 1, q, tm, td, tin, 0);
    assert(0 * p == 0 && 0 * q == 0 && (0 + 1) * p == p && (0 + 1) * q == q);
    assert(freq.subrange(0, p) =~= freq);
    assert(time.subrange(0, q) =~= time);
    assert(fin.len() == freq.len() && tin.len() == time.len()) by {
        reveal(standardize::is_standardized);
    }
    assert(freq_out.len() == fout.len() && time_out.len() == tout.len()) by {
        reveal(standardize::is_restored);
    }
    let h = 1 as real / 100000 as real;
    assert forall|i: int| 0 <= i < p implies val(#[trigger] fin[i]) * (val(fd[0]) + h) == val(
        freq[i],
    ) - val(fm[0]) by {
        assert(fin[0 * p + i] == fin[i]);
    }
    assert forall|i: int| 0 <= i < q implies val(#[trigger] tin[i]) * (val(td[0]) + h) == val(
        time[i],
    ) - val(tm[0]) by {
        assert(tin[0 * q + i] == tin[i]);
    }
    assert forall|i: int| 0 <= i < fout.len() implies val(#[trigger] freq_out[i]) == val(fout[i])
        * val(fd[0]) + val(fm[0]) by {
        let l = fout.len() as int;
        assert(l / 1 == l && 1 * l == l && 0 * l + i == i);
        operator_laws::parts_are_restored(a, val, fout, 1, l, fm, fd, freq_out, 0, i);
    }
    assert forall|i: int| 0 <= i < tout.len() implies val(#[trigger] time_out[i]) == val(tout[i])
        * val(td[0]) + val(tm[0]) by {
        let l = tout.len() as int;
        assert(l / 1 == l && 1 * l == l && 0 * l + i == i);
        operator_laws::parts_are_restored(a, val, tout, 1, l, tm, td, time_out, 0, i);
    }
    assert(transformer::is_cross_domain(
        a,
        fskips.last(),
        f,
        tskips.last(),
        t,
        &m.crosstransformer,
        fmid,
        tmid,
    ));
    assert(is_core(a, fin, fs, tin, ts, m, fout, tout));
    (fin, tin, fout, tout, val(fm[0]), val(fd[0]), val(tm[0]), val(td[0]))
}

/// `(fout, tout)` is what the layers of the network make of standardized inputs: the encoders, the
/// transformer on the deepest results of both, and the decoders, each with the results of the
/// encoder of its own branch.
pub open spec fn is_core<A: Arith>(
    a: &A,
    fin: Seq<A::T>,
    fs: [usize; 4],
    tin: Seq<A::T>,
    ts: [usize; 3],
    m: &HTDemucs<A::T>,
    fout: Seq<A::T>,
    tout: Seq<A::T>,
) -> bool {
    let n = m.encoders@.len() as int;
    let f = encoder::freq_chain_shape(fs, m.encoders@, n);
    let t = forward::time_chain_shape(ts, m.tencoders@, n);
    exists|fskips: Seq<Seq<A::T>>, tskips: Seq<Seq<A::T>>, fmid: Seq<A::T>, tmid: Seq<A::T>|
        {
            &&& fskips.len() == n
            &&& tskips.len() == n
            &&& #[trigger] encoder::are_freq_outputs(a, fin, fs, m.encoders@, &m.freq_emb, fskips)
            &&& #[trigger] forward::are_time_outputs(a, tin, ts, m.tencoders@, tskips)
            &&& #[trigger] transformer::is_cross_domain(
                a,
                fskips.last(),
                f,
                tskips.last(),
                t,
                &m.crosstransformer,
                fmid,
                tmid,
            )
            &&& forward::is_freq_decoded(
                a,
                fmid,
                transformer::freq_out_shape(f, &m.crosstransformer),
                fs,
                m.encoders@,
                fskips,
                m.decoders@,
                fout,
            )
            &&& forward::is_time_decoded(
                a,
                tmid,
                transformer::time_out_shape(t, &m.crosstransformer),
                ts,
                m.tencoders@,
                tskips,
                m.tdecoders@,
                tout,
            )
        }
}

} // verus!
