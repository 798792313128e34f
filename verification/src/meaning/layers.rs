//! Layers on the device.
use vstd::prelude::*;
use crate::arith;
use crate::arith::Arith;
use crate::cuda_ops::conv as gpu_conv;
use crate::cuda_ops::elementwise;
use crate::cuda_ops::layers;
use crate::cuda_ops::layout as gpu_layout;
use crate::gpu_model::GpuDConv;
use crate::gpu_model::GpuDConvLayer;
use crate::gpu_model::GpuHDecLayer;
use crate::gpu_model::GpuHEncLayer;
use crate::gpu_model::GpuTDecLayer;
use crate::gpu_model::GpuTEncLayer;
use crate::gpu_tensor;
use crate::gpu_tensor::GpuTensor;
use crate::index;
use crate::meaning;
use crate::meaning::conv;
use crate::meaning::growth;
use crate::meaning::operators;
use crate::meaning::weights;
use crate::model::DConv;
use crate::model::DConvLayer;
use crate::model::HDecLayer;
use crate::model::HEncLayer;
use crate::model::TDecLayer;
use crate::model::TEncLayer;
use crate::ops_cpu::conv as cpu_conv;
use crate::ops_cpu::dconv;
use crate::ops_cpu::decoder;
use crate::ops_cpu::elementwise as cpu_elementwise;
use crate::ops_cpu::encoder;
use crate::ops_cpu::layout;
use crate::program::Step;

verus! {

/// Keeping all of an axis changes nothing.
proof fn lemma_whole_axis<T>(x: Seq<T>, r: int, n: int)
    requires
        0 <= r,
        0 <= n,
        x.len() == r * n,
    ensures
        layout::trimmed(x, r, n, 1, n) == x,
{
    let y = layout::trimmed(x, r, n, 1, n);
    assert(r * n * 1 == r * n);
    assert forall|p: int| 0 <= p < x.len() implies #[trigger] y[p] == x[p] by {
        index::lemma_unpair(p, r, n);
        assert(index::pos3(p / 1 / n, p / 1 % n, p % 1, n, 1) == p);
    }
    assert(y =~= x);
}

/// A residual layer is the one of the processor.
#[verifier::spinoff_prover]
pub proof fn dconv_layer_means<A: Arith>(
    a: &A,
    whole: Seq<Step>,
    v: Seq<Seq<A::T>>,
    s: Seq<Step>,
    x: GpuTensor,
    g: GpuDConvLayer,
    dilation: usize,
    layer: &DConvLayer<A::T>,
)
    requires
        meaning::unrounded(a),
        meaning::runs(a, whole, v, layers::dconv_layer_steps(s, x, g, dilation)),
        meaning::holds(v, x),
        x.rank == 3,
        weights::holds_dconv_layer(v, g, *layer),
        dconv::dconv_layer_ok(index::size3(meaning::axes3(x)), meaning::axes3(x), layer, dilation),
        layer.conv2.k == 1,
    ensures
        meaning::went(whole, v, s, layers::dconv_layer_steps(s, x, g, dilation)),
        ({
            let r = layers::dconv_layer_steps(s, x, g, dilation)->Ok_0.1;
            &&& r.rank == 3
            &&& meaning::axes3(r) == dconv::dconv_layer_shape(meaning::axes3(x), layer, dilation)
            &&& meaning::axes3(r) == meaning::axes3(x)
            &&& dconv::is_dconv_layer(
                a,
                meaning::at(v, x),
                meaning::axes3(x),
                layer,
                dilation,
                meaning::at(v, r),
            )
        }),
{
    reveal(layers::dconv_layer_steps);
    reveal(weights::holds_dconv_layer);
    reveal(dconv::dconv_layer_ok);
    reveal(dconv::dconv_layer_shape);
    reveal(cpu_conv::conv1d_ok);
    growth::dconv_layer_grows(s, x, g, dilation);
    let b1 = gpu_conv::conv1d_k3_dilation_steps(s, x, g.conv1, g.conv1_bias, dilation);
    growth::conv1d_k3_dilation_grows(s, x, g.conv1, g.conv1_bias, dilation);
    let (s1, h1) = b1->Ok_0;
    let b2 = elementwise::groupnorm1_steps(s1, h1, g.norm1);
    let (s2, h2) = b2->Ok_0;
    let b3 = elementwise::gelu_steps(s2, h2);
    let (s3, h3) = b3->Ok_0;
    let b4 = gpu_conv::conv1d_k1_steps(s3, h3, g.conv2, g.conv2_bias);
    growth::conv1d_k1_grows(s3, h3, g.conv2, g.conv2_bias);
    let (s4, h4) = b4->Ok_0;
    let b5 = elementwise::groupnorm1_steps(s4, h4, g.norm2);
    let (s5, h5) = b5->Ok_0;
    let b6 = elementwise::glu_channel_steps(s5, h5);
    let (s6, h6) = b6->Ok_0;
    let b7 = elementwise::layer_scale_steps(s6, h6, g.scale);
    let (s7, h7) = b7->Ok_0;
    let b8 = elementwise::add_to_steps(s7, h7, x);
    growth::lemma_inside(s7, b8->Ok_0.0, whole);
    growth::lemma_inside(s6, b7->Ok_0.0, whole);
    growth::lemma_inside(s5, b6->Ok_0.0, whole);
    growth::lemma_inside(s4, b5->Ok_0.0, whole);
    growth::lemma_inside(s3, b4->Ok_0.0, whole);
    growth::lemma_inside(s2, b3->Ok_0.0, whole);
    growth::lemma_inside(s1, b2->Ok_0.0, whole);
    let d = meaning::at(v, x);
    let e = meaning::axes3(x);
    conv::conv1d_k3_dilation_means(
        a,
        whole,
        v,
        s,
        x,
        g.conv1,
        g.conv1_bias,
        dilation,
        &layer.conv1,
        layer.conv1_bias.data@,
    );
    operators::groupnorm1_means(a, whole, v, s1, h1, g.norm1);
    operators::gelu_means(a, whole, v, s2, h2);
    conv::conv1d_k1_means(
        a,
        whole,
        v,
        s3,
        h3,
        g.conv2,
        g.conv2_bias,
        &layer.conv2,
        layer.conv2_bias.data@,
    );
    operators::groupnorm1_means(a, whole, v, s4, h4, g.norm2);
    operators::glu_channel_means(a, whole, v, s5, h5);
    operators::layer_scale_means(a, whole, v, s6, h6, g.scale);
    operators::add_to_means(a, whole, v, s7, h7, x);
    lemma_whole_axis(d, x.d0 * x.d1, x.d2 as int);
    assert(dconv::is_dconv_layer(a, d, e, layer, dilation, meaning::at(v, b8->Ok_0.1))) by {
        reveal(dconv::is_dconv_layer);
    }
}

/// A dilation is not below one.
proof fn lemma_dilation(j: int)
    ensures
        dconv::dilation(j) >= 1,
    decreases j,
{
    if j > 0 {
        lemma_dilation(j - 1);
    }
}

/// The values between residual layers from the one at `j` on.
spec fn are_layers_from<A: Arith>(
    a: &A,
    layers: Seq<DConvLayer<A::T>>,
    e: [usize; 3],
    j: int,
    vals: Seq<Seq<A::T>>,
) -> bool {
    forall|i: int|
        #![trigger layers[i]]
        j <= i < layers.len() ==> dconv::is_dconv_layer(
            a,
            vals[i - j],
            dconv::dconv_shape(e, layers, i),
            &layers[i],
            dconv::dilation(i) as usize,
            vals[i - j + 1],
        )
}

/// One more layer before.
proof fn lemma_layers_before<A: Arith>(
    a: &A,
    layers: Seq<DConvLayer<A::T>>,
    e: [usize; 3],
    j: int,
    x: Seq<A::T>,
    rest: Seq<Seq<A::T>>,
)
    requires
        0 <= j < layers.len(),
        rest.len() == layers.len() - j,
        dconv::is_dconv_layer(
            a,
            x,
            dconv::dconv_shape(e, layers, j),
            &layers[j],
            dconv::dilation(j) as usize,
            rest[0],
        ),
        are_layers_from(a, layers, e, j + 1, rest),
    ensures
        are_layers_from(a, layers, e, j, seq![x] + rest),
{
    let vals = seq![x] + rest;
    assert forall|i: int|
        #![trigger layers[i]]
        j <= i < layers.len() implies dconv::is_dconv_layer(
        a,
        vals[i - j],
        dconv::dconv_shape(e, layers, i),
        &layers[i],
        dconv::dilation(i) as usize,
        vals[i - j + 1],
    ) by {
        if i > j {
            assert(vals[i - j] == rest[i - (j + 1)]);
        }
        assert(vals[i - j + 1] == rest[i - j]);
    }
}

/// Residual layers from the one at `j` on are those of the processor.
proof fn dconv_from_means<A: Arith>(
    a: &A,
    whole: Seq<Step>,
    v: Seq<Seq<A::T>>,
    s: Seq<Step>,
    x: GpuTensor,
    g: GpuDConv,
    j: int,
    dilation: usize,
    d: DConv<A::T>,
    e: [usize; 3],
) -> (vals: Seq<Seq<A::T>>)
    requires
        meaning::unrounded(a),
        meaning::runs(a, whole, v, layers::dconv_steps_from(s, x, g.layers@, j, dilation)),
        meaning::holds(v, x),
        x.rank == 3,
        weights::holds_dconv(v, g, d),
        weights::dconv_pointwise(d),
        0 <= j <= d.layers@.len(),
        dilation == dconv::dilation(j) as usize,
        dconv::dconv_ok(index::size3(e), e, d.layers@),
        meaning::axes3(x) == dconv::dconv_shape(e, d.layers@, j),
    ensures
        meaning::went(whole, v, s, layers::dconv_steps_from(s, x, g.layers@, j, dilation)),
        vals.len() == d.layers@.len() - j + 1,
        vals[0] == meaning::at(v, x),
        are_layers_from(a, d.layers@, e, j, vals),
        ({
            let r = layers::dconv_steps_from(s, x, g.layers@, j, dilation)->Ok_0.1;
            &&& r.rank == 3
            &&& meaning::axes3(r) == dconv::dconv_shape(e, d.layers@, d.layers@.len() as int)
            &&& meaning::axes3(r) == meaning::axes3(x)
            &&& vals.last() == meaning::at(v, r)
        }),
    decreases d.layers@.len() - j,
{
    reveal(weights::holds_dconv);
    reveal(dconv::dconv_ok);
    let n = d.layers@.len();
    if j == n {
        seq![meaning::at(v, x)]
    } else {
        let gl = g.layers@[j];
        let dl = d.layers@[j];
        let b1 = layers::dconv_layer_steps(s, x, gl, dilation);
        let (s1, y) = b1->Ok_0;
        let twice = (2 * dilation) as usize;
        let b2 = layers::dconv_steps_from(s1, y, g.layers@, j + 1, twice);
        growth::dconv_grows(s1, y, g.layers@, j + 1, twice);
        growth::lemma_inside(s1, b2->Ok_0.0, whole);
        assert(dconv::dilation(j) <= usize::MAX);
        lemma_dilation(j);
        dconv_layer_means(a, whole, v, s, x, gl, dilation, &dl);
        growth::lemma_link(s, s1, b2);
        let rest = dconv_from_means(a, whole, v, s1, y, g, j + 1, twice, d, e);
        lemma_layers_before(a, d.layers@, e, j, meaning::at(v, x), rest);
        seq![meaning::at(v, x)] + rest
    }
}

/// A stack of residual layers is the one of the processor.
pub proof fn dconv_means<A: Arith>(
    a: &A,
    whole: Seq<Step>,
    v: Seq<Seq<A::T>>,
    s: Seq<Step>,
    x: GpuTensor,
    g: GpuDConv,
    d: DConv<A::T>,
)
    requires
        meaning::unrounded(a),
        meaning::runs(a, whole, v, layers::dconv_steps(s, x, g)),
        meaning::holds(v, x),
        x.rank == 3,
        weights::holds_dconv(v, g, d),
        weights::dconv_pointwise(d),
        dconv::dconv_ok(index::size3(meaning::axes3(x)), meaning::axes3(x), d.layers@),
    ensures
        meaning::went(whole, v, s, layers::dconv_steps(s, x, g)),
        ({
            let r = layers::dconv_steps(s, x, g)->Ok_0.1;
            let n = d.layers@.len() as int;
            &&& r.rank == 3
            &&& meaning::axes3(r) == dconv::dconv_shape(meaning::axes3(x), d.layers@, n)
            &&& meaning::axes3(r) == meaning::axes3(x)
            &&& dconv::is_dconv(
                a,
                meaning::at(v, x),
                meaning::axes3(x),
                d.layers@,
                meaning::at(v, r),
            )
        }),
{
    let e = meaning::axes3(x);
    let vals = dconv_from_means(a, whole, v, s, x, g, 0, 1, d, e);
    reveal(dconv::is_dconv);
    assert forall|i: int|
        #![trigger d.layers@[i]]
        0 <= i < d.layers@.len() implies dconv::is_dconv_layer(
        a,
        vals[i],
        dconv::dconv_shape(e, d.layers@, i),
        &d.layers@[i],
        dconv::dilation(i) as usize,
        vals[i + 1],
    ) by {
        assert(i - 0 == i);
    }
    assert(dconv::are_dconv_steps(a, meaning::at(v, x), e, d.layers@, vals));
}

/// The residual layers on each frequency are those of the processor.
pub proof fn per_frequency_means<A: Arith>(
    a: &A,
    whole: Seq<Step>,
    v: Seq<Seq<A::T>>,
    s: Seq<Step>,
    x: GpuTensor,
    g: GpuDConv,
    d: DConv<A::T>,
)
    requires
        meaning::unrounded(a),
        meaning::runs(a, whole, v, layers::dconv_per_frequency_steps(s, x, g)),
        meaning::holds(v, x),
        x.rank == 4,
        weights::holds_dconv(v, g, d),
        weights::dconv_pointwise(d),
        encoder::per_frequency_ok(meaning::axes4(x), d.layers@),
    ensures
        meaning::went(whole, v, s, layers::dconv_per_frequency_steps(s, x, g)),
        ({
            let r = layers::dconv_per_frequency_steps(s, x, g)->Ok_0.1;
            &&& r.rank == 4
            &&& meaning::axes4(r) == encoder::per_frequency_shape(meaning::axes4(x), d.layers@)
            &&& meaning::axes4(r) == meaning::axes4(x)
            &&& encoder::is_per_frequency(
                a,
                meaning::at(v, x),
                meaning::axes4(x),
                d.layers@,
                meaning::at(v, r),
            )
        }),
{
    reveal(layers::dconv_per_frequency_steps);
    reveal(encoder::per_frequency_ok);
    growth::dconv_per_frequency_grows(s, x, g);
    let b1 = gpu_layout::reshape_bcft_to_bfct_steps(s, x);
    let (s1, rows) = b1->Ok_0;
    let b2 = layers::dconv_steps(s1, rows, g);
    growth::dconv_grows(s1, rows, g.layers@, 0, 1);
    let (s2, y) = b2->Ok_0;
    let b3 = gpu_layout::reshape_bfct_to_bcft_steps(s2, y, x.d0);
    growth::lemma_inside(s2, b3->Ok_0.0, whole);
    growth::lemma_inside(s1, b2->Ok_0.0, whole);
    let e = meaning::axes4(x);
    assert(x.d0 > 0) by (nonlinear_arith)
        requires
            x.d0 * x.d1 * x.d2 * x.d3 > 0,
    ;
    assert((x.d0 * x.d2) * x.d1 * x.d3 == x.d0 * x.d1 * x.d2 * x.d3) by (nonlinear_arith);
    operators::bcft_to_bfct_means(a, whole, v, s, x);
    assert(meaning::axes3(rows) == encoder::folded_shape(e));
    dconv_means(a, whole, v, s1, rows, g, d);
    operators::bfct_to_bcft_means(a, whole, v, s2, y, x.d0, x.d2);
    assert(encoder::is_per_frequency(
        a,
        meaning::at(v, x),
        e,
        d.layers@,
        meaning::at(v, b3->Ok_0.1),
    )) by {
        reveal(encoder::is_per_frequency);
    }
}

/// The residual layers of the decoder on each frequency are those of the processor.
pub proof fn rows_means<A: Arith>(
    a: &A,
    whole: Seq<Step>,
    v: Seq<Seq<A::T>>,
    s: Seq<Step>,
    x: GpuTensor,
    g: GpuDConv,
    d: DConv<A::T>,
)
    requires
        meaning::unrounded(a),
        meaning::runs(a, whole, v, layers::dconv_rows_steps(s, x, g)),
        meaning::holds(v, x),
        x.rank == 4,
        weights::holds_dconv(v, g, d),
        weights::dconv_pointwise(d),
        encoder::per_frequency_ok(meaning::axes4(x), d.layers@),
    ensures
        meaning::went(whole, v, s, layers::dconv_rows_steps(s, x, g)),
        ({
            let r = layers::dconv_rows_steps(s, x, g)->Ok_0.1;
            &&& r.rank == 4
            &&& meaning::axes4(r) == encoder::per_frequency_shape(meaning::axes4(x), d.layers@)
            &&& meaning::axes4(r) == meaning::axes4(x)
            &&& encoder::is_per_frequency(
                a,
                meaning::at(v, x),
                meaning::axes4(x),
                d.layers@,
                meaning::at(v, r),
            )
        }),
{
    reveal(layers::dconv_rows_steps);
    reveal(encoder::per_frequency_ok);
    growth::dconv_rows_grows(s, x, g);
    let b1 = gpu_layout::reshape_bcft_to_bfct_steps(s, x);
    let (s1, rows) = b1->Ok_0;
    let b2 = layers::dconv_steps(s1, rows, g);
    growth::dconv_grows(s1, rows, g.layers@, 0, 1);
    let (s2, y) = b2->Ok_0;
    let b3 = gpu_layout::reshape_bfct_to_bcft_steps(s2, y, x.d0);
    growth::lemma_inside(s2, b3->Ok_0.0, whole);
    growth::lemma_inside(s1, b2->Ok_0.0, whole);
    let e = meaning::axes4(x);
    assert(x.d0 > 0) by (nonlinear_arith)
        requires
            x.d0 * x.d1 * x.d2 * x.d3 > 0,
    ;
    assert((x.d0 * x.d2) * x.d1 * x.d3 == x.d0 * x.d1 * x.d2 * x.d3) by (nonlinear_arith);
    operators::bcft_to_bfct_means(a, whole, v, s, x);
    assert(meaning::axes3(rows) == encoder::folded_shape(e));
    dconv_means(a, whole, v, s1, rows, g, d);
    operators::bfct_to_bcft_means(a, whole, v, s2, y, x.d0, x.d2);
    assert(encoder::is_per_frequency(
        a,
        meaning::at(v, x),
        e,
        d.layers@,
        meaning::at(v, b3->Ok_0.1),
    )) by {
        reveal(encoder::is_per_frequency);
    }
}

/// Gating planes works as on the processor.
pub proof fn flat_glu_means<A: Arith>(
    a: &A,
    whole: Seq<Step>,
    v: Seq<Seq<A::T>>,
    s: Seq<Step>,
    x: GpuTensor,
)
    requires
        meaning::runs(a, whole, v, layers::flat_glu_steps(s, x)),
        meaning::holds(v, x),
        x.rank == 4,
    ensures
        meaning::went(whole, v, s, layers::flat_glu_steps(s, x)),
        ({
            let r = layers::flat_glu_steps(s, x)->Ok_0.1;
            &&& r.rank == 3
            &&& r.d0 == x.d0
            &&& r.d1 == x.d1 / 2
            &&& r.d2 == x.d2 * x.d3
            &&& x.d1 % 2 == 0
            &&& cpu_elementwise::is_glu(
                a,
                meaning::at(v, x),
                x.d0 as int,
                x.d1 as int / 2,
                x.d2 * x.d3,
                meaning::at(v, r),
            )
        }),
{
    reveal(layers::flat_glu_steps);
    let plane = (x.d2 * x.d3) as usize;
    let flat = gpu_tensor::as_tensor3(x.data, x.d0, x.d1, plane)->Ok_0;
    operators::glu_channel_means(a, whole, v, s, flat);
}

/// A layer of the frequency encoder is the one of the processor.
#[verifier::spinoff_prover]
pub proof fn henc_means<A: Arith>(
    a: &A,
    whole: Seq<Step>,
    v: Seq<Seq<A::T>>,
    s: Seq<Step>,
    x: GpuTensor,
    g: GpuHEncLayer,
    layer: &HEncLayer<A::T>,
)
    requires
        meaning::unrounded(a),
        meaning::has_zero(a),
        meaning::runs(a, whole, v, layers::henc_layer_steps(s, x, g)),
        meaning::holds(v, x),
        x.rank == 4,
        weights::holds_henc(v, g, *layer),
        weights::dconv_pointwise(layer.dconv),
        encoder::henc_ok(index::size4(meaning::axes4(x)), meaning::axes4(x), layer),
    ensures
        meaning::went(whole, v, s, layers::henc_layer_steps(s, x, g)),
        ({
            let r = layers::henc_layer_steps(s, x, g)->Ok_0.1;
            &&& r.rank == 4
            &&& meaning::axes4(r) == encoder::henc_shape(meaning::axes4(x), layer)
            &&& encoder::is_henc(a, meaning::at(v, x), meaning::axes4(x), layer, meaning::at(v, r))
        }),
{
    reveal(layers::henc_layer_steps);
    reveal(weights::holds_henc);
    reveal(encoder::henc_ok);
    reveal(encoder::henc_shape);
    reveal(cpu_conv::conv2d_ok);
    growth::henc_grows(s, x, g);
    let b1 = gpu_conv::conv2d_8x1_s4p2_steps(s, x, g.conv, g.conv_bias);
    growth::conv2d_8x1_s4p2_grows(s, x, g.conv, g.conv_bias);
    let (s1, h1) = b1->Ok_0;
    let b2 = elementwise::gelu_steps(s1, h1);
    let (s2, h2) = b2->Ok_0;
    let b3 = layers::dconv_per_frequency_steps(s2, h2, g.dconv);
    growth::dconv_per_frequency_grows(s2, h2, g.dconv);
    let (s3, h3) = b3->Ok_0;
    let b4 = gpu_conv::conv2d_1x1_steps(s3, h3, g.rewrite, g.rewrite_bias);
    growth::conv2d_1x1_grows(s3, h3, g.rewrite, g.rewrite_bias);
    let (s4, h4) = b4->Ok_0;
    let b5 = layers::flat_glu_steps(s4, h4);
    growth::flat_glu_grows(s4, h4);
    growth::lemma_inside(s4, b5->Ok_0.0, whole);
    growth::lemma_inside(s3, b4->Ok_0.0, whole);
    growth::lemma_inside(s2, b3->Ok_0.0, whole);
    growth::lemma_inside(s1, b2->Ok_0.0, whole);
    let e = meaning::axes4(x);
    conv::conv2d_8x1_s4p2_means(
        a,
        whole,
        v,
        s,
        x,
        g.conv,
        g.conv_bias,
        &layer.conv,
        layer.conv_bias.data@,
    );
    operators::gelu_means(a, whole, v, s1, h1);
    per_frequency_means(a, whole, v, s2, h2, g.dconv, layer.dconv);
    conv::conv2d_1x1_means(
        a,
        whole,
        v,
        s3,
        h3,
        g.rewrite,
        g.rewrite_bias,
        &layer.rewrite,
        layer.rewrite_bias.data@,
    );
    flat_glu_means(a, whole, v, s4, h4);
    assert(encoder::is_henc(a, meaning::at(v, x), e, layer, meaning::at(v, b5->Ok_0.1))) by {
        reveal(encoder::is_henc);
    }
}

/// A layer of the time encoder is the one of the processor.
#[verifier::spinoff_prover]
pub proof fn tenc_means<A: Arith>(
    a: &A,
    whole: Seq<Step>,
    v: Seq<Seq<A::T>>,
    s: Seq<Step>,
    x: GpuTensor,
    g: GpuTEncLayer,
    layer: &TEncLayer<A::T>,
)
    requires
        meaning::unrounded(a),
        meaning::has_zero(a),
        meaning::runs(a, whole, v, layers::tenc_layer_steps(s, x, g)),
        meaning::holds(v, x),
        x.rank == 3,
        weights::holds_tenc(v, g, *layer),
        weights::dconv_pointwise(layer.dconv),
        encoder::tenc_ok(index::size3(meaning::axes3(x)), meaning::axes3(x), layer),
    ensures
        meaning::went(whole, v, s, layers::tenc_layer_steps(s, x, g)),
        ({
            let r = layers::tenc_layer_steps(s, x, g)->Ok_0.1;
            &&& r.rank == 3
            &&& meaning::axes3(r) == encoder::tenc_shape(meaning::axes3(x), layer)
            &&& encoder::is_tenc(a, meaning::at(v, x), meaning::axes3(x), layer, meaning::at(v, r))
        }),
{
    reveal(layers::tenc_layer_steps);
    reveal(weights::holds_tenc);
    reveal(encoder::tenc_ok);
    reveal(encoder::tenc_shape);
    reveal(cpu_conv::conv1d_ok);
    growth::tenc_grows(s, x, g);
    let b1 = gpu_layout::pad_l_steps(s, x, layers::lacking(x.d2));
    let (s1, h1) = b1->Ok_0;
    let b2 = gpu_conv::conv1d_k8_s4p2_steps(s1, h1, g.conv, g.conv_bias);
    growth::conv1d_k8_s4p2_grows(s1, h1, g.conv, g.conv_bias);
    let (s2, h2) = b2->Ok_0;
    let b3 = elementwise::gelu_steps(s2, h2);
    let (s3, h3) = b3->Ok_0;
    let b4 = layers::dconv_steps(s3, h3, g.dconv);
    growth::dconv_grows(s3, h3, g.dconv.layers@, 0, 1);
    let (s4, h4) = b4->Ok_0;
    let b5 = gpu_conv::conv1d_1x1_steps(s4, h4, g.rewrite, g.rewrite_bias);
    growth::conv1d_1x1_grows(s4, h4, g.rewrite, g.rewrite_bias);
    let (s5, h5) = b5->Ok_0;
    let b6 = elementwise::glu_channel_steps(s5, h5);
    growth::lemma_inside(s5, b6->Ok_0.0, whole);
    growth::lemma_inside(s4, b5->Ok_0.0, whole);
    growth::lemma_inside(s3, b4->Ok_0.0, whole);
    growth::lemma_inside(s2, b3->Ok_0.0, whole);
    growth::lemma_inside(s1, b2->Ok_0.0, whole);
    let e = meaning::axes3(x);
    let zero = operators::pad_l_means(a, whole, v, s, x, layers::lacking(x.d2));
    conv::conv1d_k8_s4p2_means(
        a,
        whole,
        v,
        s1,
        h1,
        g.conv,
        g.conv_bias,
        &layer.conv,
        layer.conv_bias.data@,
    );
    operators::gelu_means(a, whole, v, s2, h2);
    dconv_means(a, whole, v, s3, h3, g.dconv, layer.dconv);
    conv::conv1d_1x1_means(
        a,
        whole,
        v,
        s4,
        h4,
        g.rewrite,
        g.rewrite_bias,
        &layer.rewrite,
        layer.rewrite_bias.data@,
    );
    operators::glu_channel_means(a, whole, v, s5, h5);
    assert(encoder::is_tenc(a, meaning::at(v, x), e, layer, meaning::at(v, b6->Ok_0.1))) by {
        reveal(encoder::is_tenc);
        assert(arith::is_zero(a, zero));
    }
}

/// The end of a layer of the frequency decoder is the one of the processor.
pub proof fn finish4_means<A: Arith>(
    a: &A,
    whole: Seq<Step>,
    v: Seq<Seq<A::T>>,
    s: Seq<Step>,
    x: GpuTensor,
    target: usize,
    last: bool,
)
    requires
        meaning::runs(a, whole, v, layers::finish4_steps(s, x, target, last)),
        meaning::holds(v, x),
        x.rank == 4,
        target > 0,
    ensures
        meaning::went(whole, v, s, layers::finish4_steps(s, x, target, last)),
        ({
            let r = layers::finish4_steps(s, x, target, last)->Ok_0.1;
            &&& r.rank == 4
            &&& r.d0 == x.d0
            &&& r.d1 == x.d1
            &&& r.d2 == decoder::shorter(x.d2 as int, target as int)
            &&& r.d3 == x.d3
            &&& decoder::is_activated(
                a,
                last,
                decoder::trimmed_freq(meaning::at(v, x), meaning::axes4(x), target),
                meaning::at(v, r),
            )
        }),
{
    growth::finish4_grows(s, x, target, last);
    if x.d2 > target {
        let b1 = gpu_layout::trim_h2_steps(s, x, target);
        let (s1, y) = b1->Ok_0;
        if last {
            operators::trim_h2_means(a, whole, v, s, x, target);
        } else {
            let b2 = elementwise::gelu_steps(s1, y);
            growth::lemma_inside(s1, b2->Ok_0.0, whole);
            operators::trim_h2_means(a, whole, v, s, x, target);
            operators::gelu_means(a, whole, v, s1, y);
        }
    } else if !last {
        operators::gelu_means(a, whole, v, s, x);
    }
}

/// The end of a layer of the time decoder is the one of the processor.
pub proof fn finish3_means<A: Arith>(
    a: &A,
    whole: Seq<Step>,
    v: Seq<Seq<A::T>>,
    s: Seq<Step>,
    x: GpuTensor,
    target: usize,
    last: bool,
)
    requires
        meaning::runs(a, whole, v, layers::finish3_steps(s, x, target, last)),
        meaning::holds(v, x),
        x.rank == 3,
        target > 0,
    ensures
        meaning::went(whole, v, s, layers::finish3_steps(s, x, target, last)),
        ({
            let r = layers::finish3_steps(s, x, target, last)->Ok_0.1;
            &&& r.rank == 3
            &&& r.d0 == x.d0
            &&& r.d1 == x.d1
            &&& r.d2 == decoder::shorter(x.d2 as int, target as int)
            &&& r.d3 == x.d3
            &&& decoder::is_activated(
                a,
                last,
                decoder::trimmed_time(meaning::at(v, x), meaning::axes3(x), target),
                meaning::at(v, r),
            )
        }),
{
    growth::finish3_grows(s, x, target, last);
    if x.d2 > target {
        let b1 = gpu_layout::trim_l_steps(s, x, target);
        let (s1, y) = b1->Ok_0;
        if last {
            operators::trim_l_means(a, whole, v, s, x, target);
        } else {
            let b2 = elementwise::gelu_steps(s1, y);
            growth::lemma_inside(s1, b2->Ok_0.0, whole);
            operators::trim_l_means(a, whole, v, s, x, target);
            operators::gelu_means(a, whole, v, s1, y);
        }
    } else if !last {
        operators::gelu_means(a, whole, v, s, x);
    }
}

/// A layer of the frequency decoder is the one of the processor.
#[verifier::spinoff_prover]
pub proof fn hdec_means<A: Arith>(
    a: &A,
    whole: Seq<Step>,
    v: Seq<Seq<A::T>>,
    s: Seq<Step>,
    x: GpuTensor,
    skip: GpuTensor,
    target: usize,
    g: GpuHDecLayer,
    layer: &HDecLayer<A::T>,
)
    requires
        meaning::unrounded(a),
        meaning::runs(a, whole, v, layers::hdec_layer_steps(s, x, skip, target, g)),
        meaning::holds(v, x),
        meaning::holds(v, skip),
        x.rank == 4,
        skip.rank == 4,
        target > 0,
        weights::holds_hdec(v, g, *layer),
        weights::dconv_pointwise(layer.dconv),
        decoder::hdec_ok(
            index::size4(meaning::axes4(x)),
            meaning::axes4(x),
            index::size4(meaning::axes4(skip)),
            meaning::axes4(skip),
            layer,
        ),
    ensures
        meaning::went(whole, v, s, layers::hdec_layer_steps(s, x, skip, target, g)),
        ({
            let r = layers::hdec_layer_steps(s, x, skip, target, g)->Ok_0.1;
            &&& r.rank == 4
            &&& meaning::axes4(r) == decoder::hdec_shape(meaning::axes4(x), target, layer)
            &&& decoder::is_hdec(
                a,
                meaning::at(v, x),
                meaning::axes4(x),
                meaning::at(v, skip),
                target,
                layer,
                meaning::at(v, r),
            )
        }),
{
    reveal(layers::hdec_layer_steps);
    reveal(weights::holds_hdec);
    reveal(decoder::hdec_ok);
    reveal(decoder::hdec_shape);
    reveal(cpu_conv::conv2d_ok);
    reveal(cpu_conv::conv_transpose2d_ok);
    growth::hdec_grows(s, x, skip, target, g);
    let b1 = elementwise::add_to_steps(s, x, skip);
    let (s1, h1) = b1->Ok_0;
    let b2 = gpu_conv::conv2d_3x3_s1p1_steps(s1, h1, g.rewrite, g.rewrite_bias);
    growth::conv2d_3x3_s1p1_grows(s1, h1, g.rewrite, g.rewrite_bias);
    let (s2, h2) = b2->Ok_0;
    let b3 = layers::flat_glu_steps(s2, h2);
    growth::flat_glu_grows(s2, h2);
    let (s3, h3) = b3->Ok_0;
    let b4 = layers::dconv_rows_steps(
        s3,
        gpu_tensor::as_tensor4(h3.data, x.d0, h2.d1 / 2, x.d2, x.d3)->Ok_0,
        g.dconv,
    );
    growth::dconv_rows_grows(
        s3,
        gpu_tensor::as_tensor4(h3.data, x.d0, h2.d1 / 2, x.d2, x.d3)->Ok_0,
        g.dconv,
    );
    let (s4, h4) = b4->Ok_0;
    let b5 = gpu_conv::conv_transpose2d_8x1_s4p2_steps(s4, h4, g.conv_tr, g.conv_tr_bias);
    growth::conv_transpose2d_8x1_s4p2_grows(s4, h4, g.conv_tr, g.conv_tr_bias);
    let (s5, h5) = b5->Ok_0;
    let b6 = layers::finish4_steps(s5, h5, target, g.last);
    growth::finish4_grows(s5, h5, target, g.last);
    growth::lemma_inside(s5, b6->Ok_0.0, whole);
    growth::lemma_inside(s4, b5->Ok_0.0, whole);
    growth::lemma_inside(s3, b4->Ok_0.0, whole);
    growth::lemma_inside(s2, b3->Ok_0.0, whole);
    growth::lemma_inside(s1, b2->Ok_0.0, whole);
    let e = meaning::axes4(x);
    operators::add_to_means(a, whole, v, s, x, skip);
    conv::conv2d_3x3_s1p1_means(
        a,
        whole,
        v,
        s1,
        h1,
        g.rewrite,
        g.rewrite_bias,
        &layer.rewrite,
        layer.rewrite_bias.data@,
    );
    flat_glu_means(a, whole, v, s2, h2);
    let planes = gpu_tensor::as_tensor4(h3.data, x.d0, h2.d1 / 2, x.d2, x.d3)->Ok_0;
    assert(meaning::axes4(planes) == decoder::hdec_glu_shape(e, layer));
    rows_means(a, whole, v, s3, planes, g.dconv, layer.dconv);
    conv::conv_transpose2d_8x1_s4p2_means(
        a,
        whole,
        v,
        s4,
        h4,
        g.conv_tr,
        g.conv_tr_bias,
        &layer.conv_tr,
        layer.conv_tr_bias.data@,
    );
    finish4_means(a, whole, v, s5, h5, target, g.last);
    assert(decoder::is_zip_sum(a, meaning::at(v, x), meaning::at(v, skip), meaning::at(v, h1))) by {
        reveal(decoder::is_zip_sum);
        reveal(cpu_elementwise::is_added);
    }
    assert(decoder::is_hdec(
        a,
        meaning::at(v, x),
        e,
        meaning::at(v, skip),
        target,
        layer,
        meaning::at(v, b6->Ok_0.1),
    )) by {
        reveal(decoder::is_hdec);
    }
}

/// The sum of a sequence and the start of one that is not shorter is the one of the processor.
proof fn lemma_rows_sum<A: Arith>(
    a: &A,
    rows: int,
    x: Seq<A::T>,
    t: int,
    skip: Seq<A::T>,
    skip_t: int,
    out: Seq<A::T>,
)
    requires
        0 <= rows,
        0 < t <= skip_t,
        x.len() == rows * t,
        skip.len() == rows * skip_t,
        cpu_elementwise::is_added(
            a,
            x,
            if skip_t > t { layout::trimmed(skip, rows, skip_t, 1, t) } else { skip },
            out,
        ),
    ensures
        decoder::is_rows_sum(a, rows, x, t, skip, skip_t, out),
{
    reveal(decoder::is_rows_sum);
    reveal(cpu_elementwise::is_added);
    assert forall|i: int| 0 <= i < out.len() implies decoder::is_row_sum(
        a,
        x,
        t,
        skip,
        skip_t,
        i,
        #[trigger] out[i],
    ) by {
        index::lemma_unpair(i, rows, t);
        if skip_t > t {
            assert(rows * t * 1 == rows * t);
            assert(index::pos3(
                i / 1 / t,
                i / 1 % t,
                i % 1,
                skip_t,
                1,
            ) == index::pos2(i / t, i % t, skip_t));
        }
    }
}

/// A layer of the time decoder is the one of the processor.
#[verifier::spinoff_prover]
pub proof fn tdec_means<A: Arith>(
    a: &A,
    whole: Seq<Step>,
    v: Seq<Seq<A::T>>,
    s: Seq<Step>,
    x: GpuTensor,
    skip: GpuTensor,
    target: usize,
    g: GpuTDecLayer,
    layer: &TDecLayer<A::T>,
)
    requires
        meaning::unrounded(a),
        meaning::runs(a, whole, v, layers::tdec_layer_steps(s, x, skip, target, g)),
        meaning::holds(v, x),
        meaning::holds(v, skip),
        x.rank == 3,
        skip.rank == 3,
        skip.d0 == x.d0,
        skip.d1 == x.d1,
        target > 0,
        layer.conv_tr.out_ch > 0,
        weights::holds_tdec(v, g, *layer),
        weights::dconv_pointwise(layer.dconv),
        decoder::tdec_ok(
            index::size3(meaning::axes3(x)),
            meaning::axes3(x),
            index::size3(meaning::axes3(skip)),
            meaning::axes3(skip),
            layer,
        ),
    ensures
        meaning::went(whole, v, s, layers::tdec_layer_steps(s, x, skip, target, g)),
        ({
            let r = layers::tdec_layer_steps(s, x, skip, target, g)->Ok_0.1;
            &&& r.rank == 3
            &&& meaning::axes3(r) == decoder::tdec_shape(meaning::axes3(x), target, layer)
            &&& decoder::is_tdec(
                a,
                meaning::at(v, x),
                meaning::axes3(x),
                meaning::at(v, skip),
                meaning::axes3(skip),
                target,
                layer,
                meaning::at(v, r),
            )
        }),
{
    reveal(layers::tdec_layer_steps);
    reveal(weights::holds_tdec);
    reveal(decoder::tdec_ok);
    reveal(decoder::tdec_shape);
    reveal(cpu_conv::conv1d_ok);
    growth::tdec_grows(s, x, skip, target, g);
    let b1 = layers::skip_steps(s, x, skip);
    let (s1, h1) = b1->Ok_0;
    let b2 = elementwise::add_to_steps(s1, x, h1);
    let (s2, h2) = b2->Ok_0;
    let b3 = gpu_conv::conv1d_k3_dilation_steps(s2, h2, g.rewrite, g.rewrite_bias, 1);
    growth::conv1d_k3_dilation_grows(s2, h2, g.rewrite, g.rewrite_bias, 1);
    let (s3, h3) = b3->Ok_0;
    let b4 = elementwise::glu_channel_steps(s3, h3);
    let (s4, h4) = b4->Ok_0;
    let b5 = layers::dconv_steps(s4, h4, g.dconv);
    growth::dconv_grows(s4, h4, g.dconv.layers@, 0, 1);
    let (s5, h5) = b5->Ok_0;
    let b6 = gpu_conv::conv_transpose1d_8_s4p2_steps(s5, h5, g.conv_tr, g.conv_tr_bias);
    growth::conv_transpose1d_8_s4p2_grows(s5, h5, g.conv_tr, g.conv_tr_bias);
    let (s6, h6) = b6->Ok_0;
    let b7 = layers::finish3_steps(s6, h6, target, g.last);
    growth::finish3_grows(s6, h6, target, g.last);
    growth::lemma_inside(s6, b7->Ok_0.0, whole);
    growth::lemma_inside(s5, b6->Ok_0.0, whole);
    growth::lemma_inside(s4, b5->Ok_0.0, whole);
    growth::lemma_inside(s3, b4->Ok_0.0, whole);
    growth::lemma_inside(s2, b3->Ok_0.0, whole);
    growth::lemma_inside(s1, b2->Ok_0.0, whole);
    let e = meaning::axes3(x);
    assert(x.d0 * x.d1 > 0 && x.d2 > 0) by (nonlinear_arith)
        requires
            x.d0 * x.d1 * x.d2 > 0,
    ;
    if skip.d2 > x.d2 {
        operators::trim_l_means(a, whole, v, s, skip, x.d2);
    }
    operators::add_to_means(a, whole, v, s1, x, h1);
    assert(skip.d2 >= x.d2) by (nonlinear_arith)
        requires
            skip.d2 > x.d2 || x.d0 * x.d1 * skip.d2 == x.d0 * x.d1 * x.d2,
            x.d0 * x.d1 > 0,
    ;
    lemma_rows_sum(
        a,
        x.d0 * x.d1,
        meaning::at(v, x),
        x.d2 as int,
        meaning::at(v, skip),
        skip.d2 as int,
        meaning::at(v, h2),
    );
    conv::conv1d_k3_dilation_means(
        a,
        whole,
        v,
        s2,
        h2,
        g.rewrite,
        g.rewrite_bias,
        1,
        &layer.rewrite,
        layer.rewrite_bias.data@,
    );
    operators::glu_channel_means(a, whole, v, s3, h3);
    dconv_means(a, whole, v, s4, h4, g.dconv, layer.dconv);
    conv::conv_transpose1d_8_s4p2_means(
        a,
        whole,
        v,
        s5,
        h5,
        g.conv_tr,
        g.conv_tr_bias,
        &layer.conv_tr,
        layer.conv_tr_bias.data@,
    );
    finish3_means(a, whole, v, s6, h6, target, g.last);
    assert(decoder::is_tdec(
        a,
        meaning::at(v, x),
        e,
        meaning::at(v, skip),
        meaning::axes3(skip),
        target,
        layer,
        meaning::at(v, b7->Ok_0.1),
    )) by {
        reveal(decoder::is_tdec);
    }
}

} // verus!
