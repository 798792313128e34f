//! The residual branch of the encoder and decoder layers.
use vstd::prelude::*;
use crate::arith::Arith;
use crate::index;
use crate::model::DConv;
use crate::model::DConvLayer;
use crate::ops_cpu::conv;
use crate::ops_cpu::elementwise;
use crate::ops_cpu::layout;
use crate::ops_cpu::norm;

verus! {

/// Shape after the first convolution of a layer.
pub open spec fn compressed_shape<T>(
    s: [usize; 3],
    layer: &DConvLayer<T>,
    dilation: usize,
) -> [usize; 3] {
    conv::conv1d_shape(s, &layer.conv1, dilation, 1, dilation)
}

/// Shape after the second convolution of a layer.
pub open spec fn expanded_shape<T>(
    s: [usize; 3],
    layer: &DConvLayer<T>,
    dilation: usize,
) -> [usize; 3] {
    conv::conv1d_shape(compressed_shape(s, layer, dilation), &layer.conv2, 0, 1, 1)
}

/// The shape that [`dconv_layer_forward`] gives.
#[verifier::opaque]
pub open spec fn dconv_layer_shape<T>(
    s: [usize; 3],
    layer: &DConvLayer<T>,
    dilation: usize,
) -> [usize; 3] {
    let e = expanded_shape(s, layer, dilation);
    [e[0], (e[1] / 2) as usize, e[2]]
}

/// The inputs on which [`dconv_layer_forward`] is defined: both convolutions are, the
/// parameters have an entry for each channel, and the layer gives back the channels that it
/// was given, on no more positions.
#[verifier::opaque]
pub open spec fn dconv_layer_ok<T>(
    x_len: int,
    s: [usize; 3],
    layer: &DConvLayer<T>,
    dilation: usize,
) -> bool {
    let h = compressed_shape(s, layer, dilation);
    let e = expanded_shape(s, layer, dilation);
    &&& conv::conv1d_ok(x_len, s, &layer.conv1, layer.conv1_bias.data@, dilation, 1, dilation)
    &&& h[1] * h[2] <= usize::MAX
    &&& h[1] <= layer.norm1.gamma@.len()
    &&& h[1] <= layer.norm1.beta@.len()
    &&& conv::conv1d_ok(index::size3(h), h, &layer.conv2, layer.conv2_bias.data@, 0, 1, 1)
    &&& e[1] * e[2] <= usize::MAX
    &&& e[1] <= layer.norm2.gamma@.len()
    &&& e[1] <= layer.norm2.beta@.len()
    &&& e[1] == 2 * s[1]
    &&& s[1] <= layer.scale.scale@.len()
    &&& e[2] <= s[2]
}

/// `out` is the result of [`dconv_layer_forward`].
#[verifier::opaque]
pub open spec fn is_dconv_layer<A: Arith>(
    a: &A,
    x: Seq<A::T>,
    s: [usize; 3],
    layer: &DConvLayer<A::T>,
    dilation: usize,
    out: Seq<A::T>,
) -> bool {
    let h = compressed_shape(s, layer, dilation);
    let e = expanded_shape(s, layer, dilation);
    exists|
        c1: Seq<A::T>,
        n1: Seq<A::T>,
        g1: Seq<A::T>,
        c2: Seq<A::T>,
        n2: Seq<A::T>,
        g2: Seq<A::T>,
        sc: Seq<A::T>,
    |
        {
            &&& #[trigger] conv::is_conv1d(
                a,
                x,
                s,
                &layer.conv1,
                layer.conv1_bias.data@,
                dilation,
                1,
                dilation,
                c1,
            )
            &&& #[trigger] norm::is_run_normalized(
                a,
                c1,
                h[1] as int,
                h[2] as int,
                layer.norm1.gamma@,
                layer.norm1.beta@,
                n1,
            )
            &&& #[trigger] elementwise::is_gelu(a, n1, g1)
            &&& #[trigger] conv::is_conv1d(
                a,
                g1,
                h,
                &layer.conv2,
                layer.conv2_bias.data@,
                0,
                1,
                1,
                c2,
            )
            &&& #[trigger] norm::is_run_normalized(
                a,
                c2,
                e[1] as int,
                e[2] as int,
                layer.norm2.gamma@,
                layer.norm2.beta@,
                n2,
            )
            &&& #[trigger] elementwise::is_glu(a, n2, e[0] as int, e[1] as int / 2, e[2] as int, g2)
            &&& #[trigger] elementwise::is_scaled(
                a,
                g2,
                e[1] as int / 2,
                e[2] as int,
                layer.scale.scale@,
                sc,
            )
            &&& elementwise::is_added(
                a,
                sc,
                layout::trimmed(x, s[0] * s[1], s[2] as int, 1, e[2] as int),
                out,
            )
        }
}

/// One residual layer on a `[B, C, L]` tensor: convolve with `dilation`, normalize, GELU,
/// convolve, normalize, GLU, scale, and add the input.
pub fn dconv_layer_forward<A: Arith>(
    a: &A,
    x: &[A::T],
    shape: [usize; 3],
    layer: &DConvLayer<A::T>,
    dilation: usize,
) -> (r: (Vec<A::T>, [usize; 3]))
    requires
        dconv_layer_ok(x@.len() as int, shape, layer, dilation),
    ensures
        r.1 == dconv_layer_shape(shape, layer, dilation),
        r.0@.len() == index::size3(r.1),
        is_dconv_layer(a, x@, shape, layer, dilation, r.0@),
{
    proof {
        reveal(dconv_layer_shape);
    }
    proof {
        reveal(dconv_layer_ok);
        reveal(is_dconv_layer);
        reveal(conv::conv1d_ok);
    }
    let (mut h, h_shape) = conv::conv1d(
        a,
        x,
        shape,
        &layer.conv1,
        &layer.conv1_bias,
        dilation,
        dilation,
    );
    proof {
        index::lemma_runs(h_shape[0] as int, h_shape[1] as int, h_shape[2] as int);
    }
    norm::groupnorm1(a, &mut h, h_shape, &layer.norm1);
    elementwise::gelu(a, &mut h);
    let (mut h2, h2_shape) = conv::conv1d(a, &h, h_shape, &layer.conv2, &layer.conv2_bias, 0, 1);
    proof {
        index::lemma_runs(h2_shape[0] as int, h2_shape[1] as int, h2_shape[2] as int);
    }
    norm::groupnorm1(a, &mut h2, h2_shape, &layer.norm2);
    let (mut h3, h3_shape) = elementwise::glu_channel(a, &h2, h2_shape);
    let len_in: usize = x.len();
    proof {
        assert(h3_shape[1] * h3_shape[2] <= h2_shape[1] * h2_shape[2]) by (nonlinear_arith)
            requires
                h3_shape[1] <= h2_shape[1],
                h3_shape[2] == h2_shape[2],
        ;
        index::lemma_extent(shape[0] as int, shape[1] as int);
        index::lemma_partial_extent(shape[0] * shape[1], shape[2] as int, len_in as int);
    }
    elementwise::layer_scale(a, &mut h3, h3_shape, &layer.scale);
    let residual: Vec<A::T> = layout::trim_middle(x, shape[0] * shape[1], shape[2], 1, h3_shape[2]);
    elementwise::add_to(a, &mut h3, &residual);
    (h3, h3_shape)
}

/// Dilation of layer `j`: `2^j`.
pub open spec fn dilation(j: int) -> int
    decreases j,
{
    if j <= 0 {
        1
    } else {
        2 * dilation(j - 1)
    }
}

/// The shape after the first `j` of `layers`.
pub open spec fn dconv_shape<T>(s: [usize; 3], layers: Seq<DConvLayer<T>>, j: int) -> [usize; 3]
    decreases j,
{
    if j <= 0 {
        s
    } else {
        dconv_layer_shape(dconv_shape(s, layers, j - 1), &layers[j - 1], dilation(j - 1) as usize)
    }
}

/// The inputs on which [`dconv_forward`] is defined.
#[verifier::opaque]
pub open spec fn dconv_ok<T>(x_len: int, s: [usize; 3], layers: Seq<DConvLayer<T>>) -> bool {
    &&& forall|j: int| 0 <= j < layers.len() ==> #[trigger] dilation(j) <= usize::MAX
    &&& forall|j: int|
        #![trigger layers[j]]
        0 <= j < layers.len() ==> dconv_layer_ok(
            if j == 0 {
                x_len
            } else {
                index::size3(dconv_shape(s, layers, j))
            },
            dconv_shape(s, layers, j),
            &layers[j],
            dilation(j) as usize,
        )
}

/// A residual layer keeps the batch and the channels, and lengthens nothing.
pub proof fn lemma_dconv_layer_shape<T>(
    x_len: int,
    s: [usize; 3],
    layer: &DConvLayer<T>,
    dilation: usize,
)
    requires
        dconv_layer_ok(x_len, s, layer, dilation),
    ensures
        dconv_layer_shape(s, layer, dilation)[0] == s[0],
        dconv_layer_shape(s, layer, dilation)[1] == s[1],
        0 < dconv_layer_shape(s, layer, dilation)[2] <= s[2],
{
    reveal(dconv_layer_shape);
    reveal(dconv_layer_ok);
    reveal(conv::conv1d_ok);
    let h = compressed_shape(s, layer, dilation);
    conv::lemma_forward_extent(
        s[2] as int,
        dilation as int,
        layer.conv1.k as int,
        1,
        dilation as int,
    );
    conv::lemma_forward_extent(h[2] as int, 0, layer.conv2.k as int, 1, 1);
}

/// The residual layers keep the batch and the channels, and lengthen nothing.
pub proof fn lemma_dconv_shape<T>(x_len: int, s: [usize; 3], layers: Seq<DConvLayer<T>>, j: int)
    requires
        dconv_ok(x_len, s, layers),
        0 <= j <= layers.len(),
    ensures
        dconv_shape(s, layers, j)[0] == s[0],
        dconv_shape(s, layers, j)[1] == s[1],
        dconv_shape(s, layers, j)[2] <= s[2],
        s[2] > 0 ==> dconv_shape(s, layers, j)[2] > 0,
    decreases j,
{
    if j > 0 {
        lemma_dconv_shape(x_len, s, layers, j - 1);
        lemma_dconv_at(x_len, s, layers, j - 1);
        let before = dconv_shape(s, layers, j - 1);
        lemma_dconv_layer_shape(
            if j == 1 {
                x_len
            } else {
                index::size3(before)
            },
            before,
            &layers[j - 1],
            dilation(j - 1) as usize,
        );
    }
}

/// What [`dconv_ok`] says of layer `j`.
proof fn lemma_dconv_at<T>(x_len: int, s: [usize; 3], layers: Seq<DConvLayer<T>>, j: int)
    requires
        dconv_ok(x_len, s, layers),
        0 <= j < layers.len(),
    ensures
        dilation(j) <= usize::MAX,
        dconv_layer_ok(
            if j == 0 {
                x_len
            } else {
                index::size3(dconv_shape(s, layers, j))
            },
            dconv_shape(s, layers, j),
            &layers[j],
            dilation(j) as usize,
        ),
{
    reveal(dconv_ok);
    let layer = layers[j];
}

/// `steps` are the tensors before, between and after `layers`.
pub open spec fn are_dconv_steps<A: Arith>(
    a: &A,
    x: Seq<A::T>,
    s: [usize; 3],
    layers: Seq<DConvLayer<A::T>>,
    steps: Seq<Seq<A::T>>,
) -> bool {
    &&& steps.len() == layers.len() + 1
    &&& steps[0] == x
    &&& forall|j: int|
        #![trigger layers[j]]
        0 <= j < layers.len() ==> is_dconv_layer(
            a,
            steps[j],
            dconv_shape(s, layers, j),
            &layers[j],
            dilation(j) as usize,
            steps[j + 1],
        )
}

/// `out` is the result of [`dconv_forward`].
#[verifier::opaque]
pub open spec fn is_dconv<A: Arith>(
    a: &A,
    x: Seq<A::T>,
    s: [usize; 3],
    layers: Seq<DConvLayer<A::T>>,
    out: Seq<A::T>,
) -> bool {
    exists|steps: Seq<Seq<A::T>>| #[trigger]
        are_dconv_steps(a, x, s, layers, steps) && out == steps.last()
}

/// The residual layers one after the other, with dilation 1, 2, 4 and so on.
pub fn dconv_forward<A: Arith>(a: &A, x: &[A::T], shape: [usize; 3], dconv: &DConv<A::T>) -> (r: (
    Vec<A::T>,
    [usize; 3],
))
    requires
        dconv_ok(x@.len() as int, shape, dconv.layers@),
    ensures
        r.1 == dconv_shape(shape, dconv.layers@, dconv.layers@.len() as int),
        x@.len() == index::size3(shape) ==> r.0@.len() == index::size3(r.1),
        is_dconv(a, x@, shape, dconv.layers@, r.0@),
{
    let n: usize = dconv.layers.len();
    let mut data: Vec<A::T> = layout::to_vec(x);
    let mut s: [usize; 3] = shape;
    let mut d: usize = 1;
    let mut j: usize = 0;
    let ghost mut steps = seq![x@];
    while j < n
        invariant
            j <= n,
            n == dconv.layers@.len(),
            dconv_ok(x@.len() as int, shape, dconv.layers@),
            s == dconv_shape(shape, dconv.layers@, j as int),
            j < n ==> d == dilation(j as int),
            j == 0 ==> data@.len() == x@.len(),
            j > 0 ==> data@.len() == index::size3(s),
            steps.len() == j + 1,
            steps[0] == x@,
            steps.last() == data@,
            forall|i: int|
                #![trigger dconv.layers@[i]]
                0 <= i < j ==> is_dconv_layer(
                    a,
                    steps[i],
                    dconv_shape(shape, dconv.layers@, i),
                    &dconv.layers@[i],
                    dilation(i) as usize,
                    steps[i + 1],
                ),
        decreases n - j,
    {
        let ghost before = data@;
        proof {
            lemma_dconv_at(x@.len() as int, shape, dconv.layers@, j as int);
        }
        let (out, out_shape) = dconv_layer_forward(a, &data, s, &dconv.layers[j], d);
        proof {
            let prev = steps;
            steps = steps.push(out@);
            assert forall|i: int| 0 <= i < j + 1 implies is_dconv_layer(
                a,
                steps[i],
                dconv_shape(shape, dconv.layers@, i),
                &#[trigger] dconv.layers@[i],
                dilation(i) as usize,
                steps[i + 1],
            ) by {
                if i < j {
                    assert(steps[i] == prev[i] && steps[i + 1] == prev[i + 1]);
                } else {
                    assert(steps[i] == before);
                }
            }
        }
        data = out;
        s = out_shape;
        j = j + 1;
        if j < n {
            proof {
                lemma_dconv_at(x@.len() as int, shape, dconv.layers@, j as int);
            }
            d = 2 * d;
        }
    }
    proof {
        reveal(is_dconv);
        assert(are_dconv_steps(a, x@, shape, dconv.layers@, steps));
    }
    (data, s)
}

} // verus!
