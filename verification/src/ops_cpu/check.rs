//! Tests at run time of whether the operators are defined on given shapes and weights.
//!
//! Each function decides one of the conditions that the operators require, and gives the
//! shape of the result where it holds.
use vstd::prelude::*;
use crate::index;
use crate::model::Conv1dWeight;
use crate::model::Conv2dWeight;
use crate::model::CrossAttnLayer;
use crate::model::CrossDomainTransformer;
use crate::model::DConvLayer;
use crate::model::FreqEmb;
use crate::model::GroupNorm1;
use crate::model::HDecLayer;
use crate::model::HEncLayer;
use crate::model::HTDemucs;
use crate::model::LayerNorm1;
use crate::model::LayerScale;
use crate::model::MhaWeights;
use crate::model::SelfAttnLayer;
use crate::model::TDecLayer;
use crate::model::TEncLayer;
use crate::model::TransformerLayerWeights;
use crate::model::Weight2D;
use crate::ops_cpu::attention;
use crate::ops_cpu::conv;
use crate::ops_cpu::dconv;
use crate::ops_cpu::decoder;
use crate::ops_cpu::encoder;
use crate::ops_cpu::forward;
use crate::ops_cpu::transformer;
use crate::N_FFT;
use crate::T_LAYERS;

verus! {

/// The product of two extents, where it fits.
fn mul2(a: usize, b: usize) -> (r: Option<usize>)
    ensures
        index::fitted(a * b, r),
{
    a.checked_mul(b)
}

/// Number of elements of a tensor whose size fits.
fn size_of3(s: [usize; 3]) -> (r: usize)
    requires
        index::size3(s) <= usize::MAX,
    ensures
        r == index::size3(s),
{
    match index::product3(s[0], s[1], s[2]) {
        Some(p) => p,
        None => 0,
    }
}

/// Number of elements of a tensor whose size fits.
fn size_of4(s: [usize; 4]) -> (r: usize)
    requires
        index::size4(s) <= usize::MAX,
    ensures
        r == index::size4(s),
{
    match index::product4(s[0], s[1], s[2], s[3]) {
        Some(p) => p,
        None => 0,
    }
}

/// Whether a product of two extents is at most `max`.
fn at_most2(a: usize, b: usize, max: usize) -> (r: bool)
    ensures
        r == (a * b <= max),
{
    match mul2(a, b) {
        Some(p) => p <= max,
        None => false,
    }
}

/// Whether a product of three extents is at most `max`.
fn at_most3(a: usize, b: usize, c: usize, max: usize) -> (r: bool)
    ensures
        r == (a * b * c <= max),
{
    match index::product3(a, b, c) {
        Some(p) => p <= max,
        None => false,
    }
}

/// Whether a product of four extents is at most `max`.
fn at_most4(a: usize, b: usize, c: usize, d: usize, max: usize) -> (r: bool)
    ensures
        r == (a * b * c * d <= max),
{
    match index::product4(a, b, c, d) {
        Some(p) => p <= max,
        None => false,
    }
}

/// The extent that a forward convolution gives along one axis, where it is defined.
fn check_forward(
    n_in: usize,
    pad: usize,
    k: usize,
    stride: usize,
    dilation: usize,
) -> (r: Option<usize>)
    ensures
        match r {
            Some(n) => {
                &&& conv::forward_ok(
                    n_in as int,
                    pad as int,
                    k as int,
                    stride as int,
                    dilation as int,
                )
                &&& n == conv::forward_extent(
                    n_in as int,
                    pad as int,
                    k as int,
                    stride as int,
                    dilation as int,
                )
                &&& n >= 1
            },
            None => !conv::forward_ok(
                n_in as int,
                pad as int,
                k as int,
                stride as int,
                dilation as int,
            ),
        },
{
    if k < 1 || stride < 1 {
        return None;
    }
    let twice: usize = match mul2(2, pad) {
        Some(p) => p,
        None => {
            return None;
        },
    };
    let room: usize = match n_in.checked_add(twice) {
        Some(p) => p,
        None => {
            return None;
        },
    };
    let span: usize = match mul2(dilation, k - 1) {
        Some(p) => p,
        None => {
            return None;
        },
    };
    if room < 1 || span > room - 1 {
        return None;
    }
    proof {
        conv::lemma_forward_extent(
            n_in as int,
            pad as int,
            k as int,
            stride as int,
            dilation as int,
        );
    }
    Some((room - span - 1) / stride + 1)
}

/// The extent that a transposed convolution gives along one axis, where it is defined.
fn check_transposed(n_in: usize, pad: usize, k: usize, stride: usize) -> (r: Option<usize>)
    ensures
        match r {
            Some(n) => {
                &&& conv::transposed_ok(n_in as int, pad as int, k as int, stride as int)
                &&& n == conv::transposed_extent(n_in as int, pad as int, k as int, stride as int)
                &&& n >= 1
            },
            None => !conv::transposed_ok(n_in as int, pad as int, k as int, stride as int),
        },
{
    if n_in < 1 || k < 1 || stride < 1 {
        return None;
    }
    let grown: usize = match mul2(n_in - 1, stride) {
        Some(p) => p,
        None => {
            return None;
        },
    };
    let full: usize = match grown.checked_add(k) {
        Some(p) => p,
        None => {
            return None;
        },
    };
    let twice: usize = match mul2(2, pad) {
        Some(p) => p,
        None => {
            return None;
        },
    };
    if twice > full - 1 {
        return None;
    }
    Some(full - twice)
}

/// Whether the matrices of a convolution fit and its operands have their elements.
fn check_conv_fits(
    x_len: usize,
    b: usize,
    c_in: usize,
    h: usize,
    h_out: usize,
    kh: usize,
    w: usize,
    w_out: usize,
    kw: usize,
    c_out: usize,
    wt_len: usize,
    bias_len: usize,
) -> (r: bool)
    ensures
        r == ({
            let rows = b * h_out * w_out;
            let patch = c_in * kh * kw;
            &&& b * c_in * h * w <= x_len
            &&& patch * c_out <= wt_len
            &&& c_out <= bias_len
            &&& rows <= usize::MAX
            &&& patch <= usize::MAX
            &&& rows * patch <= usize::MAX
            &&& rows * c_out <= usize::MAX
        }),
{
    let rows: usize = match index::product3(b, h_out, w_out) {
        Some(p) => p,
        None => {
            return false;
        },
    };
    let patch: usize = match index::product3(c_in, kh, kw) {
        Some(p) => p,
        None => {
            return false;
        },
    };
    at_most4(b, c_in, h, w, x_len) && at_most2(patch, c_out, wt_len) && c_out <= bias_len
        && at_most2(rows, patch, usize::MAX) && at_most2(rows, c_out, usize::MAX)
}

/// The shape that [`conv::conv2d`] gives, where it is defined.
pub fn check_conv2d<T>(
    x_len: usize,
    s: [usize; 4],
    w: &Conv2dWeight<T>,
    bias: &Vec<T>,
    pad_h: usize,
    pad_w: usize,
    stride_h: usize,
    stride_w: usize,
) -> (r: Option<[usize; 4]>)
    ensures
        match r {
            Some(o) => {
                &&& conv::conv2d_ok(
                    x_len as int,
                    s,
                    w,
                    bias@,
                    pad_h,
                    pad_w,
                    stride_h,
                    stride_w,
                )
                &&& o == conv::conv2d_shape(s, w, pad_h, pad_w, stride_h, stride_w)
                &&& index::size4(o) <= usize::MAX
            },
            None => !conv::conv2d_ok(
                x_len as int,
                s,
                w,
                bias@,
                pad_h,
                pad_w,
                stride_h,
                stride_w,
            ),
        },
{
    proof {
        reveal(conv::conv2d_ok);
    }
    if s[1] != w.in_ch || w.in_ch == 0 || w.out_ch == 0 {
        return None;
    }
    let h_out: usize = match check_forward(s[2], pad_h, w.kh, stride_h, 1) {
        Some(n) => n,
        None => {
            return None;
        },
    };
    let w_out: usize = match check_forward(s[3], pad_w, w.kw, stride_w, 1) {
        Some(n) => n,
        None => {
            return None;
        },
    };
    if check_conv_fits(
        x_len,
        s[0],
        s[1],
        s[2],
        h_out,
        w.kh,
        s[3],
        w_out,
        w.kw,
        w.out_ch,
        w.data.len(),
        bias.len(),
    ) {
        let o: [usize; 4] = [s[0], w.out_ch, h_out, w_out];
        assert(s[0] * w.out_ch * h_out * w_out == s[0] * h_out * w_out * w.out_ch)
            by (nonlinear_arith);
        Some(o)
    } else {
        None
    }
}

/// The shape that [`conv::conv1d_with_stride`] gives, where it is defined.
pub fn check_conv1d<T>(
    x_len: usize,
    s: [usize; 3],
    w: &Conv1dWeight<T>,
    bias: &Vec<T>,
    pad: usize,
    stride: usize,
    dilation: usize,
) -> (r: Option<[usize; 3]>)
    ensures
        match r {
            Some(o) => {
                &&& conv::conv1d_ok(x_len as int, s, w, bias@, pad, stride, dilation)
                &&& o == conv::conv1d_shape(s, w, pad, stride, dilation)
                &&& index::size3(o) <= usize::MAX
            },
            None => !conv::conv1d_ok(x_len as int, s, w, bias@, pad, stride, dilation),
        },
{
    proof {
        reveal(conv::conv1d_ok);
    }
    if s[1] != w.in_ch || w.in_ch == 0 || w.out_ch == 0 {
        return None;
    }
    let l_out: usize = match check_forward(s[2], pad, w.k, stride, dilation) {
        Some(n) => n,
        None => {
            return None;
        },
    };
    assert(conv::unit_axis().n_out == 1);
    if check_conv_fits(
        x_len,
        s[0],
        s[1],
        s[2],
        l_out,
        w.k,
        1,
        1,
        1,
        w.out_ch,
        w.data.len(),
        bias.len(),
    ) {
        let o: [usize; 3] = [s[0], w.out_ch, l_out];
        assert(s[0] * w.out_ch * l_out == s[0] * l_out * 1 * w.out_ch) by (nonlinear_arith);
        Some(o)
    } else {
        None
    }
}

/// The shape that [`conv::conv_transpose2d`] gives, where it is defined.
pub fn check_conv_transpose2d<T>(
    x_len: usize,
    s: [usize; 4],
    w: &Conv2dWeight<T>,
    bias: &Vec<T>,
    pad_h: usize,
    pad_w: usize,
    stride_h: usize,
    stride_w: usize,
) -> (r: Option<[usize; 4]>)
    ensures
        match r {
            Some(o) => {
                &&& conv::conv_transpose2d_ok(
                    x_len as int,
                    s,
                    w,
                    bias@,
                    pad_h,
                    pad_w,
                    stride_h,
                    stride_w,
                )
                &&& o == conv::conv_transpose2d_shape(s, w, pad_h, pad_w, stride_h, stride_w)
                &&& index::size4(o) <= usize::MAX
            },
            None => !conv::conv_transpose2d_ok(
                x_len as int,
                s,
                w,
                bias@,
                pad_h,
                pad_w,
                stride_h,
                stride_w,
            ),
        },
{
    proof {
        reveal(conv::conv_transpose2d_ok);
    }
    if s[1] != w.in_ch || w.in_ch == 0 || w.out_ch == 0 {
        return None;
    }
    let h_out: usize = match check_transposed(s[2], pad_h, w.kh, stride_h) {
        Some(n) => n,
        None => {
            return None;
        },
    };
    let w_out: usize = match check_transposed(s[3], pad_w, w.kw, stride_w) {
        Some(n) => n,
        None => {
            return None;
        },
    };
    if check_conv_fits(
        x_len,
        s[0],
        s[1],
        s[2],
        h_out,
        w.kh,
        s[3],
        w_out,
        w.kw,
        w.out_ch,
        w.data.len(),
        bias.len(),
    ) {
        let o: [usize; 4] = [s[0], w.out_ch, h_out, w_out];
        assert(s[0] * w.out_ch * h_out * w_out == s[0] * h_out * w_out * w.out_ch)
            by (nonlinear_arith);
        Some(o)
    } else {
        None
    }
}

/// The shape that [`conv::conv_transpose1d`] gives, where it is defined.
pub fn check_conv_transpose1d<T>(
    x_len: usize,
    s: [usize; 3],
    w: &Conv1dWeight<T>,
    bias: &Vec<T>,
    pad: usize,
    stride: usize,
) -> (r: Option<[usize; 3]>)
    ensures
        match r {
            Some(o) => {
                &&& conv::conv_transpose1d_ok(x_len as int, s, w, bias@, pad, stride)
                &&& o == conv::conv_transpose1d_shape(s, w, pad, stride)
                &&& index::size3(o) <= usize::MAX
            },
            None => !conv::conv_transpose1d_ok(x_len as int, s, w, bias@, pad, stride),
        },
{
    proof {
        reveal(conv::conv_transpose1d_ok);
    }
    if s[1] != w.in_ch {
        return None;
    }
    let l_out: usize = match check_transposed(s[2], pad, w.k, stride) {
        Some(n) => n,
        None => {
            return None;
        },
    };
    assert(conv::unit_axis().n_out == 1);
    if check_conv_fits(
        x_len,
        s[0],
        s[1],
        s[2],
        l_out,
        w.k,
        1,
        1,
        1,
        w.out_ch,
        w.data.len(),
        bias.len(),
    ) {
        let o: [usize; 3] = [s[0], w.out_ch, l_out];
        assert(s[0] * w.out_ch * l_out == s[0] * l_out * 1 * w.out_ch) by (nonlinear_arith);
        Some(o)
    } else {
        None
    }
}

/// The shape that [`dconv::dconv_layer_forward`] gives, where it is defined.
pub fn check_dconv_layer<T>(x_len: usize, s: [usize; 3], layer: &DConvLayer<T>, dilation: usize) -> (r: Option<
    [usize; 3],
>)
    ensures
        match r {
            Some(o) => {
                &&& dconv::dconv_layer_ok(x_len as int, s, layer, dilation)
                &&& o == dconv::dconv_layer_shape(s, layer, dilation)
                &&& index::size3(o) <= usize::MAX
            },
            None => !dconv::dconv_layer_ok(x_len as int, s, layer, dilation),
        },
{
    proof {
        reveal(dconv::dconv_layer_shape);
    }
    proof {
        reveal(dconv::dconv_layer_ok);
    }
    let h: [usize; 3] = match check_conv1d(
        x_len,
        s,
        &layer.conv1,
        &layer.conv1_bias.data,
        dilation,
        1,
        dilation,
    ) {
        Some(o) => o,
        None => {
            return None;
        },
    };
    if !at_most2(h[1], h[2], usize::MAX) || h[1] > layer.norm1.gamma.len() || h[1]
        > layer.norm1.beta.len() {
        return None;
    }
    let h_len: usize = size_of3(h);
    let e: [usize; 3] = match check_conv1d(
        h_len,
        h,
        &layer.conv2,
        &layer.conv2_bias.data,
        0,
        1,
        1,
    ) {
        Some(o) => o,
        None => {
            return None;
        },
    };
    if !at_most2(e[1], e[2], usize::MAX) || e[1] > layer.norm2.gamma.len() || e[1]
        > layer.norm2.beta.len() {
        return None;
    }
    if e[1] % 2 != 0 || e[1] / 2 != s[1] || s[1] > layer.scale.scale.len() || e[2] > s[2] {
        return None;
    }
    let o: [usize; 3] = [e[0], e[1] / 2, e[2]];
    proof {
        assert(e[0] * (e[1] as int / 2) * e[2] <= e[0] * e[1] * e[2]) by (nonlinear_arith)
            requires
                e[0] >= 0,
                e[1] >= 0,
                e[2] >= 0,
        ;
    }
    Some(o)
}

/// The shape that [`dconv::dconv_forward`] gives, where it is defined.
pub fn check_dconv<T>(
    x_len: usize,
    s: [usize; 3],
    layers: &Vec<DConvLayer<T>>,
) -> (r: Option<[usize; 3]>)
    ensures
        match r {
            Some(o) => {
                &&& dconv::dconv_ok(x_len as int, s, layers@)
                &&& o == dconv::dconv_shape(s, layers@, layers@.len() as int)
                &&& x_len == index::size3(s) ==> index::size3(o) <= usize::MAX
            },
            None => !dconv::dconv_ok(x_len as int, s, layers@),
        },
{
    let n: usize = layers.len();
    let mut shape: [usize; 3] = s;
    let mut len: usize = x_len;
    let mut d: usize = 1;
    let mut j: usize = 0;
    while j < n
        invariant
            j <= n,
            n == layers@.len(),
            shape == dconv::dconv_shape(s, layers@, j as int),
            j == 0 ==> len == x_len,
            j > 0 ==> len == index::size3(shape),
            j < n ==> d == dconv::dilation(j as int),
            forall|i: int| 0 <= i < j ==> #[trigger] dconv::dilation(i) <= usize::MAX,
            forall|i: int|
                #![trigger layers@[i]]
                0 <= i < j ==> dconv::dconv_layer_ok(
                    if i == 0 {
                        x_len as int
                    } else {
                        index::size3(dconv::dconv_shape(s, layers@, i))
                    },
                    dconv::dconv_shape(s, layers@, i),
                    &layers@[i],
                    dconv::dilation(i) as usize,
                ),
        decreases n - j,
    {
        let o: [usize; 3] = match check_dconv_layer(len, shape, &layers[j], d) {
            Some(o) => o,
            None => {
                proof {
                    reveal(dconv::dconv_ok);
                    let l = layers@[j as int];
                }
                return None;
            },
        };
        shape = o;
        len = size_of3(o);
        j = j + 1;
        if j < n {
            match mul2(2, d) {
                Some(p) => {
                    d = p;
                },
                None => {
                    proof {
                        reveal(dconv::dconv_ok);
                        let l = layers@[j as int];
                    }
                    return None;
                },
            }
        }
    }
    proof {
        assert(dconv::dconv_ok(x_len as int, s, layers@)) by {
            reveal(dconv::dconv_ok);
        }
        if n == 0 {
            assert(shape == s);
        }
        assert(x_len == index::size3(s) ==> index::size3(shape) <= usize::MAX);
    }
    Some(shape)
}

/// The shape after the residual layers for each frequency, where they are defined.
pub fn check_per_frequency<T>(s: [usize; 4], layers: &Vec<DConvLayer<T>>) -> (r: Option<[usize; 4]>)
    requires
        index::size4(s) <= usize::MAX,
    ensures
        match r {
            Some(o) => {
                &&& encoder::per_frequency_ok(s, layers@)
                &&& o == encoder::per_frequency_shape(s, layers@)
                &&& index::size4(o) <= usize::MAX
            },
            None => !encoder::per_frequency_ok(s, layers@),
        },
{
    proof {
        reveal(encoder::per_frequency_ok);
    }
    let n: usize = match mul2(s[0], s[2]) {
        Some(p) => p,
        None => {
            return None;
        },
    };
    let flat: [usize; 3] = [n, s[1], s[3]];
    let len: usize = size_of4(s);
    proof {
        assert(flat =~= encoder::folded_shape(s));
        assert(s[0] * s[2] * s[1] * s[3] == s[0] * s[1] * s[2] * s[3]) by (nonlinear_arith);
    }
    match check_dconv(len, flat, layers) {
        Some(d) => {
            let o: [usize; 4] = [s[0], s[1], s[2], d[2]];
            proof {
                dconv::lemma_dconv_shape(len as int, flat, layers@, layers@.len() as int);
                assert(s[0] * s[1] * s[2] * d[2] <= s[0] * s[1] * s[2] * s[3])
                    by (nonlinear_arith)
                    requires
                        d[2] <= s[3],
                        s[0] >= 0,
                        s[1] >= 0,
                        s[2] >= 0,
                ;
                assert(o =~= encoder::per_frequency_shape(s, layers@));
            }
            Some(o)
        },
        None => None,
    }
}

/// The shape that [`encoder::henc_layer_forward`] gives, where it is defined.
pub fn check_henc<T>(x_len: usize, s: [usize; 4], layer: &HEncLayer<T>) -> (r: Option<[usize; 4]>)
    ensures
        match r {
            Some(o) => {
                &&& encoder::henc_ok(x_len as int, s, layer)
                &&& o == encoder::henc_shape(s, layer)
                &&& index::size4(o) <= usize::MAX
            },
            None => !encoder::henc_ok(x_len as int, s, layer),
        },
{
    proof {
        reveal(encoder::henc_ok);
        reveal(encoder::henc_shape);
    }
    let h: [usize; 4] = match check_conv2d(
        x_len,
        s,
        &layer.conv,
        &layer.conv_bias.data,
        2,
        0,
        4,
        1,
    ) {
        Some(o) => o,
        None => {
            return None;
        },
    };
    let u: [usize; 4] = match check_per_frequency(h, &layer.dconv.layers) {
        Some(o) => o,
        None => {
            return None;
        },
    };
    let u_len: usize = size_of4(u);
    let w: [usize; 4] = match check_conv2d(
        u_len,
        u,
        &layer.rewrite,
        &layer.rewrite_bias.data,
        0,
        0,
        1,
        1,
    ) {
        Some(o) => o,
        None => {
            return None;
        },
    };
    if layer.rewrite.out_ch % 2 != 0 || layer.rewrite.out_ch / 2 != layer.conv.out_ch {
        return None;
    }
    let o: [usize; 4] = [w[0], w[1] / 2, w[2], w[3]];
    proof {
        assert(w[0] * (w[1] as int / 2) * w[2] * w[3] <= w[0] * w[1] * w[2] * w[3])
            by (nonlinear_arith)
            requires
                w[0] >= 0,
                w[1] >= 0,
                w[2] >= 0,
                w[3] >= 0,
        ;
    }
    Some(o)
}

/// Whether the embedding has an entry for each frequency and channel.
fn check_embedding<T>(s: [usize; 4], emb: &FreqEmb<T>) -> (r: bool)
    ensures
        r == encoder::embedding_covers(s, emb),
{
    if s[1] == 0 || s[2] == 0 {
        return true;
    }
    let len: usize = emb.data.len();
    match mul2(s[2] - 1, emb.dim) {
        Some(p) => match p.checked_add(s[1] - 1) {
            Some(q) => q < len,
            None => false,
        },
        None => false,
    }
}

/// The shape after all layers of the frequency encoder, where they are defined, with the
/// shape after each of them.
pub fn check_freq_chain<T>(x_len: usize, s: [usize; 4], layers: &Vec<HEncLayer<T>>, n: usize, emb: &FreqEmb<
    T,
>) -> (r: Option<Vec<[usize; 4]>>)
    ensures
        match r {
            Some(o) => {
                &&& encoder::freq_chain_ok(x_len as int, s, layers@, n as int, emb)
                &&& o@.len() == n
                &&& forall|i: int|
                    #![trigger o@[i]]
                    0 <= i < n ==> o@[i] == encoder::freq_chain_shape(s, layers@, i + 1)
                        && index::size4(o@[i]) <= usize::MAX
            },
            None => !encoder::freq_chain_ok(x_len as int, s, layers@, n as int, emb),
        },
{
    if n < 1 || n > layers.len() {
        proof {
            reveal(encoder::freq_chain_ok);
        }
        return None;
    }
    let mut shapes: Vec<[usize; 4]> = Vec::new();
    let mut shape: [usize; 4] = s;
    let mut len: usize = x_len;
    let mut i: usize = 0;
    while i < n
        invariant
            i <= n <= layers@.len(),
            shape == encoder::freq_chain_shape(s, layers@, i as int),
            i == 0 ==> len == x_len,
            i > 0 ==> len == index::size4(shape),
            shapes@.len() == i,
            forall|j: int|
                #![trigger shapes@[j]]
                0 <= j < i ==> shapes@[j] == encoder::freq_chain_shape(s, layers@, j + 1)
                    && index::size4(shapes@[j]) <= usize::MAX,
            forall|j: int|
                #![trigger layers@[j]]
                0 <= j < i ==> encoder::henc_ok(
                    if j == 0 {
                        x_len as int
                    } else {
                        index::size4(encoder::freq_chain_shape(s, layers@, j))
                    },
                    encoder::freq_chain_shape(s, layers@, j),
                    &layers@[j],
                ),
        decreases n - i,
    {
        let o: [usize; 4] = match check_henc(len, shape, &layers[i]) {
            Some(o) => o,
            None => {
                proof {
                    reveal(encoder::freq_chain_ok);
                    let l = layers@[i as int];
                }
                return None;
            },
        };
        shapes.push(o);
        shape = o;
        len = size_of4(o);
        i = i + 1;
    }
    proof {
        reveal(encoder::freq_chain_ok);
        assert(shapes@[0] == encoder::freq_chain_shape(s, layers@, 1));
    }
    if check_embedding(shapes[0], emb) {
        Some(shapes)
    } else {
        None
    }
}

/// The shape that [`encoder::tenc_layer_forward`] gives, where it is defined.
pub fn check_tenc<T>(x_len: usize, s: [usize; 3], layer: &TEncLayer<T>) -> (r: Option<[usize; 3]>)
    ensures
        match r {
            Some(o) => {
                &&& encoder::tenc_ok(x_len as int, s, layer)
                &&& o == encoder::tenc_shape(s, layer)
                &&& index::size3(o) <= usize::MAX
            },
            None => !encoder::tenc_ok(x_len as int, s, layer),
        },
{
    proof {
        reveal(encoder::tenc_ok);
        reveal(encoder::tenc_shape);
    }
    let over: usize = s[2] % 4;
    let fill: usize = if over == 0 {
        0
    } else {
        4 - over
    };
    let padded: usize = match s[2].checked_add(fill) {
        Some(p) => p,
        None => {
            return None;
        },
    };
    if !at_most3(s[0], s[1], s[2], x_len) || !at_most2(s[0], s[1], usize::MAX) || !at_most3(
        s[0],
        s[1],
        padded,
        usize::MAX,
    ) {
        return None;
    }
    let p: [usize; 3] = [s[0], s[1], padded];
    assert(p =~= encoder::tenc_padded_shape(s));
    let p_len: usize = size_of3(p);
    let h: [usize; 3] = match check_conv1d(
        p_len,
        p,
        &layer.conv,
        &layer.conv_bias.data,
        2,
        4,
        1,
    ) {
        Some(o) => o,
        None => {
            return None;
        },
    };
    let h_len: usize = size_of3(h);
    let d: [usize; 3] = match check_dconv(h_len, h, &layer.dconv.layers) {
        Some(o) => o,
        None => {
            return None;
        },
    };
    let d_len: usize = size_of3(d);
    let w: [usize; 3] = match check_conv1d(
        d_len,
        d,
        &layer.rewrite,
        &layer.rewrite_bias.data,
        0,
        1,
        1,
    ) {
        Some(o) => o,
        None => {
            return None;
        },
    };
    if layer.rewrite.out_ch % 2 != 0 || layer.rewrite.out_ch / 2 != layer.conv.out_ch {
        return None;
    }
    let o: [usize; 3] = [w[0], w[1] / 2, w[2]];
    proof {
        assert(w[0] * (w[1] as int / 2) * w[2] <= w[0] * w[1] * w[2]) by (nonlinear_arith)
            requires
                w[0] >= 0,
                w[1] >= 0,
                w[2] >= 0,
        ;
    }
    Some(o)
}

/// The shape after each layer of the time encoder, where they are defined.
pub fn check_time_chain<T>(x_len: usize, s: [usize; 3], layers: &Vec<TEncLayer<T>>, n: usize) -> (r: Option<
    Vec<[usize; 3]>,
>)
    ensures
        match r {
            Some(o) => {
                &&& forward::time_chain_ok(x_len as int, s, layers@, n as int)
                &&& o@.len() == n
                &&& forall|i: int|
                    #![trigger o@[i]]
                    0 <= i < n ==> o@[i] == forward::time_chain_shape(s, layers@, i + 1)
                        && index::size3(o@[i]) <= usize::MAX
            },
            None => !forward::time_chain_ok(x_len as int, s, layers@, n as int),
        },
{
    if n > layers.len() {
        proof {
            reveal(forward::time_chain_ok);
        }
        return None;
    }
    let mut shapes: Vec<[usize; 3]> = Vec::new();
    let mut shape: [usize; 3] = s;
    let mut len: usize = x_len;
    let mut i: usize = 0;
    while i < n
        invariant
            i <= n <= layers@.len(),
            shape == forward::time_chain_shape(s, layers@, i as int),
            i == 0 ==> len == x_len,
            i > 0 ==> len == index::size3(shape),
            shapes@.len() == i,
            forall|j: int|
                #![trigger shapes@[j]]
                0 <= j < i ==> shapes@[j] == forward::time_chain_shape(s, layers@, j + 1)
                    && index::size3(shapes@[j]) <= usize::MAX,
            forall|j: int|
                #![trigger layers@[j]]
                0 <= j < i ==> encoder::tenc_ok(
                    if j == 0 {
                        x_len as int
                    } else {
                        index::size3(forward::time_chain_shape(s, layers@, j))
                    },
                    forward::time_chain_shape(s, layers@, j),
                    &layers@[j],
                ),
        decreases n - i,
    {
        let o: [usize; 3] = match check_tenc(len, shape, &layers[i]) {
            Some(o) => o,
            None => {
                proof {
                    reveal(forward::time_chain_ok);
                    let l = layers@[i as int];
                }
                return None;
            },
        };
        shapes.push(o);
        shape = o;
        len = size_of3(o);
        i = i + 1;
    }
    proof {
        reveal(forward::time_chain_ok);
    }
    Some(shapes)
}

/// The smaller of two lengths.
fn smaller(m: usize, n: usize) -> (r: usize)
    ensures
        r == decoder::shorter(m as int, n as int),
{
    if m <= n {
        m
    } else {
        n
    }
}

/// The shape that [`decoder::hdec_layer_forward`] gives, where it is defined.
pub fn check_hdec<T>(
    x_len: usize,
    s: [usize; 4],
    skip_len: usize,
    skip_shape: [usize; 4],
    target: usize,
    layer: &HDecLayer<T>,
) -> (r: Option<[usize; 4]>)
    ensures
        match r {
            Some(o) => {
                &&& decoder::hdec_ok(x_len as int, s, skip_len as int, skip_shape, layer)
                &&& o == decoder::hdec_shape(s, target, layer)
                &&& index::size4(o) <= usize::MAX
            },
            None => !decoder::hdec_ok(x_len as int, s, skip_len as int, skip_shape, layer),
        },
{
    proof {
        reveal(decoder::hdec_ok);
        reveal(decoder::hdec_shape);
    }
    if s[1] != layer.rewrite.in_ch || layer.rewrite.out_ch % 2 != 0 || layer.rewrite.out_ch / 2
        != s[1] {
        return None;
    }
    if s[0] != skip_shape[0] || s[1] != skip_shape[1] || s[2] != skip_shape[2] || s[3]
        != skip_shape[3] {
        return None;
    }
    assert(s =~= skip_shape);
    let len: usize = smaller(x_len, skip_len);
    let w: [usize; 4] = match check_conv2d(
        len,
        s,
        &layer.rewrite,
        &layer.rewrite_bias.data,
        1,
        1,
        1,
        1,
    ) {
        Some(o) => o,
        None => {
            return None;
        },
    };
    let g: [usize; 4] = [w[0], s[1], w[2], w[3]];
    proof {
        assert(g =~= decoder::hdec_glu_shape(s, layer));
        assert(w[0] * s[1] * w[2] * w[3] <= w[0] * w[1] * w[2] * w[3]) by (nonlinear_arith)
            requires
                w[1] == 2 * s[1],
                w[0] >= 0,
                s[1] >= 0,
                w[2] >= 0,
                w[3] >= 0,
        ;
    }
    let d: [usize; 4] = match check_per_frequency(g, &layer.dconv.layers) {
        Some(o) => o,
        None => {
            return None;
        },
    };
    let d_len: usize = size_of4(d);
    let u: [usize; 4] = match check_conv_transpose2d(
        d_len,
        d,
        &layer.conv_tr,
        &layer.conv_tr_bias.data,
        2,
        0,
        4,
        1,
    ) {
        Some(o) => o,
        None => {
            return None;
        },
    };
    if !at_most2(u[0], u[1], usize::MAX) {
        return None;
    }
    let o: [usize; 4] = [u[0], u[1], smaller(u[2], target), u[3]];
    proof {
        assert(u[0] * u[1] * o[2] * u[3] <= u[0] * u[1] * u[2] * u[3]) by (nonlinear_arith)
            requires
                0 <= o[2] <= u[2],
                u[0] >= 0,
                u[1] >= 0,
                u[3] >= 0,
        ;
    }
    Some(o)
}

/// The shape that [`decoder::tdec_layer_forward`] gives, where it is defined.
pub fn check_tdec<T>(
    x_len: usize,
    s: [usize; 3],
    skip_len: usize,
    skip_shape: [usize; 3],
    target: usize,
    layer: &TDecLayer<T>,
) -> (r: Option<[usize; 3]>)
    ensures
        match r {
            Some(o) => {
                &&& decoder::tdec_ok(x_len as int, s, skip_len as int, skip_shape, layer)
                &&& o == decoder::tdec_shape(s, target, layer)
                &&& index::size3(o) <= usize::MAX
            },
            None => !decoder::tdec_ok(x_len as int, s, skip_len as int, skip_shape, layer),
        },
{
    proof {
        reveal(decoder::tdec_ok);
        reveal(decoder::tdec_shape);
    }
    if s[1] != layer.rewrite.in_ch || !at_most2(s[0], s[1], usize::MAX) || !at_most3(
        s[0],
        s[1],
        s[2],
        x_len,
    ) || !at_most3(s[0], s[1], skip_shape[2], skip_len) {
        return None;
    }
    let len: usize = size_of3(s);
    let w: [usize; 3] = match check_conv1d(
        len,
        s,
        &layer.rewrite,
        &layer.rewrite_bias.data,
        1,
        1,
        1,
    ) {
        Some(o) => o,
        None => {
            return None;
        },
    };
    if layer.rewrite.out_ch % 2 != 0 {
        return None;
    }
    let g: [usize; 3] = [w[0], w[1] / 2, w[2]];
    proof {
        assert(g =~= decoder::tdec_glu_shape(s, layer));
        assert(w[0] * (w[1] as int / 2) * w[2] <= w[0] * w[1] * w[2]) by (nonlinear_arith)
            requires
                w[0] >= 0,
                w[1] >= 0,
                w[2] >= 0,
        ;
    }
    let g_len: usize = size_of3(g);
    let d: [usize; 3] = match check_dconv(g_len, g, &layer.dconv.layers) {
        Some(o) => o,
        None => {
            return None;
        },
    };
    let d_len: usize = size_of3(d);
    let u: [usize; 3] = match check_conv_transpose1d(
        d_len,
        d,
        &layer.conv_tr,
        &layer.conv_tr_bias.data,
        2,
        4,
    ) {
        Some(o) => o,
        None => {
            return None;
        },
    };
    if !at_most2(u[0], u[1], usize::MAX) {
        return None;
    }
    let o: [usize; 3] = [u[0], u[1], smaller(u[2], target)];
    proof {
        assert(u[0] * u[1] * o[2] <= u[0] * u[1] * u[2]) by (nonlinear_arith)
            requires
                0 <= o[2] <= u[2],
                u[0] >= 0,
                u[1] >= 0,
        ;
    }
    Some(o)
}

/// Whether a linear layer on `rows` rows is defined.
fn check_linear<T>(
    rows: usize,
    x_len: usize,
    d_in: usize,
    w: &Weight2D<T>,
    bias_len: usize,
) -> (r: bool)
    ensures
        r == (d_in == w.cols && attention::linear_fits(
            x_len as int,
            rows as int,
            d_in as int,
            w.data@.len() as int,
            w.rows as int,
            bias_len as int,
        )),
{
    d_in == w.cols && at_most2(rows, d_in, x_len) && at_most2(d_in, w.rows, w.data.len()) && w.rows
        <= bias_len && at_most2(rows, w.rows, usize::MAX)
}

/// Whether [`attention::mha`] is defined.
pub fn check_mha<T>(
    q_len: usize,
    q_shape: [usize; 3],
    kv_len: usize,
    kv_shape: [usize; 3],
    attn: &MhaWeights<T>,
) -> (r: bool)
    ensures
        r == attention::mha_ok(q_len as int, q_shape, kv_len as int, kv_shape, attn),
{
    proof {
        reveal(attention::mha_ok);
    }
    let d: usize = attn.d_model;
    let w_len: usize = attn.in_proj_weight.len();
    d > 0 && attn.n_heads > 0 && d % attn.n_heads == 0 && q_shape[2] == d && kv_shape[2] == d
        && kv_shape[1] > 0 && q_shape[0] <= kv_shape[0] && at_most3(
        q_shape[0],
        q_shape[1],
        q_shape[2],
        q_len,
    ) && at_most3(kv_shape[0], kv_shape[1], kv_shape[2], kv_len) && at_most2(
        q_shape[1],
        kv_shape[1],
        usize::MAX,
    ) && at_most3(3, d, d, w_len) && at_most2(3, d, attn.in_proj_bias.len()) && at_most2(
        d,
        d,
        attn.out_proj_weight.len(),
    ) && d <= attn.out_proj_bias.len()
}

/// Whether the parameters of a layer normalization are there for `d` features.
fn check_layernorm<T>(ln: &LayerNorm1<T>, d: usize) -> (r: bool)
    ensures
        r == attention::layernorm_fits(ln, d),
{
    ln.dim == d && d <= ln.gamma.len() && d <= ln.beta.len()
}

/// Whether the second half of a transformer layer is defined.
fn check_ffn<T>(
    s: [usize; 3],
    ln: &LayerNorm1<T>,
    w1: &Weight2D<T>,
    b1: &Vec<T>,
    w2: &Weight2D<T>,
    b2: &Vec<T>,
    gamma: &LayerScale<T>,
    gn: &GroupNorm1<T>,
) -> (r: bool)
    requires
        index::size3(s) <= usize::MAX,
    ensures
        r == attention::ffn_ok(s, ln, w1, b1@, w2, b2@, gamma, gn),
{
    proof {
        reveal(attention::ffn_ok);
    }
    if s[1] == 0 || s[2] == 0 || !at_most2(s[1], s[2], usize::MAX) || !check_layernorm(ln, s[2]) {
        return false;
    }
    let len: usize = size_of3(s);
    let rows: usize = match mul2(s[0], s[1]) {
        Some(p) => p,
        None => {
            return false;
        },
    };
    if !check_linear(rows, len, s[2], w1, b1.len()) {
        return false;
    }
    let h: [usize; 3] = [s[0], s[1], w1.rows];
    assert(index::size3(h) <= usize::MAX);
    let h_len: usize = size_of3(h);
    assert(h =~= [s[0], s[1], w1.rows]);
    if !check_linear(rows, h_len, w1.rows, w2, b2.len()) {
        return false;
    }
    w2.rows == s[2] && s[2] <= gamma.scale.len() && s[2] <= gn.gamma.len() && s[2] <= gn.beta.len()
}

/// Whether [`attention::self_attn_layer_forward`] is defined.
pub fn check_self_attn<T>(s: [usize; 3], layer: &SelfAttnLayer<T>) -> (r: bool)
    requires
        index::size3(s) <= usize::MAX,
    ensures
        r == attention::self_attn_ok(s, layer),
{
    proof {
        reveal(attention::self_attn_ok);
    }
    let len: usize = size_of3(s);
    check_layernorm(&layer.norm1, s[2]) && check_mha(len, s, len, s, &layer.attn) && s[2]
        <= layer.gamma_1.scale.len() && check_ffn(
        s,
        &layer.norm2,
        &layer.linear1,
        &layer.linear1_bias,
        &layer.linear2,
        &layer.linear2_bias,
        &layer.gamma_2,
        &layer.norm_out,
    )
}

/// Whether [`attention::cross_attn_layer_forward`] is defined.
pub fn check_cross_attn<T>(
    q_shape: [usize; 3],
    c_shape: [usize; 3],
    layer: &CrossAttnLayer<T>,
) -> (r: bool)
    requires
        index::size3(q_shape) <= usize::MAX,
        index::size3(c_shape) <= usize::MAX,
    ensures
        r == attention::cross_attn_ok(q_shape, c_shape, layer),
{
    proof {
        reveal(attention::cross_attn_ok);
    }
    let q_len: usize = size_of3(q_shape);
    let c_len: usize = size_of3(c_shape);
    check_layernorm(&layer.norm1, q_shape[2]) && check_layernorm(&layer.norm2, c_shape[2])
        && check_mha(q_len, q_shape, c_len, c_shape, &layer.attn) && q_shape[2]
        <= layer.gamma_1.scale.len() && check_ffn(
        q_shape,
        &layer.norm3,
        &layer.linear1,
        &layer.linear1_bias,
        &layer.linear2,
        &layer.linear2_bias,
        &layer.gamma_2,
        &layer.norm_out,
    )
}

/// Whether one pair of transformer layers is defined.
pub fn check_layer_pair<T>(
    fs: [usize; 3],
    ts: [usize; 3],
    lf: &TransformerLayerWeights<T>,
    lt: &TransformerLayerWeights<T>,
) -> (r: bool)
    requires
        index::size3(fs) <= usize::MAX,
        index::size3(ts) <= usize::MAX,
    ensures
        r == transformer::layer_pair_ok(fs, ts, lf, lt),
{
    proof {
        reveal(transformer::layer_pair_ok);
    }
    if let (Some(sf), Some(st)) = (&lf.self_attn, &lt.self_attn) {
        return check_self_attn(fs, sf) && check_self_attn(ts, st);
    }
    if let (Some(cf), Some(ct)) = (&lf.cross_attn, &lt.cross_attn) {
        return check_cross_attn(fs, ts, cf) && check_cross_attn(ts, fs, ct);
    }
    false
}

/// Whether the transformer layers are defined.
pub fn check_layers<T>(fs: [usize; 3], ts: [usize; 3], ct: &CrossDomainTransformer<T>) -> (r: bool)
    requires
        index::size3(fs) <= usize::MAX,
        index::size3(ts) <= usize::MAX,
    ensures
        r == transformer::layers_ok(fs, ts, ct),
{
    if ct.layers.len() < T_LAYERS || ct.layers_t.len() < T_LAYERS {
        proof {
            reveal(transformer::layers_ok);
        }
        return false;
    }
    let mut i: usize = 0;
    while i < T_LAYERS
        invariant
            i <= T_LAYERS <= ct.layers@.len(),
            T_LAYERS <= ct.layers_t@.len(),
            index::size3(fs) <= usize::MAX,
            index::size3(ts) <= usize::MAX,
            forall|j: int|
                #![trigger ct.layers@[j]]
                0 <= j < i ==> transformer::layer_pair_ok(
                    fs,
                    ts,
                    &ct.layers@[j],
                    &ct.layers_t@[j],
                ),
        decreases T_LAYERS - i,
    {
        if !check_layer_pair(fs, ts, &ct.layers[i], &ct.layers_t[i]) {
            proof {
                reveal(transformer::layers_ok);
                let l = ct.layers@[i as int];
            }
            return false;
        }
        i = i + 1;
    }
    proof {
        reveal(transformer::layers_ok);
    }
    true
}

/// The shape after an optional map of the channels of a `[B, C, Fr, T]` tensor, where it is
/// defined.
pub fn check_resample4<T>(
    x_len: usize,
    s: [usize; 4],
    w: &Option<Conv1dWeight<T>>,
    b: &Option<Vec<T>>,
) -> (r: Option<[usize; 4]>)
    ensures
        match r {
            Some(o) => {
                &&& transformer::resample4_ok(x_len as int, s, w, b)
                &&& o == transformer::resampled_shape4(s, w, b)
                &&& index::size4(o) <= usize::MAX
            },
            None => !transformer::resample4_ok(x_len as int, s, w, b),
        },
{
    proof {
        reveal(transformer::resample4_ok);
        reveal(transformer::channel_map_ok);
    }
    let size: Option<usize> = index::product4(s[0], s[1], s[2], s[3]);
    match (w, b) {
        (Some(w), Some(b)) => {
            let len: usize = match size {
                Some(p) => p,
                None => {
                    return None;
                },
            };
            if w.k != 1 || len > x_len {
                return None;
            }
            let n: usize = match mul2(s[0], s[2]) {
                Some(p) => p,
                None => {
                    return None;
                },
            };
            let flat: [usize; 3] = [n, s[1], s[3]];
            assert(flat =~= encoder::folded_shape(s));
            match check_conv1d(len, flat, w, b, 0, 1, 1) {
                Some(y) => {
                    let o: [usize; 4] = [s[0], w.out_ch, s[2], s[3]];
                    proof {
                        assert(y[2] == s[3]);
                        assert(s[0] * w.out_ch * s[2] * s[3] == s[0] * s[2] * w.out_ch * s[3])
                            by (nonlinear_arith);
                    }
                    Some(o)
                },
                None => None,
            }
        },
        _ => {
            match size {
                Some(p) => {
                    if p == x_len {
                        Some(s)
                    } else {
                        None
                    }
                },
                None => None,
            }
        },
    }
}

/// The shape after an optional map of the channels of a `[B, C, T]` tensor, where it is
/// defined.
pub fn check_resample3<T>(
    x_len: usize,
    s: [usize; 3],
    w: &Option<Conv1dWeight<T>>,
    b: &Option<Vec<T>>,
) -> (r: Option<[usize; 3]>)
    ensures
        match r {
            Some(o) => {
                &&& transformer::resample3_ok(x_len as int, s, w, b)
                &&& o == transformer::resampled_shape3(s, w, b)
                &&& index::size3(o) <= usize::MAX
            },
            None => !transformer::resample3_ok(x_len as int, s, w, b),
        },
{
    proof {
        reveal(transformer::resample3_ok);
    }
    match (w, b) {
        (Some(w), Some(b)) => check_conv1d(x_len, s, w, b, 0, 1, 1),
        _ => {
            match index::product3(s[0], s[1], s[2]) {
                Some(p) => {
                    if p == x_len {
                        Some(s)
                    } else {
                        None
                    }
                },
                None => None,
            }
        },
    }
}

/// The shapes that [`transformer::cross_domain_transformer_forward`] gives, where it is
/// defined.
pub fn check_cross_domain<T>(
    freq_len: usize,
    fs: [usize; 4],
    time_len: usize,
    ts: [usize; 3],
    ct: &CrossDomainTransformer<T>,
) -> (r: Option<([usize; 4], [usize; 3])>)
    ensures
        match r {
            Some(o) => {
                &&& transformer::cross_domain_ok(freq_len as int, fs, time_len as int, ts, ct)
                &&& o.0 == transformer::freq_out_shape(fs, ct)
                &&& o.1 == transformer::time_out_shape(ts, ct)
                &&& index::size4(o.0) <= usize::MAX
                &&& index::size3(o.1) <= usize::MAX
            },
            None => !transformer::cross_domain_ok(freq_len as int, fs, time_len as int, ts, ct),
        },
{
    proof {
        reveal(transformer::cross_domain_ok);
    }
    let d: usize = ct.norm_in.dim;
    if d == 0 {
        return None;
    }
    let u: [usize; 4] = match check_resample4(
        freq_len,
        fs,
        &ct.channel_upsampler,
        &ct.channel_upsampler_bias,
    ) {
        Some(o) => o,
        None => {
            return None;
        },
    };
    let u_len: usize = size_of4(u);
    let v: [usize; 3] = match check_resample3(
        time_len,
        ts,
        &ct.channel_upsampler_t,
        &ct.channel_upsampler_t_bias,
    ) {
        Some(o) => o,
        None => {
            return None;
        },
    };
    let v_len: usize = size_of3(v);
    if !at_most3(d, fs[2], fs[3], u_len) || !at_most2(d, ts[2], v_len) || !at_most3(
        fs[3],
        fs[2],
        d,
        usize::MAX,
    ) || !at_most2(ts[2], d, usize::MAX) {
        return None;
    }
    let seq: usize = match mul2(fs[3], fs[2]) {
        Some(p) => p,
        None => {
            return None;
        },
    };
    if !check_layernorm(&ct.norm_in, d) || !check_layernorm(&ct.norm_in_t, d) {
        return None;
    }
    let f_seq: [usize; 3] = [1, seq, d];
    let t_seq: [usize; 3] = [1, ts[2], d];
    proof {
        assert(f_seq =~= transformer::freq_seq_shape(fs, d));
        assert(t_seq =~= transformer::time_seq_shape(ts, d));
        assert(1 * seq * d == fs[3] * fs[2] * d) by (nonlinear_arith)
            requires
                seq == fs[3] * fs[2],
        ;
        assert(1 * ts[2] * d == ts[2] * d) by (nonlinear_arith);
    }
    if !check_layers(f_seq, t_seq, ct) {
        return None;
    }
    let f_len: usize = match index::product3(d, fs[2], fs[3]) {
        Some(p) => p,
        None => {
            return None;
        },
    };
    let t_len: usize = match mul2(d, ts[2]) {
        Some(p) => p,
        None => {
            return None;
        },
    };
    let f_mid: [usize; 4] = [1, d, fs[2], fs[3]];
    let t_mid: [usize; 3] = [1, d, ts[2]];
    assert(f_mid =~= [1, d, fs[2], fs[3]]);
    assert(t_mid =~= [1, d, ts[2]]);
    let f_out: [usize; 4] = match check_resample4(
        f_len,
        f_mid,
        &ct.channel_downsampler,
        &ct.channel_downsampler_bias,
    ) {
        Some(o) => o,
        None => {
            return None;
        },
    };
    let t_out: [usize; 3] = match check_resample3(
        t_len,
        t_mid,
        &ct.channel_downsampler_t,
        &ct.channel_downsampler_t_bias,
    ) {
        Some(o) => o,
        None => {
            return None;
        },
    };
    Some((f_out, t_out))
}

/// The shape after the frequency decoder, where it is defined, for the shapes `skips` that
/// the encoder gives.
fn check_freq_decode<T>(
    s: [usize; 4],
    fs: Ghost<[usize; 4]>,
    enc: Ghost<Seq<HEncLayer<T>>>,
    skips: &Vec<[usize; 4]>,
    dec: &Vec<HDecLayer<T>>,
) -> (r: Option<[usize; 4]>)
    requires
        index::size4(s) <= usize::MAX,
        forall|i: int|
            #![trigger skips@[i]]
            0 <= i < skips@.len() ==> skips@[i] == encoder::freq_chain_shape(fs@, enc@, i + 1)
                && index::size4(skips@[i]) <= usize::MAX,
    ensures
        match r {
            Some(o) => {
                &&& forward::freq_decode_ok(s, fs@, enc@, dec@, skips@.len() as int)
                &&& o == forward::freq_decoded_shape(
                    s,
                    fs@,
                    enc@,
                    dec@,
                    skips@.len() as int,
                    skips@.len() as int,
                )
                &&& index::size4(o) <= usize::MAX
            },
            None => !forward::freq_decode_ok(s, fs@, enc@, dec@, skips@.len() as int),
        },
{
    let n: usize = skips.len();
    if n > dec.len() {
        proof {
            reveal(forward::freq_decode_ok);
        }
        return None;
    }
    let mut shape: [usize; 4] = s;
    let mut i: usize = 0;
    while i < n
        invariant
            i <= n <= dec@.len(),
            n == skips@.len(),
            forall|j: int|
                #![trigger skips@[j]]
                0 <= j < n ==> skips@[j] == encoder::freq_chain_shape(fs@, enc@, j + 1)
                    && index::size4(skips@[j]) <= usize::MAX,
            shape == forward::freq_decoded_shape(s, fs@, enc@, dec@, n as int, i as int),
            index::size4(shape) <= usize::MAX,
            forall|j: int|
                #![trigger dec@[j]]
                0 <= j < i ==> decoder::hdec_ok(
                    index::size4(forward::freq_decoded_shape(s, fs@, enc@, dec@, n as int, j)),
                    forward::freq_decoded_shape(s, fs@, enc@, dec@, n as int, j),
                    index::size4(encoder::freq_chain_shape(fs@, enc@, n - j)),
                    encoder::freq_chain_shape(fs@, enc@, n - j),
                    &dec@[j],
                ),
        decreases n - i,
    {
        let skip: [usize; 4] = skips[n - 1 - i];
        assert(skips@[n - 1 - i] == encoder::freq_chain_shape(fs@, enc@, n - i));
        let target: usize = if i + 1 < n {
            assert(skips@[n - 2 - i] == encoder::freq_chain_shape(fs@, enc@, n - 1 - i));
            skips[n - 2 - i][2]
        } else {
            N_FFT / 2
        };
        let x_len: usize = size_of4(shape);
        let skip_len: usize = size_of4(skip);
        match check_hdec(x_len, shape, skip_len, skip, target, &dec[i]) {
            Some(o) => {
                shape = o;
            },
            None => {
                proof {
                    reveal(forward::freq_decode_ok);
                    let l = dec@[i as int];
                }
                return None;
            },
        }
        i = i + 1;
    }
    proof {
        reveal(forward::freq_decode_ok);
    }
    Some(shape)
}

/// The shape after the time decoder, where it is defined, for the shapes `skips` that the
/// encoder gives.
fn check_time_decode<T>(
    s: [usize; 3],
    ts: [usize; 3],
    enc: Ghost<Seq<TEncLayer<T>>>,
    skips: &Vec<[usize; 3]>,
    dec: &Vec<TDecLayer<T>>,
) -> (r: Option<[usize; 3]>)
    requires
        index::size3(s) <= usize::MAX,
        forall|i: int|
            #![trigger skips@[i]]
            0 <= i < skips@.len() ==> skips@[i] == forward::time_chain_shape(ts, enc@, i + 1)
                && index::size3(skips@[i]) <= usize::MAX,
    ensures
        match r {
            Some(o) => {
                &&& forward::time_decode_ok(s, ts, enc@, dec@, skips@.len() as int)
                &&& o == forward::time_decoded_shape(
                    s,
                    ts,
                    enc@,
                    dec@,
                    skips@.len() as int,
                    skips@.len() as int,
                )
                &&& index::size3(o) <= usize::MAX
            },
            None => !forward::time_decode_ok(s, ts, enc@, dec@, skips@.len() as int),
        },
{
    let n: usize = skips.len();
    if n > dec.len() {
        proof {
            reveal(forward::time_decode_ok);
        }
        return None;
    }
    let mut shape: [usize; 3] = s;
    let mut i: usize = 0;
    while i < n
        invariant
            i <= n <= dec@.len(),
            n == skips@.len(),
            forall|j: int|
                #![trigger skips@[j]]
                0 <= j < n ==> skips@[j] == forward::time_chain_shape(ts, enc@, j + 1)
                    && index::size3(skips@[j]) <= usize::MAX,
            shape == forward::time_decoded_shape(s, ts, enc@, dec@, n as int, i as int),
            index::size3(shape) <= usize::MAX,
            forall|j: int|
                #![trigger dec@[j]]
                0 <= j < i ==> decoder::tdec_ok(
                    index::size3(forward::time_decoded_shape(s, ts, enc@, dec@, n as int, j)),
                    forward::time_decoded_shape(s, ts, enc@, dec@, n as int, j),
                    index::size3(forward::time_chain_shape(ts, enc@, n - j)),
                    forward::time_chain_shape(ts, enc@, n - j),
                    &dec@[j],
                ),
        decreases n - i,
    {
        let skip: [usize; 3] = skips[n - 1 - i];
        assert(skips@[n - 1 - i] == forward::time_chain_shape(ts, enc@, n - i));
        let target: usize = if i + 1 < n {
            assert(skips@[n - 2 - i] == forward::time_chain_shape(ts, enc@, n - 1 - i));
            skips[n - 2 - i][2]
        } else {
            ts[2]
        };
        let x_len: usize = size_of3(shape);
        let skip_len: usize = size_of3(skip);
        match check_tdec(x_len, shape, skip_len, skip, target, &dec[i]) {
            Some(o) => {
                shape = o;
            },
            None => {
                proof {
                    reveal(forward::time_decode_ok);
                    let l = dec@[i as int];
                }
                return None;
            },
        }
        i = i + 1;
    }
    proof {
        reveal(forward::time_decode_ok);
    }
    Some(shape)
}

/// The shapes that [`forward::htdemucs_forward`] gives, where it is defined.
pub fn check_forward_pass<T>(
    freq_len: usize,
    fs: [usize; 4],
    time_len: usize,
    ts: [usize; 3],
    m: &HTDemucs<T>,
) -> (r: Option<([usize; 4], [usize; 3])>)
    ensures
        match r {
            Some(o) => {
                &&& forward::forward_ok(freq_len as int, fs, time_len as int, ts, m)
                &&& o.0 == forward::forward_freq_shape(fs, m)
                &&& o.1 == forward::forward_time_shape(ts, m)
            },
            None => !forward::forward_ok(freq_len as int, fs, time_len as int, ts, m),
        },
{
    proof {
        reveal(forward::forward_ok);
    }
    let n: usize = m.encoders.len();
    let per_freq: usize = match index::product3(fs[1], fs[2], fs[3]) {
        Some(p) => p,
        None => {
            return None;
        },
    };
    let per_time: usize = match mul2(ts[1], ts[2]) {
        Some(p) => p,
        None => {
            return None;
        },
    };
    if !at_most2(fs[1], fs[2], usize::MAX) || !at_most2(fs[0], per_freq, freq_len) || !at_most2(
        ts[0],
        per_time,
        time_len,
    ) {
        return None;
    }
    let f_shapes: Vec<[usize; 4]> = match check_freq_chain(
        freq_len,
        fs,
        &m.encoders,
        n,
        &m.freq_emb,
    ) {
        Some(v) => v,
        None => {
            return None;
        },
    };
    let t_shapes: Vec<[usize; 3]> = match check_time_chain(time_len, ts, &m.tencoders, n) {
        Some(v) => v,
        None => {
            return None;
        },
    };
    proof {
        assert(n >= 1) by {
            reveal(encoder::freq_chain_ok);
        }
        assert(f_shapes@[n - 1] == encoder::freq_chain_shape(fs, m.encoders@, n as int));
        assert(t_shapes@[n - 1] == forward::time_chain_shape(ts, m.tencoders@, n as int));
    }
    let f: [usize; 4] = f_shapes[n - 1];
    let t: [usize; 3] = t_shapes[n - 1];
    let f_len: usize = size_of4(f);
    let t_len: usize = size_of3(t);
    let mid: ([usize; 4], [usize; 3]) = match check_cross_domain(
        f_len,
        f,
        t_len,
        t,
        &m.crosstransformer,
    ) {
        Some(o) => o,
        None => {
            return None;
        },
    };
    let f_out: [usize; 4] = match check_freq_decode(
        mid.0,
        Ghost(fs),
        Ghost(m.encoders@),
        &f_shapes,
        &m.decoders,
    ) {
        Some(o) => o,
        None => {
            return None;
        },
    };
    let t_out: [usize; 3] = match check_time_decode(
        mid.1,
        ts,
        Ghost(m.tencoders@),
        &t_shapes,
        &m.tdecoders,
    ) {
        Some(o) => o,
        None => {
            return None;
        },
    };
    if f_out[0] == 0 || f_out[0] > fs[0] || t_out[0] == 0 || t_out[0] > ts[0] {
        return None;
    }
    Some((f_out, t_out))
}

} // verus!
