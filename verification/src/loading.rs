//! Building the network from stored weights.
//!
//! Each part has a function that loads it, a predicate that says what was loaded, and a
//! function that gives the text of the error, if there is one.
use vstd::prelude::*;
use crate::arith;
use crate::arith::Arith;
use crate::error::DemucsError;
use crate::index;
use crate::model::Bias;
use crate::model::Conv1dWeight;
use crate::model::Conv2dWeight;
use crate::model::CrossAttnLayer;
use crate::model::CrossDomainTransformer;
use crate::model::DConv;
use crate::model::DConvLayer;
use crate::model::FreqEmb;
use crate::model::FreqEncoder;
use crate::model::GroupNorm1;
use crate::model::HDecLayer;
use crate::model::HEncLayer;
use crate::model::HTDemucs;
use crate::model::LayerNorm1;
use crate::model::LayerScale;
use crate::model::MhaWeights;
use crate::model::SelfAttnLayer;
use crate::model::TDecLayer;
use crate::model::TEncLayer;
use crate::model::TransformerLayerWeights;
use crate::model::Weight2D;
use crate::ops_cpu::layout;
use crate::raw_tensor;
use crate::raw_tensor::RawTensor;
use crate::raw_tensor::RawTensorView;
use crate::text;
use crate::weight_names;
use crate::weights;
use crate::weights::WeightStore;
use crate::AUDIO_CHANNELS;
use crate::CHANNELS;
use crate::DCONV_DEPTH;
use crate::DEPTH;
use crate::GROWTH;
use crate::T_HEADS;
use crate::T_LAYERS;

verus! {

/// The contents of a store.
pub type Weights = Map<(Seq<char>, Seq<char>), RawTensorView>;

/// The first of two errors.
pub open spec fn or(e1: Option<Seq<char>>, e2: Option<Seq<char>>) -> Option<Seq<char>> {
    if e1 is Some {
        e1
    } else {
        e2
    }
}

/// `e` is the error with the text `t`.
pub open spec fn is_error(e: DemucsError, t: Option<Seq<char>>) -> bool {
    e is Weight && t == Some(e->Weight_0@)
}

/// The error for a tensor that is not there.
pub open spec fn missing(m: Weights, sig: Seq<char>, key: Seq<char>) -> Option<Seq<char>> {
    if m.contains_key((sig, key)) {
        None
    } else {
        Some(weights::missing_text(sig, key))
    }
}

/// Takes a tensor.
fn take(store: &WeightStore, sig: &str, key: &str) -> (r: Result<RawTensor, DemucsError>)
    ensures
        match r {
            Ok(t) => missing(store@, sig@, key@) is None && t@ == store@[(sig@, key@)],
            Err(e) => is_error(e, missing(store@, sig@, key@)),
        },
{
    store.take(sig, key)
}

/// Fails with a text.
fn fail(msg: String) -> (e: DemucsError)
    ensures
        is_error(e, Some(msg@)),
{
    DemucsError::Weight(msg)
}

/// The error in loading a 2D convolution kernel.
#[verifier::opaque]
pub open spec fn conv2d_error(m: Weights, sig: Seq<char>, p: Seq<char>) -> Option<Seq<char>> {
    let key = p + ".weight"@;
    let shape = m[(sig, key)].shape;
    or(
        missing(m, sig, key),
        if shape.len() == 4 {
            None
        } else {
            Some("expected 4D conv weight, got "@ + text::list_text(shape))
        },
    )
}

/// `w` is a 2D convolution kernel stored under `p`.
#[verifier::opaque]
pub open spec fn is_conv2d<A: Arith>(
    a: &A,
    m: Weights,
    sig: Seq<char>,
    p: Seq<char>,
    w: Conv2dWeight<A::T>,
) -> bool {
    let t = m[(sig, p + ".weight"@)];
    &&& w.out_ch == t.shape[0] && w.in_ch == t.shape[1] && w.kh == t.shape[2] && w.kw == t.shape[3]
    &&& raw_tensor::are_elements(a, t, w.data@)
}

/// Loads a 2D convolution kernel.
fn take_conv2d<A: Arith>(a: &A, store: &WeightStore, sig: &str, prefix: &str) -> (r: Result<
    Conv2dWeight<A::T>,
    DemucsError,
>)
    ensures
        match r {
            Ok(w) => conv2d_error(store@, sig@, prefix@) is None && is_conv2d(
                a,
                store@,
                sig@,
                prefix@,
                w,
            ),
            Err(e) => is_error(e, conv2d_error(store@, sig@, prefix@)),
        },
{
    proof {
        reveal(conv2d_error);
        reveal(is_conv2d);
    }
    let key: String = text::join(prefix, ".weight");
    let t: RawTensor = take(store, sig, key.as_str())?;
    if t.shape.len() != 4 {
        let shape: String = text::list(&t.shape);
        return Err(fail(text::join("expected 4D conv weight, got ", shape.as_str())));
    }
    let data: Vec<A::T> = t.to_f32_vec(a);
    Ok(Conv2dWeight { data, out_ch: t.shape[0], in_ch: t.shape[1], kh: t.shape[2], kw: t.shape[3] })
}

/// The error in loading a 1D convolution kernel.
#[verifier::opaque]
pub open spec fn conv1d_error(m: Weights, sig: Seq<char>, p: Seq<char>) -> Option<Seq<char>> {
    let key = p + ".weight"@;
    let shape = m[(sig, key)].shape;
    or(
        missing(m, sig, key),
        if shape.len() == 3 {
            None
        } else {
            Some("expected 3D conv weight, got "@ + text::list_text(shape))
        },
    )
}

/// `w` is a 1D convolution kernel stored under `p`.
#[verifier::opaque]
pub open spec fn is_conv1d<A: Arith>(
    a: &A,
    m: Weights,
    sig: Seq<char>,
    p: Seq<char>,
    w: Conv1dWeight<A::T>,
) -> bool {
    let t = m[(sig, p + ".weight"@)];
    &&& w.out_ch == t.shape[0] && w.in_ch == t.shape[1] && w.k == t.shape[2]
    &&& raw_tensor::are_elements(a, t, w.data@)
}

/// Loads a 1D convolution kernel.
fn take_conv1d<A: Arith>(a: &A, store: &WeightStore, sig: &str, prefix: &str) -> (r: Result<
    Conv1dWeight<A::T>,
    DemucsError,
>)
    ensures
        match r {
            Ok(w) => conv1d_error(store@, sig@, prefix@) is None && is_conv1d(
                a,
                store@,
                sig@,
                prefix@,
                w,
            ),
            Err(e) => is_error(e, conv1d_error(store@, sig@, prefix@)),
        },
{
    proof {
        reveal(conv1d_error);
        reveal(is_conv1d);
    }
    let key: String = text::join(prefix, ".weight");
    let t: RawTensor = take(store, sig, key.as_str())?;
    if t.shape.len() != 3 {
        let shape: String = text::list(&t.shape);
        return Err(fail(text::join("expected 3D conv weight, got ", shape.as_str())));
    }
    let data: Vec<A::T> = t.to_f32_vec(a);
    Ok(Conv1dWeight { data, out_ch: t.shape[0], in_ch: t.shape[1], k: t.shape[2] })
}

/// The error in loading the matrix of a linear layer.
#[verifier::opaque]
pub open spec fn weight2d_error(m: Weights, sig: Seq<char>, p: Seq<char>) -> Option<Seq<char>> {
    let key = p + ".weight"@;
    let shape = m[(sig, key)].shape;
    or(
        missing(m, sig, key),
        if shape.len() == 2 {
            None
        } else {
            Some("expected 2D weight, got "@ + text::list_text(shape))
        },
    )
}

/// `w` is the matrix of a linear layer stored under `p`.
#[verifier::opaque]
pub open spec fn is_weight2d<A: Arith>(
    a: &A,
    m: Weights,
    sig: Seq<char>,
    p: Seq<char>,
    w: Weight2D<A::T>,
) -> bool {
    let t = m[(sig, p + ".weight"@)];
    &&& w.rows == t.shape[0] && w.cols == t.shape[1]
    &&& raw_tensor::are_elements(a, t, w.data@)
}

/// Loads the matrix of a linear layer.
fn take_weight2d<A: Arith>(a: &A, store: &WeightStore, sig: &str, prefix: &str) -> (r: Result<
    Weight2D<A::T>,
    DemucsError,
>)
    ensures
        match r {
            Ok(w) => weight2d_error(store@, sig@, prefix@) is None && is_weight2d(
                a,
                store@,
                sig@,
                prefix@,
                w,
            ),
            Err(e) => is_error(e, weight2d_error(store@, sig@, prefix@)),
        },
{
    proof {
        reveal(weight2d_error);
        reveal(is_weight2d);
    }
    let key: String = text::join(prefix, ".weight");
    let t: RawTensor = take(store, sig, key.as_str())?;
    if t.shape.len() != 2 {
        let shape: String = text::list(&t.shape);
        return Err(fail(text::join("expected 2D weight, got ", shape.as_str())));
    }
    let data: Vec<A::T> = t.to_f32_vec(a);
    Ok(Weight2D { data, rows: t.shape[0], cols: t.shape[1] })
}

/// The error in loading the kernel of a transposed 2D convolution.
#[verifier::opaque]
pub open spec fn conv_transpose2d_error(
    m: Weights,
    sig: Seq<char>,
    p: Seq<char>,
) -> Option<Seq<char>> {
    let key = p + ".weight"@;
    let t = m[(sig, key)];
    let shape = t.shape;
    or(
        missing(m, sig, key),
        if shape.len() != 4 {
            Some("expected 4D conv_transpose weight, got "@ + text::list_text(shape))
        } else if raw_tensor::element_count(t) < shape[0] * shape[1] * shape[2] * shape[3] {
            Some("too few elements for conv_transpose weight "@ + text::list_text(shape))
        } else {
            None
        },
    )
}

/// `w` is the kernel of a transposed 2D convolution stored under `p` as
/// `[in_ch, out_ch, kh, kw]`, reordered to `[in_ch, kh, kw, out_ch]`.
#[verifier::opaque]
pub open spec fn is_conv_transpose2d<A: Arith>(
    a: &A,
    m: Weights,
    sig: Seq<char>,
    p: Seq<char>,
    w: Conv2dWeight<A::T>,
) -> bool {
    let t = m[(sig, p + ".weight"@)];
    &&& w.in_ch == t.shape[0] && w.out_ch == t.shape[1] && w.kh == t.shape[2] && w.kw == t.shape[3]
    &&& exists|d: Seq<A::T>| #[trigger]
        raw_tensor::are_elements(a, t, d) && w.data@ == layout::swapped(
            d,
            t.shape[0] as int,
            t.shape[1] as int,
            t.shape[2] * t.shape[3],
            1,
        )
}

/// Loads the kernel of a transposed 2D convolution.
fn take_conv_transpose2d<A: Arith>(a: &A, store: &WeightStore, sig: &str, prefix: &str) -> (r: Result<
    Conv2dWeight<A::T>,
    DemucsError,
>)
    ensures
        match r {
            Ok(w) => conv_transpose2d_error(store@, sig@, prefix@) is None && is_conv_transpose2d(
                a,
                store@,
                sig@,
                prefix@,
                w,
            ),
            Err(e) => is_error(e, conv_transpose2d_error(store@, sig@, prefix@)),
        },
{
    proof {
        reveal(conv_transpose2d_error);
        reveal(is_conv_transpose2d);
    }
    let key: String = text::join(prefix, ".weight");
    let t: RawTensor = take(store, sig, key.as_str())?;
    if t.shape.len() != 4 {
        let shape: String = text::list(&t.shape);
        return Err(fail(text::join("expected 4D conv_transpose weight, got ", shape.as_str())));
    }
    let data: Vec<A::T> = t.to_f32_vec(a);
    let len: usize = data.len();
    let (i, o, kh, kw): (usize, usize, usize, usize) = (
        t.shape[0],
        t.shape[1],
        t.shape[2],
        t.shape[3],
    );
    let need: Option<usize> = index::product4(i, o, kh, kw);
    let enough: bool = match need {
        Some(n) => n <= len,
        None => false,
    };
    if !enough {
        let shape: String = text::list(&t.shape);
        return Err(
            fail(text::join("too few elements for conv_transpose weight ", shape.as_str())),
        );
    }
    proof {
        assert(i * o * (kh * kw) * 1 == i * o * kh * kw) by (nonlinear_arith);
        if i > 0 && o > 0 {
            assert(kh * kw <= i * o * kh * kw) by (nonlinear_arith)
                requires
                    i >= 1,
                    o >= 1,
                    kh >= 0,
                    kw >= 0,
            ;
        }
    }
    let taps: usize = match kh.checked_mul(kw) {
        Some(n) => n,
        None => 0,
    };
    let reordered: Vec<A::T> = if i == 0 || o == 0 {
        let none: Vec<A::T> = Vec::new();
        assert(i * (kh * kw) * o * 1 == 0) by (nonlinear_arith)
            requires
                i == 0 || o == 0,
        ;
        assert(none@ =~= layout::swapped(data@, i as int, o as int, kh * kw, 1));
        none
    } else {
        assert(taps == kh * kw);
        layout::swap_middle(&data, i, o, taps, 1)
    };
    proof {
        assert(raw_tensor::are_elements(a, t@, data@));
    }
    Ok(
        Conv2dWeight {
            data: reordered,
            in_ch: t.shape[0],
            out_ch: t.shape[1],
            kh: t.shape[2],
            kw: t.shape[3],
        }
    )
}

/// The error in loading the kernel of a transposed 1D convolution.
#[verifier::opaque]
pub open spec fn conv_transpose1d_error(
    m: Weights,
    sig: Seq<char>,
    p: Seq<char>,
) -> Option<Seq<char>> {
    let key = p + ".weight"@;
    let t = m[(sig, key)];
    let shape = t.shape;
    or(
        missing(m, sig, key),
        if shape.len() != 3 {
            Some("expected 3D conv_transpose weight, got "@ + text::list_text(shape))
        } else if raw_tensor::element_count(t) < shape[0] * shape[1] * shape[2] {
            Some("too few elements for conv_transpose weight "@ + text::list_text(shape))
        } else {
            None
        },
    )
}

/// `w` is the kernel of a transposed 1D convolution stored under `p` as
/// `[in_ch, out_ch, k]`, reordered to `[in_ch, k, out_ch]`.
#[verifier::opaque]
pub open spec fn is_conv_transpose1d<A: Arith>(
    a: &A,
    m: Weights,
    sig: Seq<char>,
    p: Seq<char>,
    w: Conv1dWeight<A::T>,
) -> bool {
    let t = m[(sig, p + ".weight"@)];
    &&& w.in_ch == t.shape[0] && w.out_ch == t.shape[1] && w.k == t.shape[2]
    &&& exists|d: Seq<A::T>| #[trigger]
        raw_tensor::are_elements(a, t, d) && w.data@ == layout::swapped(
            d,
            t.shape[0] as int,
            t.shape[1] as int,
            t.shape[2] as int,
            1,
        )
}

/// Loads the kernel of a transposed 1D convolution.
fn take_conv_transpose1d<A: Arith>(a: &A, store: &WeightStore, sig: &str, prefix: &str) -> (r: Result<
    Conv1dWeight<A::T>,
    DemucsError,
>)
    ensures
        match r {
            Ok(w) => conv_transpose1d_error(store@, sig@, prefix@) is None && is_conv_transpose1d(
                a,
                store@,
                sig@,
                prefix@,
                w,
            ),
            Err(e) => is_error(e, conv_transpose1d_error(store@, sig@, prefix@)),
        },
{
    proof {
        reveal(conv_transpose1d_error);
        reveal(is_conv_transpose1d);
    }
    let key: String = text::join(prefix, ".weight");
    let t: RawTensor = take(store, sig, key.as_str())?;
    if t.shape.len() != 3 {
        let shape: String = text::list(&t.shape);
        return Err(fail(text::join("expected 3D conv_transpose weight, got ", shape.as_str())));
    }
    let data: Vec<A::T> = t.to_f32_vec(a);
    let len: usize = data.len();
    let (i, o, k): (usize, usize, usize) = (t.shape[0], t.shape[1], t.shape[2]);
    let need: Option<usize> = index::product3(i, o, k);
    let enough: bool = match need {
        Some(n) => n <= len,
        None => false,
    };
    if !enough {
        let shape: String = text::list(&t.shape);
        return Err(
            fail(text::join("too few elements for conv_transpose weight ", shape.as_str())),
        );
    }
    let reordered: Vec<A::T> = layout::swap_middle(&data, i, o, k, 1);
    Ok(Conv1dWeight { data: reordered, in_ch: t.shape[0], out_ch: t.shape[1], k: t.shape[2] })
}

/// `v` are the elements of the tensor `key`.
#[verifier::opaque]
pub open spec fn is_vector<A: Arith>(
    a: &A,
    m: Weights,
    sig: Seq<char>,
    key: Seq<char>,
    v: Seq<A::T>,
) -> bool {
    raw_tensor::are_elements(a, m[(sig, key)], v)
}

/// Loads the elements of a tensor.
fn take_vector<A: Arith>(
    a: &A,
    store: &WeightStore,
    sig: &str,
    key: &str,
) -> (r: Result<Vec<A::T>, DemucsError>)
    ensures
        match r {
            Ok(v) => {
                &&& missing(store@, sig@, key@) is None
                &&& is_vector(a, store@, sig@, key@, v@)
                &&& v@.len() == raw_tensor::element_count(store@[(sig@, key@)])
            },
            Err(e) => is_error(e, missing(store@, sig@, key@)),
        },
{
    proof {
        reveal(is_vector);
    }
    let t: RawTensor = take(store, sig, key)?;
    Ok(t.to_f32_vec(a))
}

/// The error in loading a bias.
#[verifier::opaque]
pub open spec fn bias_error(m: Weights, sig: Seq<char>, p: Seq<char>) -> Option<Seq<char>> {
    missing(m, sig, p + ".bias"@)
}

/// `x` is a bias stored under `p`.
#[verifier::opaque]
pub open spec fn is_bias<A: Arith>(
    a: &A,
    m: Weights,
    sig: Seq<char>,
    p: Seq<char>,
    x: Bias<A::T>,
) -> bool {
    &&& is_vector(a, m, sig, p + ".bias"@, x.data@)
    &&& x.len == x.data@.len()
}

/// Loads a bias.
fn take_bias<A: Arith>(a: &A, store: &WeightStore, sig: &str, prefix: &str) -> (r: Result<
    Bias<A::T>,
    DemucsError,
>)
    ensures
        match r {
            Ok(x) => bias_error(store@, sig@, prefix@) is None && is_bias(
                a,
                store@,
                sig@,
                prefix@,
                x,
            ),
            Err(e) => is_error(e, bias_error(store@, sig@, prefix@)),
        },
{
    proof {
        reveal(bias_error);
        reveal(is_bias);
    }
    let key: String = text::join(prefix, ".bias");
    let data = take_vector(a, store, sig, key.as_str())?;
    let len: usize = data.len();
    Ok(Bias { data, len })
}

/// The error in loading the parameters of a group normalization.
#[verifier::opaque]
pub open spec fn groupnorm_error(m: Weights, sig: Seq<char>, p: Seq<char>) -> Option<Seq<char>> {
    or(
        missing(m, sig, p + ".weight"@),
        missing(m, sig, p + ".bias"@),
    )
}

/// `x` is the parameters of a group normalization stored under `p`.
#[verifier::opaque]
pub open spec fn is_groupnorm<A: Arith>(
    a: &A,
    m: Weights,
    sig: Seq<char>,
    p: Seq<char>,
    x: GroupNorm1<A::T>,
) -> bool {
    &&& is_vector(a, m, sig, p + ".weight"@, x.gamma@)
    &&& is_vector(a, m, sig, p + ".bias"@, x.beta@)
    &&& x.num_channels == x.gamma@.len()
}

/// Loads the parameters of a group normalization.
fn take_groupnorm<A: Arith>(a: &A, store: &WeightStore, sig: &str, prefix: &str) -> (r: Result<
    GroupNorm1<A::T>,
    DemucsError,
>)
    ensures
        match r {
            Ok(x) => groupnorm_error(store@, sig@, prefix@) is None && is_groupnorm(
                a,
                store@,
                sig@,
                prefix@,
                x,
            ),
            Err(e) => is_error(e, groupnorm_error(store@, sig@, prefix@)),
        },
{
    proof {
        reveal(groupnorm_error);
        reveal(is_groupnorm);
    }
    let key: String = text::join(prefix, ".weight");
    let gamma = take_vector(a, store, sig, key.as_str())?;
    let key: String = text::join(prefix, ".bias");
    let beta = take_vector(a, store, sig, key.as_str())?;
    let num_channels: usize = gamma.len();
    Ok(GroupNorm1 { gamma, beta, num_channels })
}

/// The error in loading a scale.
#[verifier::opaque]
pub open spec fn layer_scale_error(m: Weights, sig: Seq<char>, p: Seq<char>) -> Option<Seq<char>> {
    missing(m, sig, p + ".scale"@)
}

/// `x` is a scale stored under `p`.
#[verifier::opaque]
pub open spec fn is_layer_scale<A: Arith>(
    a: &A,
    m: Weights,
    sig: Seq<char>,
    p: Seq<char>,
    x: LayerScale<A::T>,
) -> bool {
    &&& is_vector(a, m, sig, p + ".scale"@, x.scale@)
}

/// Loads a scale.
fn take_layer_scale<A: Arith>(a: &A, store: &WeightStore, sig: &str, prefix: &str) -> (r: Result<
    LayerScale<A::T>,
    DemucsError,
>)
    ensures
        match r {
            Ok(x) => layer_scale_error(store@, sig@, prefix@) is None && is_layer_scale(
                a,
                store@,
                sig@,
                prefix@,
                x,
            ),
            Err(e) => is_error(e, layer_scale_error(store@, sig@, prefix@)),
        },
{
    proof {
        reveal(layer_scale_error);
        reveal(is_layer_scale);
    }
    let key: String = text::join(prefix, ".scale");
    let scale = take_vector(a, store, sig, key.as_str())?;
    Ok(LayerScale { scale })
}

/// The error in loading the parameters of a group normalization over `expected` channels.
#[verifier::opaque]
pub open spec fn group_norm1_error(
    m: Weights,
    sig: Seq<char>,
    p: Seq<char>,
    expected: usize,
) -> Option<
    Seq<char>,
> {
    let n = raw_tensor::element_count(m[(sig, p + ".weight"@)]);
    or(
        groupnorm_error(m, sig, p),
        if n == expected {
            None
        } else {
            Some(
                p + ".num_channels="@ + text::decimal_text(n as nat) + " but expected "@
                    + text::decimal_text(expected as nat),
            )
        },
    )
}

/// Loads the parameters of a group normalization over `expected` channels.
fn take_group_norm1<A: Arith>(
    a: &A,
    store: &WeightStore,
    sig: &str,
    prefix: &str,
    expected: usize,
) -> (r: Result<GroupNorm1<A::T>, DemucsError>)
    ensures
        match r {
            Ok(x) => {
                &&& group_norm1_error(store@, sig@, prefix@, expected) is None
                &&& is_groupnorm(a, store@, sig@, prefix@, x)
                &&& x.gamma@.len() == expected
            },
            Err(e) => is_error(e, group_norm1_error(store@, sig@, prefix@, expected)),
        },
{
    proof {
        reveal(group_norm1_error);
        reveal(is_groupnorm);
        reveal(is_vector);
        reveal(raw_tensor::are_elements);
    }
    let gn: GroupNorm1<A::T> = take_groupnorm(a, store, sig, prefix)?;
    if gn.num_channels != expected {
        let n: String = text::decimal(gn.num_channels);
        let head: String = text::join3(prefix, ".num_channels=", n.as_str());
        let want: String = text::decimal(expected);
        return Err(fail(text::join3(head.as_str(), " but expected ", want.as_str())));
    }
    Ok(gn)
}

/// The error in loading the parameters of a layer normalization.
#[verifier::opaque]
pub open spec fn layernorm_error(m: Weights, sig: Seq<char>, p: Seq<char>) -> Option<Seq<char>> {
    let dim = raw_tensor::element_count(m[(sig, p + ".weight"@)]);
    let n = raw_tensor::element_count(m[(sig, p + ".bias"@)]);
    or(
        missing(m, sig, p + ".weight"@),
        or(
            missing(m, sig, p + ".bias"@),
            if n == dim {
                None
            } else {
                Some(
                    "layernorm dim mismatch ("@ + text::decimal_text(n as nat) + " vs "@
                        + text::decimal_text(dim as nat) + ")"@,
                )
            },
        ),
    )
}

/// `x` are the parameters of a layer normalization stored under `p`.
#[verifier::opaque]
pub open spec fn is_layernorm<A: Arith>(
    a: &A,
    m: Weights,
    sig: Seq<char>,
    p: Seq<char>,
    x: LayerNorm1<A::T>,
) -> bool {
    &&& is_vector(a, m, sig, p + ".weight"@, x.gamma@)
    &&& is_vector(a, m, sig, p + ".bias"@, x.beta@)
    &&& x.dim == x.gamma@.len()
    &&& x.dim == x.beta@.len()
}

/// Loads the parameters of a layer normalization.
fn take_layernorm<A: Arith>(a: &A, store: &WeightStore, sig: &str, prefix: &str) -> (r: Result<
    LayerNorm1<A::T>,
    DemucsError,
>)
    ensures
        match r {
            Ok(x) => layernorm_error(store@, sig@, prefix@) is None && is_layernorm(
                a,
                store@,
                sig@,
                prefix@,
                x,
            ),
            Err(e) => is_error(e, layernorm_error(store@, sig@, prefix@)),
        },
{
    proof {
        reveal(layernorm_error);
        reveal(is_layernorm);
    }
    let w_key: String = text::join(prefix, ".weight");
    let gamma: Vec<A::T> = take_vector(a, store, sig, w_key.as_str())?;
    let b_key: String = text::join(prefix, ".bias");
    let beta: Vec<A::T> = take_vector(a, store, sig, b_key.as_str())?;
    let dim: usize = gamma.len();
    if beta.len() != dim {
        let n: String = text::decimal(beta.len());
        let head: String = text::join3("layernorm dim mismatch (", n.as_str(), " vs ");
        let d: String = text::decimal(dim);
        return Err(fail(text::join3(head.as_str(), d.as_str(), ")")));
    }
    Ok(LayerNorm1 { gamma, beta, dim })
}

/// The error in loading one residual layer.
#[verifier::opaque]
pub open spec fn dconv_layer_error(m: Weights, sig: Seq<char>, p: Seq<char>) -> Option<Seq<char>> {
    or(
        conv1d_error(m, sig, p + ".0"@),
        or(
        bias_error(m, sig, p + ".0"@),
        or(
        groupnorm_error(m, sig, p + ".1"@),
        or(
        conv1d_error(m, sig, p + ".3"@),
        or(
        bias_error(m, sig, p + ".3"@),
        or(
        groupnorm_error(m, sig, p + ".4"@),
        layer_scale_error(m, sig, p + ".6"@),
    ),
    ),
    ),
    ),
    ),
    )
}

/// `x` is one residual layer stored under `p`.
#[verifier::opaque]
pub open spec fn is_dconv_layer<A: Arith>(
    a: &A,
    m: Weights,
    sig: Seq<char>,
    p: Seq<char>,
    x: DConvLayer<A::T>,
) -> bool {
    &&& is_conv1d(a, m, sig, p + ".0"@, x.conv1)
    &&& is_bias(a, m, sig, p + ".0"@, x.conv1_bias)
    &&& is_groupnorm(a, m, sig, p + ".1"@, x.norm1)
    &&& is_conv1d(a, m, sig, p + ".3"@, x.conv2)
    &&& is_bias(a, m, sig, p + ".3"@, x.conv2_bias)
    &&& is_groupnorm(a, m, sig, p + ".4"@, x.norm2)
    &&& is_layer_scale(a, m, sig, p + ".6"@, x.scale)
}

/// Loads one residual layer.
fn take_dconv_layer<A: Arith>(a: &A, store: &WeightStore, sig: &str, prefix: &str) -> (r: Result<
    DConvLayer<A::T>,
    DemucsError,
>)
    ensures
        match r {
            Ok(x) => dconv_layer_error(store@, sig@, prefix@) is None && is_dconv_layer(
                a,
                store@,
                sig@,
                prefix@,
                x,
            ),
            Err(e) => is_error(e, dconv_layer_error(store@, sig@, prefix@)),
        },
{
    proof {
        reveal(dconv_layer_error);
        reveal(is_dconv_layer);
    }
    let key: String = text::join(prefix, ".0");
    let conv1 = take_conv1d(a, store, sig, key.as_str())?;
    let key: String = text::join(prefix, ".0");
    let conv1_bias = take_bias(a, store, sig, key.as_str())?;
    let key: String = text::join(prefix, ".1");
    let norm1 = take_groupnorm(a, store, sig, key.as_str())?;
    let key: String = text::join(prefix, ".3");
    let conv2 = take_conv1d(a, store, sig, key.as_str())?;
    let key: String = text::join(prefix, ".3");
    let conv2_bias = take_bias(a, store, sig, key.as_str())?;
    let key: String = text::join(prefix, ".4");
    let norm2 = take_groupnorm(a, store, sig, key.as_str())?;
    let key: String = text::join(prefix, ".6");
    let scale = take_layer_scale(a, store, sig, key.as_str())?;
    Ok(DConvLayer { conv1, conv1_bias, norm1, conv2, conv2_bias, norm2, scale })
}

/// The name of item `i` of a list under `p`.
pub open spec fn numbered(p: Seq<char>, i: int) -> Seq<char> {
    p + "."@ + text::decimal_text(i as nat)
}

/// The name of item `i` of a list.
fn numbered_name(prefix: &str, i: usize) -> (r: String)
    ensures
        r@ == numbered(prefix@, i as int),
{
    let n: String = text::decimal(i);
    text::join3(prefix, ".", n.as_str())
}

/// The first error in loading the residual layers `from..DCONV_DEPTH`.
pub open spec fn dconv_layers_error_from(
    m: Weights,
    sig: Seq<char>,
    p: Seq<char>,
    from: int,
) -> Option<
    Seq<char>,
>
    decreases DCONV_DEPTH - from,
{
    if from >= DCONV_DEPTH {
        None
    } else {
        or(
            dconv_layer_error(m, sig, numbered(p, from)),
            dconv_layers_error_from(m, sig, p, from + 1),
        )
    }
}

/// `v` are the residual layers stored under `p`, one after the other.
#[verifier::opaque]
pub open spec fn are_dconv_layers<A: Arith>(
    a: &A,
    m: Weights,
    sig: Seq<char>,
    p: Seq<char>,
    v: Seq<DConvLayer<A::T>>,
) -> bool {
    &&& v.len() == DCONV_DEPTH
    &&& forall|i: int|
        0 <= i < DCONV_DEPTH ==> is_dconv_layer(a, m, sig, numbered(p, i), #[trigger] v[i])
}

/// Loads the residual layers.
fn take_dconv_layers<A: Arith>(a: &A, store: &WeightStore, sig: &str, prefix: &str) -> (r: Result<
    Vec<DConvLayer<A::T>>,
    DemucsError,
>)
    ensures
        match r {
            Ok(v) => dconv_layers_error_from(store@, sig@, prefix@, 0) is None && are_dconv_layers(
                a,
                store@,
                sig@,
                prefix@,
                v@,
            ),
            Err(e) => is_error(e, dconv_layers_error_from(store@, sig@, prefix@, 0)),
        },
{
    let n: usize = DCONV_DEPTH as usize;
    let mut out: Vec<DConvLayer<A::T>> = Vec::new();
    let mut i: usize = 0;
    while i < n
        invariant
            i <= n,
            n == DCONV_DEPTH,
            out@.len() == i,
            dconv_layers_error_from(store@, sig@, prefix@, 0) == dconv_layers_error_from(
                store@,
                sig@,
                prefix@,
                i as int,
            ),
            forall|j: int|
                0 <= j < i ==> is_dconv_layer(
                    a,
                    store@,
                    sig@,
                    numbered(prefix@, j),
                    #[trigger] out@[j],
                ),
        decreases n - i,
    {
        let name: String = numbered_name(prefix, i);
        let x: DConvLayer<A::T> = take_dconv_layer(a, store, sig, name.as_str())?;
        out.push(x);
        i = i + 1;
    }
    proof {
        reveal(are_dconv_layers);
    }
    Ok(out)
}

/// Loads the residual layers.
fn take_dconv<A: Arith>(
    a: &A,
    store: &WeightStore,
    sig: &str,
    prefix: &str,
) -> (r: Result<DConv<A::T>, DemucsError>)
    ensures
        match r {
            Ok(x) => dconv_error(store@, sig@, prefix@) is None && is_dconv(
                a,
                store@,
                sig@,
                prefix@,
                x,
            ),
            Err(e) => is_error(e, dconv_error(store@, sig@, prefix@)),
        },
{
    let layers: Vec<DConvLayer<A::T>> = take_dconv_layers(a, store, sig, prefix)?;
    Ok(DConv { layers })
}

/// The error in loading the residual layers.
pub open spec fn dconv_error(m: Weights, sig: Seq<char>, p: Seq<char>) -> Option<Seq<char>> {
    dconv_layers_error_from(m, sig, p, 0)
}

/// `x` are the residual layers stored under `p`.
pub open spec fn is_dconv<A: Arith>(
    a: &A,
    m: Weights,
    sig: Seq<char>,
    p: Seq<char>,
    x: DConv<A::T>,
) -> bool {
    are_dconv_layers(a, m, sig, p, x.layers@)
}

/// The error in loading a layer of the frequency encoder.
#[verifier::opaque]
pub open spec fn henc_error(m: Weights, sig: Seq<char>, p: Seq<char>) -> Option<Seq<char>> {
    or(
        conv2d_error(m, sig, p + ".conv"@),
        or(
        bias_error(m, sig, p + ".conv"@),
        or(
        dconv_error(m, sig, p + ".dconv.layers"@),
        or(
        conv2d_error(m, sig, p + ".rewrite"@),
        bias_error(m, sig, p + ".rewrite"@),
    ),
    ),
    ),
    )
}

/// `x` is a layer of the frequency encoder stored under `p`.
#[verifier::opaque]
pub open spec fn is_henc<A: Arith>(
    a: &A,
    m: Weights,
    sig: Seq<char>,
    p: Seq<char>,
    x: HEncLayer<A::T>,
) -> bool {
    &&& is_conv2d(a, m, sig, p + ".conv"@, x.conv)
    &&& is_bias(a, m, sig, p + ".conv"@, x.conv_bias)
    &&& is_dconv(a, m, sig, p + ".dconv.layers"@, x.dconv)
    &&& is_conv2d(a, m, sig, p + ".rewrite"@, x.rewrite)
    &&& is_bias(a, m, sig, p + ".rewrite"@, x.rewrite_bias)
}

/// Loads a layer of the frequency encoder.
fn take_henc<A: Arith>(a: &A, store: &WeightStore, sig: &str, prefix: &str) -> (r: Result<
    HEncLayer<A::T>,
    DemucsError,
>)
    ensures
        match r {
            Ok(x) => henc_error(store@, sig@, prefix@) is None && is_henc(
                a,
                store@,
                sig@,
                prefix@,
                x,
            ),
            Err(e) => is_error(e, henc_error(store@, sig@, prefix@)),
        },
{
    proof {
        reveal(henc_error);
        reveal(is_henc);
    }
    let key: String = text::join(prefix, ".conv");
    let conv = take_conv2d(a, store, sig, key.as_str())?;
    let key: String = text::join(prefix, ".conv");
    let conv_bias = take_bias(a, store, sig, key.as_str())?;
    let key: String = text::join(prefix, ".dconv.layers");
    let dconv = take_dconv(a, store, sig, key.as_str())?;
    let key: String = text::join(prefix, ".rewrite");
    let rewrite = take_conv2d(a, store, sig, key.as_str())?;
    let key: String = text::join(prefix, ".rewrite");
    let rewrite_bias = take_bias(a, store, sig, key.as_str())?;
    Ok(HEncLayer { conv, conv_bias, dconv, rewrite, rewrite_bias })
}

/// The error in loading a layer of the time encoder.
#[verifier::opaque]
pub open spec fn tenc_error(m: Weights, sig: Seq<char>, p: Seq<char>) -> Option<Seq<char>> {
    or(
        conv1d_error(m, sig, p + ".conv"@),
        or(
        bias_error(m, sig, p + ".conv"@),
        or(
        dconv_error(m, sig, p + ".dconv.layers"@),
        or(
        conv1d_error(m, sig, p + ".rewrite"@),
        bias_error(m, sig, p + ".rewrite"@),
    ),
    ),
    ),
    )
}

/// `x` is a layer of the time encoder stored under `p`.
#[verifier::opaque]
pub open spec fn is_tenc<A: Arith>(
    a: &A,
    m: Weights,
    sig: Seq<char>,
    p: Seq<char>,
    x: TEncLayer<A::T>,
) -> bool {
    &&& is_conv1d(a, m, sig, p + ".conv"@, x.conv)
    &&& is_bias(a, m, sig, p + ".conv"@, x.conv_bias)
    &&& is_dconv(a, m, sig, p + ".dconv.layers"@, x.dconv)
    &&& is_conv1d(a, m, sig, p + ".rewrite"@, x.rewrite)
    &&& is_bias(a, m, sig, p + ".rewrite"@, x.rewrite_bias)
}

/// Loads a layer of the time encoder.
fn take_tenc<A: Arith>(a: &A, store: &WeightStore, sig: &str, prefix: &str) -> (r: Result<
    TEncLayer<A::T>,
    DemucsError,
>)
    ensures
        match r {
            Ok(x) => tenc_error(store@, sig@, prefix@) is None && is_tenc(
                a,
                store@,
                sig@,
                prefix@,
                x,
            ),
            Err(e) => is_error(e, tenc_error(store@, sig@, prefix@)),
        },
{
    proof {
        reveal(tenc_error);
        reveal(is_tenc);
    }
    let key: String = text::join(prefix, ".conv");
    let conv = take_conv1d(a, store, sig, key.as_str())?;
    let key: String = text::join(prefix, ".conv");
    let conv_bias = take_bias(a, store, sig, key.as_str())?;
    let key: String = text::join(prefix, ".dconv.layers");
    let dconv = take_dconv(a, store, sig, key.as_str())?;
    let key: String = text::join(prefix, ".rewrite");
    let rewrite = take_conv1d(a, store, sig, key.as_str())?;
    let key: String = text::join(prefix, ".rewrite");
    let rewrite_bias = take_bias(a, store, sig, key.as_str())?;
    Ok(TEncLayer { conv, conv_bias, dconv, rewrite, rewrite_bias })
}

/// The error in loading a layer of the frequency decoder.
#[verifier::opaque]
pub open spec fn hdec_error(m: Weights, sig: Seq<char>, p: Seq<char>) -> Option<Seq<char>> {
    or(
        conv2d_error(m, sig, p + ".rewrite"@),
        or(
        bias_error(m, sig, p + ".rewrite"@),
        or(
        dconv_error(m, sig, p + ".dconv.layers"@),
        or(
        conv_transpose2d_error(m, sig, p + ".conv_tr"@),
        bias_error(m, sig, p + ".conv_tr"@),
    ),
    ),
    ),
    )
}

/// `x` is a layer of the frequency decoder stored under `p`.
#[verifier::opaque]
pub open spec fn is_hdec<A: Arith>(
    a: &A,
    m: Weights,
    sig: Seq<char>,
    p: Seq<char>, last: bool,
    x: HDecLayer<A::T>,
) -> bool {
    &&& is_conv2d(a, m, sig, p + ".rewrite"@, x.rewrite)
    &&& is_bias(a, m, sig, p + ".rewrite"@, x.rewrite_bias)
    &&& is_dconv(a, m, sig, p + ".dconv.layers"@, x.dconv)
    &&& is_conv_transpose2d(a, m, sig, p + ".conv_tr"@, x.conv_tr)
    &&& is_bias(a, m, sig, p + ".conv_tr"@, x.conv_tr_bias)
    &&& x.last == last
}

/// Loads a layer of the frequency decoder.
fn take_hdec<A: Arith>(a: &A, store: &WeightStore, sig: &str, prefix: &str, last: bool) -> (r: Result<
    HDecLayer<A::T>,
    DemucsError,
>)
    ensures
        match r {
            Ok(x) => hdec_error(store@, sig@, prefix@) is None && is_hdec(
                a,
                store@,
                sig@,
                prefix@, last,
                x,
            ),
            Err(e) => is_error(e, hdec_error(store@, sig@, prefix@)),
        },
{
    proof {
        reveal(hdec_error);
        reveal(is_hdec);
    }
    let key: String = text::join(prefix, ".rewrite");
    let rewrite = take_conv2d(a, store, sig, key.as_str())?;
    let key: String = text::join(prefix, ".rewrite");
    let rewrite_bias = take_bias(a, store, sig, key.as_str())?;
    let key: String = text::join(prefix, ".dconv.layers");
    let dconv = take_dconv(a, store, sig, key.as_str())?;
    let key: String = text::join(prefix, ".conv_tr");
    let conv_tr = take_conv_transpose2d(a, store, sig, key.as_str())?;
    let key: String = text::join(prefix, ".conv_tr");
    let conv_tr_bias = take_bias(a, store, sig, key.as_str())?;
    Ok(HDecLayer { rewrite, rewrite_bias, dconv, conv_tr, conv_tr_bias, last })
}

/// The error in loading a layer of the time decoder.
#[verifier::opaque]
pub open spec fn tdec_error(m: Weights, sig: Seq<char>, p: Seq<char>) -> Option<Seq<char>> {
    or(
        conv1d_error(m, sig, p + ".rewrite"@),
        or(
        bias_error(m, sig, p + ".rewrite"@),
        or(
        dconv_error(m, sig, p + ".dconv.layers"@),
        or(
        conv_transpose1d_error(m, sig, p + ".conv_tr"@),
        bias_error(m, sig, p + ".conv_tr"@),
    ),
    ),
    ),
    )
}

/// `x` is a layer of the time decoder stored under `p`.
#[verifier::opaque]
pub open spec fn is_tdec<A: Arith>(
    a: &A,
    m: Weights,
    sig: Seq<char>,
    p: Seq<char>, last: bool,
    x: TDecLayer<A::T>,
) -> bool {
    &&& is_conv1d(a, m, sig, p + ".rewrite"@, x.rewrite)
    &&& is_bias(a, m, sig, p + ".rewrite"@, x.rewrite_bias)
    &&& is_dconv(a, m, sig, p + ".dconv.layers"@, x.dconv)
    &&& is_conv_transpose1d(a, m, sig, p + ".conv_tr"@, x.conv_tr)
    &&& is_bias(a, m, sig, p + ".conv_tr"@, x.conv_tr_bias)
    &&& x.last == last
}

/// Loads a layer of the time decoder.
fn take_tdec<A: Arith>(a: &A, store: &WeightStore, sig: &str, prefix: &str, last: bool) -> (r: Result<
    TDecLayer<A::T>,
    DemucsError,
>)
    ensures
        match r {
            Ok(x) => tdec_error(store@, sig@, prefix@) is None && is_tdec(
                a,
                store@,
                sig@,
                prefix@, last,
                x,
            ),
            Err(e) => is_error(e, tdec_error(store@, sig@, prefix@)),
        },
{
    proof {
        reveal(tdec_error);
        reveal(is_tdec);
    }
    let key: String = text::join(prefix, ".rewrite");
    let rewrite = take_conv1d(a, store, sig, key.as_str())?;
    let key: String = text::join(prefix, ".rewrite");
    let rewrite_bias = take_bias(a, store, sig, key.as_str())?;
    let key: String = text::join(prefix, ".dconv.layers");
    let dconv = take_dconv(a, store, sig, key.as_str())?;
    let key: String = text::join(prefix, ".conv_tr");
    let conv_tr = take_conv_transpose1d(a, store, sig, key.as_str())?;
    let key: String = text::join(prefix, ".conv_tr");
    let conv_tr_bias = take_bias(a, store, sig, key.as_str())?;
    Ok(TDecLayer { rewrite, rewrite_bias, dconv, conv_tr, conv_tr_bias, last })
}

/// The error in loading the weights of multi-head attention of width `d_model`.
#[verifier::opaque]
pub open spec fn mha_error(
    m: Weights,
    sig: Seq<char>,
    p: Seq<char>,
    d_model: usize,
) -> Option<Seq<char>> {
    let shape = m[(sig, p + ".in_proj_weight"@)].shape;
    let d = text::decimal_text(d_model as nat);
    or(
        missing(m, sig, p + ".in_proj_weight"@),
        or(
            missing(m, sig, p + ".in_proj_bias"@),
            or(
                weight2d_error(m, sig, p + ".out_proj"@),
                or(
                    missing(m, sig, p + ".out_proj.bias"@),
                    if shape.len() == 2 && shape[0] == 3 * d_model && shape[1] == d_model {
                        None
                    } else {
                        Some(
                            "in_proj shape "@ + text::list_text(shape) + " mismatch (expected [3*"@
                                + d + ", "@ + d + "])"@,
                        )
                    },
                ),
            ),
        ),
    )
}

/// `x` are the weights of multi-head attention stored under `p`.
#[verifier::opaque]
pub open spec fn is_mha<A: Arith>(
    a: &A,
    m: Weights,
    sig: Seq<char>,
    p: Seq<char>,
    d_model: usize,
    x: MhaWeights<A::T>,
) -> bool {
    &&& is_vector(a, m, sig, p + ".in_proj_weight"@, x.in_proj_weight@)
    &&& is_vector(a, m, sig, p + ".in_proj_bias"@, x.in_proj_bias@)
    &&& is_vector(a, m, sig, p + ".out_proj"@ + ".weight"@, x.out_proj_weight@)
    &&& is_vector(a, m, sig, p + ".out_proj.bias"@, x.out_proj_bias@)
    &&& x.d_model == d_model
    &&& x.n_heads == T_HEADS
}

/// Loads the weights of multi-head attention.
fn take_mha<A: Arith>(a: &A, store: &WeightStore, sig: &str, prefix: &str, d_model: usize) -> (r: Result<
    MhaWeights<A::T>,
    DemucsError,
>)
    ensures
        match r {
            Ok(x) => mha_error(store@, sig@, prefix@, d_model) is None && is_mha(
                a,
                store@,
                sig@,
                prefix@,
                d_model,
                x,
            ),
            Err(e) => is_error(e, mha_error(store@, sig@, prefix@, d_model)),
        },
{
    proof {
        reveal(mha_error);
        reveal(is_mha);
        reveal(is_weight2d);
        reveal(is_vector);
    }
    let key: String = text::join(prefix, ".in_proj_weight");
    let w: RawTensor = take(store, sig, key.as_str())?;
    let in_proj_weight: Vec<A::T> = w.to_f32_vec(a);
    let key: String = text::join(prefix, ".in_proj_bias");
    let in_proj_bias: Vec<A::T> = take_vector(a, store, sig, key.as_str())?;
    let key: String = text::join(prefix, ".out_proj");
    let out_proj: Weight2D<A::T> = take_weight2d(a, store, sig, key.as_str())?;
    let key: String = text::join(prefix, ".out_proj.bias");
    let out_proj_bias: Vec<A::T> = take_vector(a, store, sig, key.as_str())?;
    let fits: bool = w.shape.len() == 2 && w.shape[1] == d_model && w.shape[0] % 3 == 0 && w.shape[0]
        / 3 == d_model;
    if !fits {
        let shape: String = text::list(&w.shape);
        let d: String = text::decimal(d_model);
        let head: String = text::join3("in_proj shape ", shape.as_str(), " mismatch (expected [3*");
        let more: String = text::join3(head.as_str(), d.as_str(), ", ");
        return Err(fail(text::join3(more.as_str(), d.as_str(), "])")));
    }
    Ok(
        MhaWeights {
            in_proj_weight,
            in_proj_bias,
            out_proj_weight: out_proj.data,
            out_proj_bias,
            d_model,
            n_heads: T_HEADS,
        },
    )
}

/// The error in loading a transformer layer of self-attention.
#[verifier::opaque]
pub open spec fn self_attn_error(
    m: Weights,
    sig: Seq<char>,
    p: Seq<char>,
    d_model: usize,
) -> Option<Seq<char>> {
    or(
        layernorm_error(m, sig, p + ".norm1"@),
        or(
        mha_error(m, sig, p + ".self_attn"@, d_model),
        or(
        layer_scale_error(m, sig, p + ".gamma_1"@),
        or(
        layernorm_error(m, sig, p + ".norm2"@),
        or(
        weight2d_error(m, sig, p + ".linear1"@),
        or(
        missing(m, sig, p + ".linear1.bias"@),
        or(
        weight2d_error(m, sig, p + ".linear2"@),
        or(
        missing(m, sig, p + ".linear2.bias"@),
        or(
        layer_scale_error(m, sig, p + ".gamma_2"@),
        group_norm1_error(m, sig, p + ".norm_out"@, d_model),
    ),
    ),
    ),
    ),
    ),
    ),
    ),
    ),
    )
}

/// `x` is a transformer layer of self-attention stored under `p`.
#[verifier::opaque]
pub open spec fn is_self_attn<A: Arith>(
    a: &A,
    m: Weights,
    sig: Seq<char>,
    p: Seq<char>, d_model: usize,
    x: SelfAttnLayer<A::T>,
) -> bool {
    &&& is_layernorm(a, m, sig, p + ".norm1"@, x.norm1)
    &&& is_mha(a, m, sig, p + ".self_attn"@, d_model, x.attn)
    &&& is_layer_scale(a, m, sig, p + ".gamma_1"@, x.gamma_1)
    &&& is_layernorm(a, m, sig, p + ".norm2"@, x.norm2)
    &&& is_weight2d(a, m, sig, p + ".linear1"@, x.linear1)
    &&& is_vector(a, m, sig, p + ".linear1.bias"@, x.linear1_bias@)
    &&& is_weight2d(a, m, sig, p + ".linear2"@, x.linear2)
    &&& is_vector(a, m, sig, p + ".linear2.bias"@, x.linear2_bias@)
    &&& is_layer_scale(a, m, sig, p + ".gamma_2"@, x.gamma_2)
    &&& is_groupnorm(a, m, sig, p + ".norm_out"@, x.norm_out)
}

/// Loads a transformer layer of self-attention.
fn take_self_attn<A: Arith>(a: &A, store: &WeightStore, sig: &str, prefix: &str, d_model: usize) -> (r: Result<
    SelfAttnLayer<A::T>,
    DemucsError,
>)
    ensures
        match r {
            Ok(x) => self_attn_error(store@, sig@, prefix@, d_model) is None && is_self_attn(
                a,
                store@,
                sig@,
                prefix@, d_model,
                x,
            ),
            Err(e) => is_error(e, self_attn_error(store@, sig@, prefix@, d_model)),
        },
{
    proof {
        reveal(self_attn_error);
        reveal(is_self_attn);
    }
    let key: String = text::join(prefix, ".norm1");
    let norm1 = take_layernorm(a, store, sig, key.as_str())?;
    let key: String = text::join(prefix, ".self_attn");
    let attn = take_mha(a, store, sig, key.as_str(), d_model)?;
    let key: String = text::join(prefix, ".gamma_1");
    let gamma_1 = take_layer_scale(a, store, sig, key.as_str())?;
    let key: String = text::join(prefix, ".norm2");
    let norm2 = take_layernorm(a, store, sig, key.as_str())?;
    let key: String = text::join(prefix, ".linear1");
    let linear1 = take_weight2d(a, store, sig, key.as_str())?;
    let key: String = text::join(prefix, ".linear1.bias");
    let linear1_bias = take_vector(a, store, sig, key.as_str())?;
    let key: String = text::join(prefix, ".linear2");
    let linear2 = take_weight2d(a, store, sig, key.as_str())?;
    let key: String = text::join(prefix, ".linear2.bias");
    let linear2_bias = take_vector(a, store, sig, key.as_str())?;
    let key: String = text::join(prefix, ".gamma_2");
    let gamma_2 = take_layer_scale(a, store, sig, key.as_str())?;
    let key: String = text::join(prefix, ".norm_out");
    let norm_out = take_group_norm1(a, store, sig, key.as_str(), d_model)?;
    Ok(
        SelfAttnLayer {
            norm1,
            attn,
            gamma_1,
            norm2,
            linear1,
            linear1_bias,
            linear2,
            linear2_bias,
            gamma_2,
            norm_out,
        }
    )
}

/// The error in loading a transformer layer of cross-attention.
#[verifier::opaque]
pub open spec fn cross_attn_error(
    m: Weights,
    sig: Seq<char>,
    p: Seq<char>,
    d_model: usize,
) -> Option<Seq<char>> {
    or(
        layernorm_error(m, sig, p + ".norm1"@),
        or(
        layernorm_error(m, sig, p + ".norm2"@),
        or(
        mha_error(m, sig, p + ".cross_attn"@, d_model),
        or(
        layer_scale_error(m, sig, p + ".gamma_1"@),
        or(
        layernorm_error(m, sig, p + ".norm3"@),
        or(
        weight2d_error(m, sig, p + ".linear1"@),
        or(
        missing(m, sig, p + ".linear1.bias"@),
        or(
        weight2d_error(m, sig, p + ".linear2"@),
        or(
        missing(m, sig, p + ".linear2.bias"@),
        or(
        layer_scale_error(m, sig, p + ".gamma_2"@),
        group_norm1_error(m, sig, p + ".norm_out"@, d_model),
    ),
    ),
    ),
    ),
    ),
    ),
    ),
    ),
    ),
    )
}

/// `x` is a transformer layer of cross-attention stored under `p`.
#[verifier::opaque]
pub open spec fn is_cross_attn<A: Arith>(
    a: &A,
    m: Weights,
    sig: Seq<char>,
    p: Seq<char>, d_model: usize,
    x: CrossAttnLayer<A::T>,
) -> bool {
    &&& is_layernorm(a, m, sig, p + ".norm1"@, x.norm1)
    &&& is_layernorm(a, m, sig, p + ".norm2"@, x.norm2)
    &&& is_mha(a, m, sig, p + ".cross_attn"@, d_model, x.attn)
    &&& is_layer_scale(a, m, sig, p + ".gamma_1"@, x.gamma_1)
    &&& is_layernorm(a, m, sig, p + ".norm3"@, x.norm3)
    &&& is_weight2d(a, m, sig, p + ".linear1"@, x.linear1)
    &&& is_vector(a, m, sig, p + ".linear1.bias"@, x.linear1_bias@)
    &&& is_weight2d(a, m, sig, p + ".linear2"@, x.linear2)
    &&& is_vector(a, m, sig, p + ".linear2.bias"@, x.linear2_bias@)
    &&& is_layer_scale(a, m, sig, p + ".gamma_2"@, x.gamma_2)
    &&& is_groupnorm(a, m, sig, p + ".norm_out"@, x.norm_out)
}

/// Loads a transformer layer of cross-attention.
fn take_cross_attn<A: Arith>(a: &A, store: &WeightStore, sig: &str, prefix: &str, d_model: usize) -> (r: Result<
    CrossAttnLayer<A::T>,
    DemucsError,
>)
    ensures
        match r {
            Ok(x) => cross_attn_error(store@, sig@, prefix@, d_model) is None && is_cross_attn(
                a,
                store@,
                sig@,
                prefix@, d_model,
                x,
            ),
            Err(e) => is_error(e, cross_attn_error(store@, sig@, prefix@, d_model)),
        },
{
    proof {
        reveal(cross_attn_error);
        reveal(is_cross_attn);
    }
    let key: String = text::join(prefix, ".norm1");
    let norm1 = take_layernorm(a, store, sig, key.as_str())?;
    let key: String = text::join(prefix, ".norm2");
    let norm2 = take_layernorm(a, store, sig, key.as_str())?;
    let key: String = text::join(prefix, ".cross_attn");
    let attn = take_mha(a, store, sig, key.as_str(), d_model)?;
    let key: String = text::join(prefix, ".gamma_1");
    let gamma_1 = take_layer_scale(a, store, sig, key.as_str())?;
    let key: String = text::join(prefix, ".norm3");
    let norm3 = take_layernorm(a, store, sig, key.as_str())?;
    let key: String = text::join(prefix, ".linear1");
    let linear1 = take_weight2d(a, store, sig, key.as_str())?;
    let key: String = text::join(prefix, ".linear1.bias");
    let linear1_bias = take_vector(a, store, sig, key.as_str())?;
    let key: String = text::join(prefix, ".linear2");
    let linear2 = take_weight2d(a, store, sig, key.as_str())?;
    let key: String = text::join(prefix, ".linear2.bias");
    let linear2_bias = take_vector(a, store, sig, key.as_str())?;
    let key: String = text::join(prefix, ".gamma_2");
    let gamma_2 = take_layer_scale(a, store, sig, key.as_str())?;
    let key: String = text::join(prefix, ".norm_out");
    let norm_out = take_group_norm1(a, store, sig, key.as_str(), d_model)?;
    Ok(
        CrossAttnLayer {
            norm1,
            norm2,
            attn,
            gamma_1,
            norm3,
            linear1,
            linear1_bias,
            linear2,
            linear2_bias,
            gamma_2,
            norm_out,
        }
    )
}

/// The error in loading a transformer layer: of the kind whose projection is there, or that
/// there is none.
#[verifier::opaque]
pub open spec fn transformer_layer_error(
    m: Weights,
    sig: Seq<char>,
    p: Seq<char>,
    d_model: usize,
) -> Option<
    Seq<char>,
> {
    if m.contains_key((sig, p + ".self_attn.in_proj_weight"@)) {
        self_attn_error(m, sig, p, d_model)
    } else if m.contains_key((sig, p + ".cross_attn.in_proj_weight"@)) {
        cross_attn_error(m, sig, p, d_model)
    } else {
        Some("transformer layer "@ + p + ": neither self_attn nor cross_attn found"@)
    }
}

/// `x` is the transformer layer stored under `p`: of self-attention where there is a
/// projection for that, else of cross-attention.
#[verifier::opaque]
pub open spec fn is_transformer_layer<A: Arith>(
    a: &A,
    m: Weights,
    sig: Seq<char>,
    p: Seq<char>,
    d_model: usize,
    x: TransformerLayerWeights<A::T>,
) -> bool {
    if m.contains_key((sig, p + ".self_attn.in_proj_weight"@)) {
        &&& x.self_attn is Some
        &&& x.cross_attn is None
        &&& is_self_attn(a, m, sig, p, d_model, x.self_attn->0)
    } else {
        &&& x.self_attn is None
        &&& x.cross_attn is Some
        &&& is_cross_attn(a, m, sig, p, d_model, x.cross_attn->0)
    }
}

/// Loads a transformer layer.
fn take_transformer_layer<A: Arith>(
    a: &A,
    store: &WeightStore,
    sig: &str,
    prefix: &str,
    d_model: usize,
) -> (r: Result<TransformerLayerWeights<A::T>, DemucsError>)
    ensures
        match r {
            Ok(x) => transformer_layer_error(store@, sig@, prefix@, d_model) is None
                && is_transformer_layer(a, store@, sig@, prefix@, d_model, x),
            Err(e) => is_error(e, transformer_layer_error(store@, sig@, prefix@, d_model)),
        },
{
    proof {
        reveal(transformer_layer_error);
        reveal(is_transformer_layer);
    }
    let self_key: String = text::join(prefix, ".self_attn.in_proj_weight");
    let cross_key: String = text::join(prefix, ".cross_attn.in_proj_weight");
    if store.try_take(sig, self_key.as_str()).is_some() {
        let layer: SelfAttnLayer<A::T> = take_self_attn(a, store, sig, prefix, d_model)?;
        Ok(TransformerLayerWeights { self_attn: Some(layer), cross_attn: None })
    } else if store.try_take(sig, cross_key.as_str()).is_some() {
        let layer: CrossAttnLayer<A::T> = take_cross_attn(a, store, sig, prefix, d_model)?;
        Ok(TransformerLayerWeights { self_attn: None, cross_attn: Some(layer) })
    } else {
        Err(
            fail(
                text::join3(
                    "transformer layer ",
                    prefix,
                    ": neither self_attn nor cross_attn found",
                ),
            ),
        )
    }
}

/// The first error in loading the transformer layers `from..T_LAYERS`.
pub open spec fn transformer_layers_error_from(
    m: Weights,
    sig: Seq<char>,
    p: Seq<char>,
    d_model: usize,
    from: int,
) -> Option<
    Seq<char>,
>
    decreases T_LAYERS - from,
{
    if from >= T_LAYERS {
        None
    } else {
        or(
            transformer_layer_error(m, sig, numbered(p, from), d_model),
            transformer_layers_error_from(m, sig, p, d_model, from + 1),
        )
    }
}

/// `v` are the transformer layers stored under `p`, one after the other.
#[verifier::opaque]
pub open spec fn are_transformer_layers<A: Arith>(
    a: &A,
    m: Weights,
    sig: Seq<char>,
    p: Seq<char>, d_model: usize,
    v: Seq<TransformerLayerWeights<A::T>>,
) -> bool {
    &&& v.len() == T_LAYERS
    &&& forall|i: int|
        0 <= i < T_LAYERS ==> is_transformer_layer(
            a,
            m,
            sig,
            numbered(p, i),
            d_model,
            #[trigger] v[i],
        )
}

/// Loads the transformer layers.
fn take_transformer_layers<A: Arith>(a: &A, store: &WeightStore, sig: &str, prefix: &str, d_model: usize) -> (r: Result<
    Vec<TransformerLayerWeights<A::T>>,
    DemucsError,
>)
    ensures
        match r {
            Ok(v) => transformer_layers_error_from(
                store@,
                sig@,
                prefix@,
                d_model,
                0,
            ) is None && are_transformer_layers(
                a,
                store@,
                sig@,
                prefix@, d_model,
                v@,
            ),
            Err(e) => is_error(e, transformer_layers_error_from(store@, sig@, prefix@, d_model, 0)),
        },
{
    let n: usize = T_LAYERS as usize;
    let mut out: Vec<TransformerLayerWeights<A::T>> = Vec::new();
    let mut i: usize = 0;
    while i < n
        invariant
            i <= n,
            n == T_LAYERS,
            out@.len() == i,
            transformer_layers_error_from(
                store@,
                sig@,
                prefix@,
                d_model,
                0,
            ) == transformer_layers_error_from(
                store@,
                sig@,
                prefix@, d_model,
                i as int,
            ),
            forall|j: int|
                0 <= j < i ==> is_transformer_layer(
                    a,
                    store@,
                    sig@,
                    numbered(prefix@, j), d_model,
                    #[trigger] out@[j],
                ),
        decreases n - i,
    {
        let name: String = numbered_name(prefix, i);
        let x: TransformerLayerWeights<A::T> = take_transformer_layer(
            a,
            store,
            sig,
            name.as_str(),
            d_model,
        )?;
        out.push(x);
        i = i + 1;
    }
    proof {
        reveal(are_transformer_layers);
    }
    Ok(out)
}

/// The error in loading an optional map of the channels, which is there where `present` holds.
#[verifier::opaque]
pub open spec fn resampler_error(
    m: Weights,
    sig: Seq<char>,
    p: Seq<char>,
    present: bool,
) -> Option<Seq<char>> {
    if present {
        or(conv1d_error(m, sig, p), missing(m, sig, p + ".bias"@))
    } else {
        None
    }
}

/// `w` and `b` are the kernel and the bias of an optional map of the channels.
#[verifier::opaque]
pub open spec fn is_resampler<A: Arith>(
    a: &A,
    m: Weights,
    sig: Seq<char>,
    p: Seq<char>,
    present: bool,
    w: Option<Conv1dWeight<A::T>>,
    b: Option<Vec<A::T>>,
) -> bool {
    if present {
        &&& w is Some
        &&& b is Some
        &&& is_conv1d(a, m, sig, p, w->0)
        &&& is_vector(a, m, sig, p + ".bias"@, b->0@)
    } else {
        w is None && b is None
    }
}

/// Loads an optional map of the channels.
fn take_resampler<A: Arith>(a: &A, store: &WeightStore, sig: &str, prefix: &str, present: bool) -> (r: Result<
    (Option<Conv1dWeight<A::T>>, Option<Vec<A::T>>),
    DemucsError,
>)
    ensures
        match r {
            Ok(x) => resampler_error(store@, sig@, prefix@, present) is None && is_resampler(
                a,
                store@,
                sig@,
                prefix@,
                present,
                x.0,
                x.1,
            ),
            Err(e) => is_error(e, resampler_error(store@, sig@, prefix@, present)),
        },
{
    proof {
        reveal(resampler_error);
        reveal(is_resampler);
    }
    if !present {
        return Ok((None, None));
    }
    let w: Conv1dWeight<A::T> = take_conv1d(a, store, sig, prefix)?;
    let key: String = text::join(prefix, ".bias");
    let b: Vec<A::T> = take_vector(a, store, sig, key.as_str())?;
    Ok((Some(w), Some(b)))
}

/// The error in loading the transformer between encoders of width `bottleneck_ch`, itself of
/// width `bottom_channels`.
#[verifier::opaque]
pub open spec fn cross_domain_error(
    m: Weights,
    sig: Seq<char>,
    bottleneck_ch: usize,
    bottom_channels: usize,
) -> Option<Seq<char>> {
    let present = bottleneck_ch != bottom_channels;
    or(
        resampler_error(m, sig, "channel_upsampler"@, present),
        or(
            resampler_error(m, sig, "channel_downsampler"@, present),
            or(
                resampler_error(m, sig, "channel_upsampler_t"@, present),
                or(
                    resampler_error(m, sig, "channel_downsampler_t"@, present),
                    or(
                        layernorm_error(m, sig, "crosstransformer.norm_in"@),
                        or(
                            layernorm_error(m, sig, "crosstransformer.norm_in_t"@),
                            or(
                                transformer_layers_error_from(
                                    m,
                                    sig,
                                    "crosstransformer.layers"@,
                                    bottom_channels,
                                    0,
                                ),
                                transformer_layers_error_from(
                                    m,
                                    sig,
                                    "crosstransformer.layers_t"@,
                                    bottom_channels,
                                    0,
                                ),
                            ),
                        ),
                    ),
                ),
            ),
        ),
    )
}

/// `x` is the stored transformer.
#[verifier::opaque]
pub open spec fn is_cross_domain<A: Arith>(
    a: &A,
    m: Weights,
    sig: Seq<char>,
    bottleneck_ch: usize,
    bottom_channels: usize,
    x: CrossDomainTransformer<A::T>,
) -> bool {
    let present = bottleneck_ch != bottom_channels;
    &&& is_resampler(
        a,
        m,
        sig,
        "channel_upsampler"@,
        present,
        x.channel_upsampler,
        x.channel_upsampler_bias,
    )
    &&& is_resampler(
        a,
        m,
        sig,
        "channel_downsampler"@,
        present,
        x.channel_downsampler,
        x.channel_downsampler_bias,
    )
    &&& is_resampler(
        a,
        m,
        sig,
        "channel_upsampler_t"@,
        present,
        x.channel_upsampler_t,
        x.channel_upsampler_t_bias,
    )
    &&& is_resampler(
        a,
        m,
        sig,
        "channel_downsampler_t"@,
        present,
        x.channel_downsampler_t,
        x.channel_downsampler_t_bias,
    )
    &&& is_layernorm(a, m, sig, "crosstransformer.norm_in"@, x.norm_in)
    &&& is_layernorm(a, m, sig, "crosstransformer.norm_in_t"@, x.norm_in_t)
    &&& are_transformer_layers(
        a,
        m,
        sig,
        "crosstransformer.layers"@,
        bottom_channels,
        x.layers@,
    )
    &&& are_transformer_layers(
        a,
        m,
        sig,
        "crosstransformer.layers_t"@,
        bottom_channels,
        x.layers_t@,
    )
}

impl<T: Copy> CrossDomainTransformer<T> {
    /// Loads the transformer of width `bottom_channels` between encoders of width
    /// `bottleneck_ch`. Where the two differ there are maps of the channels in between.
    pub fn from_store<A: Arith<T = T>>(
        a: &A,
        store: &WeightStore,
        sig: &str,
        bottleneck_ch: usize,
        bottom_channels: usize,
    ) -> (r: Result<CrossDomainTransformer<T>, DemucsError>)
        ensures
            match r {
                Ok(x) => cross_domain_error(store@, sig@, bottleneck_ch, bottom_channels) is None
                    && is_cross_domain(a, store@, sig@, bottleneck_ch, bottom_channels, x),
                Err(e) => is_error(
                    e,
                    cross_domain_error(store@, sig@, bottleneck_ch, bottom_channels),
                ),
            },
    {
        proof {
            reveal(cross_domain_error);
            reveal(is_cross_domain);
        }
        let present: bool = bottleneck_ch != bottom_channels;
        let (channel_upsampler, channel_upsampler_bias) = take_resampler(
            a,
            store,
            sig,
            "channel_upsampler",
            present,
        )?;
        let (channel_downsampler, channel_downsampler_bias) = take_resampler(
            a,
            store,
            sig,
            "channel_downsampler",
            present,
        )?;
        let (channel_upsampler_t, channel_upsampler_t_bias) = take_resampler(
            a,
            store,
            sig,
            "channel_upsampler_t",
            present,
        )?;
        let (channel_downsampler_t, channel_downsampler_t_bias) = take_resampler(
            a,
            store,
            sig,
            "channel_downsampler_t",
            present,
        )?;
        let norm_in: LayerNorm1<T> = take_layernorm(a, store, sig, "crosstransformer.norm_in")?;
        let norm_in_t: LayerNorm1<T> = take_layernorm(a, store, sig, "crosstransformer.norm_in_t")?;
        let layers: Vec<TransformerLayerWeights<T>> = take_transformer_layers(
            a,
            store,
            sig,
            "crosstransformer.layers",
            bottom_channels,
        )?;
        let layers_t: Vec<TransformerLayerWeights<T>> = take_transformer_layers(
            a,
            store,
            sig,
            "crosstransformer.layers_t",
            bottom_channels,
        )?;
        Ok(
            CrossDomainTransformer {
                norm_in,
                norm_in_t,
                channel_upsampler,
                channel_upsampler_bias,
                channel_downsampler,
                channel_downsampler_bias,
                channel_upsampler_t,
                channel_upsampler_t_bias,
                channel_downsampler_t,
                channel_downsampler_t_bias,
                layers,
                layers_t,
            },
        )
    }
}

/// The error in loading the embedding of the frequencies, of width `first_chout`.
#[verifier::opaque]
pub open spec fn freq_emb_error(
    m: Weights,
    sig: Seq<char>,
    first_chout: usize,
) -> Option<Seq<char>> {
    let key = "freq_emb.embedding.weight"@;
    let shape = m[(sig, key)].shape;
    or(
        missing(m, sig, key),
        if shape.len() != 2 {
            Some("freq_emb shape "@ + text::list_text(shape))
        } else if shape[1] != first_chout {
            Some(
                "freq_emb dim "@ + text::decimal_text(shape[1] as nat) + " != first_chout "@
                    + text::decimal_text(first_chout as nat),
            )
        } else {
            None
        },
    )
}

/// `r` may be ten times element `i` of a stored tensor.
pub open spec fn is_tenfold_element<A: Arith>(a: &A, t: RawTensorView, i: int, r: A::T) -> bool {
    exists|v: A::T, ten: A::T|
        {
            &&& #[trigger] raw_tensor::is_element(a, t, i, v)
            &&& #[trigger] arith::is_ratio(a, 10, 1, ten)
            &&& arith::is_product(a, v, ten, r)
        }
}

/// `x` is the embedding of the frequencies: ten times the stored one.
#[verifier::opaque]
pub open spec fn is_freq_emb<A: Arith>(
    a: &A,
    m: Weights,
    sig: Seq<char>,
    x: FreqEmb<A::T>,
) -> bool {
    let t = m[(sig, "freq_emb.embedding.weight"@)];
    &&& x.n_bins == t.shape[0]
    &&& x.dim == t.shape[1]
    &&& x.data@.len() == raw_tensor::element_count(t)
    &&& forall|i: int|
        0 <= i < x.data@.len() ==> is_tenfold_element(a, t, i, #[trigger] x.data@[i])
}

impl<T: Copy> FreqEmb<T> {
    /// Loads the embedding of the frequencies, which must be of width `first_chout`. The table
    /// is stored at a tenth of its scale.
    pub fn from_store<A: Arith<T = T>>(a: &A, store: &WeightStore, sig: &str, first_chout: usize) -> (r: Result<
        FreqEmb<T>,
        DemucsError,
    >)
        ensures
            match r {
                Ok(x) => freq_emb_error(store@, sig@, first_chout) is None && is_freq_emb(
                    a,
                    store@,
                    sig@,
                    x,
                ) && x.dim == first_chout,
                Err(e) => is_error(e, freq_emb_error(store@, sig@, first_chout)),
            },
    {
        proof {
            reveal(freq_emb_error);
            reveal(is_freq_emb);
        }
        let t: RawTensor = take(store, sig, "freq_emb.embedding.weight")?;
        if t.shape.len() != 2 {
            let shape: String = text::list(&t.shape);
            return Err(fail(text::join("freq_emb shape ", shape.as_str())));
        }
        let n_bins: usize = t.shape[0];
        let dim: usize = t.shape[1];
        if dim != first_chout {
            let d: String = text::decimal(dim);
            let head: String = text::join3("freq_emb dim ", d.as_str(), " != first_chout ");
            let c: String = text::decimal(first_chout);
            return Err(fail(text::join(head.as_str(), c.as_str())));
        }
        let stored: Vec<T> = t.to_f32_vec(a);
        proof {
            reveal(raw_tensor::are_elements);
        }
        let mut data: Vec<T> = Vec::new();
        let mut i: usize = 0;
        while i < stored.len()
            invariant
                i <= stored@.len(),
                data@.len() == i,
                forall|j: int|
                    0 <= j < stored@.len() ==> raw_tensor::is_element(
                        a,
                        t@,
                        j,
                        #[trigger] stored@[j],
                    ),
                forall|j: int| 0 <= j < i ==> is_tenfold_element(a, t@, j, #[trigger] data@[j]),
            decreases stored@.len() - i,
        {
            let v: T = stored[i];
            let ten: T = arith::ratio(a, 10, 1);
            let r: T = arith::times(a, v, ten);
            assert(is_tenfold_element(a, t@, i as int, r));
            data.push(r);
            i = i + 1;
        }
        Ok(FreqEmb { data, n_bins, dim })
    }
}

impl<T: Copy> HEncLayer<T> {
    /// Loads a layer of the frequency encoder.
    pub fn from_store<A: Arith<T = T>>(a: &A, store: &WeightStore, sig: &str, prefix: &str) -> (r: Result<
        HEncLayer<T>,
        DemucsError,
    >)
        ensures
            match r {
                Ok(x) => henc_error(store@, sig@, prefix@) is None && is_henc(
                    a,
                    store@,
                    sig@,
                    prefix@,
                    x,
                ),
                Err(e) => is_error(e, henc_error(store@, sig@, prefix@)),
            },
    {
        take_henc(a, store, sig, prefix)
    }
}

impl<T: Copy> TEncLayer<T> {
    /// Loads a layer of the time encoder. The widths are those of the stored kernels.
    pub fn from_store<A: Arith<T = T>>(
        a: &A,
        store: &WeightStore,
        sig: &str,
        prefix: &str,
        _chin: usize,
        _chout: usize,
    ) -> (r: Result<TEncLayer<T>, DemucsError>)
        ensures
            match r {
                Ok(x) => tenc_error(store@, sig@, prefix@) is None && is_tenc(
                    a,
                    store@,
                    sig@,
                    prefix@,
                    x,
                ),
                Err(e) => is_error(e, tenc_error(store@, sig@, prefix@)),
            },
    {
        take_tenc(a, store, sig, prefix)
    }
}

impl<T: Copy> HDecLayer<T> {
    /// Loads a layer of the frequency decoder. The widths are those of the stored kernels.
    pub fn from_store<A: Arith<T = T>>(
        a: &A,
        store: &WeightStore,
        sig: &str,
        prefix: &str,
        _chin: usize,
        _chout: usize,
        last: bool,
    ) -> (r: Result<HDecLayer<T>, DemucsError>)
        ensures
            match r {
                Ok(x) => hdec_error(store@, sig@, prefix@) is None && is_hdec(
                    a,
                    store@,
                    sig@,
                    prefix@,
                    last,
                    x,
                ),
                Err(e) => is_error(e, hdec_error(store@, sig@, prefix@)),
            },
    {
        take_hdec(a, store, sig, prefix, last)
    }
}

impl<T: Copy> TDecLayer<T> {
    /// Loads a layer of the time decoder. The widths are those of the stored kernels.
    pub fn from_store<A: Arith<T = T>>(
        a: &A,
        store: &WeightStore,
        sig: &str,
        prefix: &str,
        _chin: usize,
        _chout: usize,
        last: bool,
    ) -> (r: Result<TDecLayer<T>, DemucsError>)
        ensures
            match r {
                Ok(x) => tdec_error(store@, sig@, prefix@) is None && is_tdec(
                    a,
                    store@,
                    sig@,
                    prefix@,
                    last,
                    x,
                ),
                Err(e) => is_error(e, tdec_error(store@, sig@, prefix@)),
            },
    {
        take_tdec(a, store, sig, prefix, last)
    }
}

/// The first error in loading the layers of the frequency encoder `from..DEPTH`.
pub open spec fn henc_layers_error_from(
    m: Weights,
    sig: Seq<char>,
    p: Seq<char>,
    from: int,
) -> Option<
    Seq<char>,
>
    decreases DEPTH - from,
{
    if from >= DEPTH {
        None
    } else {
        or(
            henc_error(m, sig, numbered(p, from)),
            henc_layers_error_from(m, sig, p, from + 1),
        )
    }
}

/// `v` are the layers of the frequency encoder stored under `p`, one after the other.
#[verifier::opaque]
pub open spec fn are_henc_layers<A: Arith>(
    a: &A,
    m: Weights,
    sig: Seq<char>,
    p: Seq<char>,
    v: Seq<HEncLayer<A::T>>,
) -> bool {
    &&& v.len() == DEPTH
    &&& forall|i: int|
        0 <= i < DEPTH ==> is_henc(a, m, sig, numbered(p, i), #[trigger] v[i])
}

/// Loads the layers of the frequency encoder.
fn take_henc_layers<A: Arith>(a: &A, store: &WeightStore, sig: &str, prefix: &str) -> (r: Result<
    Vec<HEncLayer<A::T>>,
    DemucsError,
>)
    ensures
        match r {
            Ok(v) => henc_layers_error_from(store@, sig@, prefix@, 0) is None && are_henc_layers(
                a,
                store@,
                sig@,
                prefix@,
                v@,
            ),
            Err(e) => is_error(e, henc_layers_error_from(store@, sig@, prefix@, 0)),
        },
{
    let n: usize = DEPTH as usize;
    let mut out: Vec<HEncLayer<A::T>> = Vec::new();
    let mut i: usize = 0;
    while i < n
        invariant
            i <= n,
            n == DEPTH,
            out@.len() == i,
            henc_layers_error_from(store@, sig@, prefix@, 0) == henc_layers_error_from(
                store@,
                sig@,
                prefix@,
                i as int,
            ),
            forall|j: int|
                0 <= j < i ==> is_henc(
                    a,
                    store@,
                    sig@,
                    numbered(prefix@, j),
                    #[trigger] out@[j],
                ),
        decreases n - i,
    {
        let name: String = numbered_name(prefix, i);
        let x: HEncLayer<A::T> = take_henc(a, store, sig, name.as_str())?;
        out.push(x);
        i = i + 1;
    }
    proof {
        reveal(are_henc_layers);
    }
    Ok(out)
}

/// The error in loading the frequency encoder with its embedding.
pub open spec fn freq_encoder_error(m: Weights, sig: Seq<char>) -> Option<Seq<char>> {
    or(henc_layers_error_from(m, sig, "encoder"@, 0), freq_emb_error(m, sig, CHANNELS))
}

impl<T: Copy> FreqEncoder<T> {
    /// Loads the frequency encoder with its embedding.
    pub fn from_store<A: Arith<T = T>>(a: &A, store: &WeightStore, sig: &str) -> (r: Result<
        FreqEncoder<T>,
        DemucsError,
    >)
        ensures
            match r {
                Ok(x) => {
                    &&& freq_encoder_error(store@, sig@) is None
                    &&& are_henc_layers(a, store@, sig@, "encoder"@, x.layers@)
                    &&& is_freq_emb(a, store@, sig@, x.freq_emb)
                },
                Err(e) => is_error(e, freq_encoder_error(store@, sig@)),
            },
    {
        let layers: Vec<HEncLayer<T>> = take_henc_layers(a, store, sig, "encoder")?;
        let freq_emb: FreqEmb<T> = FreqEmb::from_store(a, store, sig, CHANNELS)?;
        Ok(FreqEncoder { layers, freq_emb })
    }
}

/// Width of layer `i` of the encoders.
pub open spec fn width_of(i: int) -> int
    decreases i,
{
    if i <= 0 {
        CHANNELS as int
    } else {
        GROWTH * width_of(i - 1)
    }
}

/// Width of layer `i` of the encoders.
fn layer_width(i: usize) -> (r: usize)
    requires
        i < DEPTH,
    ensures
        r == width_of(i as int),
    decreases i,
{
    proof {
        reveal_with_fuel(width_of, 5);
    }
    if i == 0 {
        CHANNELS
    } else {
        GROWTH * layer_width(i - 1)
    }
}

/// The first error in loading the layers of the two encoders from layer `from` on, a layer of both at a time.
pub open spec fn encoders_error_from(m: Weights, sig: Seq<char>, from: int) -> Option<Seq<char>>
    decreases DEPTH - from,
{
    if from >= DEPTH {
        None
    } else {
        or(
            henc_error(m, sig, numbered("encoder"@, from)),
            or(
                tenc_error(m, sig, numbered("tencoder"@, from)),
                encoders_error_from(m, sig, from + 1),
            ),
        )
    }
}

/// `f` and `t` are the layers of the two encoders that are stored.
#[verifier::opaque]
pub open spec fn are_encoders<A: Arith>(
    a: &A,
    m: Weights,
    sig: Seq<char>,
    f: Seq<HEncLayer<A::T>>,
    t: Seq<TEncLayer<A::T>>,
) -> bool {
    &&& f.len() == DEPTH
    &&& t.len() == DEPTH
    &&& forall|i: int|
        0 <= i < DEPTH ==> is_henc(a, m, sig, numbered("encoder"@, i), #[trigger] f[i])
    &&& forall|i: int|
        0 <= i < DEPTH ==> is_tenc(a, m, sig, numbered("tencoder"@, i), #[trigger] t[i])
}

/// Loads the layers of the two encoders.
fn take_encoders<A: Arith>(a: &A, store: &WeightStore, sig: &str) -> (r: Result<
    (Vec<HEncLayer<A::T>>, Vec<TEncLayer<A::T>>),
    DemucsError,
>)
    ensures
        match r {
            Ok(x) => encoders_error_from(store@, sig@, 0) is None && are_encoders(
                a,
                store@,
                sig@,
                x.0@,
                x.1@,
            ),
            Err(e) => is_error(e, encoders_error_from(store@, sig@, 0)),
        },
{
    let n: usize = DEPTH as usize;
    let mut f: Vec<HEncLayer<A::T>> = Vec::new();
    let mut t: Vec<TEncLayer<A::T>> = Vec::new();
    let mut i: usize = 0;
    while i < n
        invariant
            i <= n,
            n == DEPTH,
            f@.len() == i,
            t@.len() == i,
            encoders_error_from(store@, sig@, 0) == encoders_error_from(store@, sig@, i as int),
            forall|j: int|
                0 <= j < i ==> is_henc(
                    a,
                    store@,
                    sig@,
                    numbered("encoder"@, j),
                    #[trigger] f@[j],
                ),
            forall|j: int|
                0 <= j < i ==> is_tenc(
                    a,
                    store@,
                    sig@,
                    numbered("tencoder"@, j),
                    #[trigger] t@[j],
                ),
        decreases n - i,
    {
        let name: String = numbered_name("encoder", i);
        let chout: usize = layer_width(i);
        let chin: usize = if i == 0 {
            AUDIO_CHANNELS
        } else {
            layer_width(i - 1)
        };
        let x: HEncLayer<A::T> = HEncLayer::from_store(a, store, sig, name.as_str())?;
        let name: String = numbered_name("tencoder", i);
        let y: TEncLayer<A::T> = TEncLayer::from_store(a, store, sig, name.as_str(), chin, chout)?;
        f.push(x);
        t.push(y);
        i = i + 1;
    }
    proof {
        reveal(are_encoders);
    }
    Ok((f, t))
}

/// The first error in loading the layers of the two decoders from layer `from` on, a layer of both at a time.
pub open spec fn decoders_error_from(m: Weights, sig: Seq<char>, from: int) -> Option<Seq<char>>
    decreases DEPTH - from,
{
    if from >= DEPTH {
        None
    } else {
        or(
            hdec_error(m, sig, numbered("decoder"@, from)),
            or(
                tdec_error(m, sig, numbered("tdecoder"@, from)),
                decoders_error_from(m, sig, from + 1),
            ),
        )
    }
}

/// `f` and `t` are the layers of the two decoders that are stored.
#[verifier::opaque]
pub open spec fn are_decoders<A: Arith>(
    a: &A,
    m: Weights,
    sig: Seq<char>,
    f: Seq<HDecLayer<A::T>>,
    t: Seq<TDecLayer<A::T>>,
) -> bool {
    &&& f.len() == DEPTH
    &&& t.len() == DEPTH
    &&& forall|i: int|
        0 <= i < DEPTH ==> is_hdec(
            a,
            m,
            sig,
            numbered("decoder"@, i),
            i + 1 == DEPTH,
            #[trigger] f[i],
        )
    &&& forall|i: int|
        0 <= i < DEPTH ==> is_tdec(
            a,
            m,
            sig,
            numbered("tdecoder"@, i),
            i + 1 == DEPTH,
            #[trigger] t[i],
        )
}

/// Loads the layers of the two decoders.
fn take_decoders<A: Arith>(a: &A, store: &WeightStore, sig: &str, n_sources: usize) -> (r: Result<
    (Vec<HDecLayer<A::T>>, Vec<TDecLayer<A::T>>),
    DemucsError,
>)
    requires
        4 * n_sources <= usize::MAX,
    ensures
        match r {
            Ok(x) => decoders_error_from(store@, sig@, 0) is None && are_decoders(
                a,
                store@,
                sig@,
                x.0@,
                x.1@,
            ),
            Err(e) => is_error(e, decoders_error_from(store@, sig@, 0)),
        },
{
    let n: usize = DEPTH as usize;
    let mut f: Vec<HDecLayer<A::T>> = Vec::new();
    let mut t: Vec<TDecLayer<A::T>> = Vec::new();
    let mut i: usize = 0;
    while i < n
        invariant
            i <= n,
            n == DEPTH,
            4 * n_sources <= usize::MAX,
            f@.len() == i,
            t@.len() == i,
            decoders_error_from(store@, sig@, 0) == decoders_error_from(store@, sig@, i as int),
            forall|j: int|
                0 <= j < i ==> is_hdec(
                    a,
                    store@,
                    sig@,
                    numbered("decoder"@, j), j + 1 == DEPTH,
                    #[trigger] f@[j],
                ),
            forall|j: int|
                0 <= j < i ==> is_tdec(
                    a,
                    store@,
                    sig@,
                    numbered("tdecoder"@, j), j + 1 == DEPTH,
                    #[trigger] t@[j],
                ),
        decreases n - i,
    {
        let name: String = numbered_name("decoder", i);
        let chin: usize = layer_width(n - 1 - i);
        let last: bool = i + 1 == n;
        let f_out: usize = if last {
            4 * n_sources
        } else {
            layer_width(n - 2 - i)
        };
        let t_out: usize = if last {
            2 * n_sources
        } else {
            layer_width(n - 2 - i)
        };
        let x: HDecLayer<A::T> = HDecLayer::from_store(
            a,
            store,
            sig,
            name.as_str(),
            chin,
            f_out,
            i + 1 == DEPTH as usize,
        )?;
        let name: String = numbered_name("tdecoder", i);
        let y: TDecLayer<A::T> = TDecLayer::from_store(
            a,
            store,
            sig,
            name.as_str(),
            chin,
            t_out,
            i + 1 == DEPTH as usize,
        )?;
        f.push(x);
        t.push(y);
        i = i + 1;
    }
    proof {
        reveal(are_decoders);
    }
    Ok((f, t))
}

/// Width of the deepest layer of the encoders.
pub const BOTTLENECK: usize = 384;

/// The deepest layer of the encoders has the width that the transformer is loaded for.
pub proof fn bottleneck_is_deepest_width()
    ensures
        width_of(DEPTH - 1) == BOTTLENECK,
{
    reveal_with_fuel(width_of, 5);
}

/// The error in loading a complete model.
#[verifier::opaque]
pub open spec fn htdemucs_error(
    m: Weights,
    sig: Seq<char>,
    bottom_channels: usize,
) -> Option<Seq<char>> {
    or(
        encoders_error_from(m, sig, 0),
        or(
            cross_domain_error(m, sig, BOTTLENECK, bottom_channels),
            or(decoders_error_from(m, sig, 0), freq_emb_error(m, sig, CHANNELS)),
        ),
    )
}

/// `x` is the complete model stored under the signature `sig`.
#[verifier::opaque]
pub open spec fn is_htdemucs<A: Arith>(
    a: &A,
    m: Weights,
    sig: Seq<char>,
    n_sources: usize,
    bottom_channels: usize,
    x: HTDemucs<A::T>,
) -> bool {
    &&& are_encoders(a, m, sig, x.encoders@, x.tencoders@)
    &&& is_cross_domain(a, m, sig, BOTTLENECK, bottom_channels, x.crosstransformer)
    &&& are_decoders(a, m, sig, x.decoders@, x.tdecoders@)
    &&& is_freq_emb(a, m, sig, x.freq_emb)
    &&& x.n_sources == n_sources
    &&& x.bottom_channels == bottom_channels
}

impl<T: Copy> HTDemucs<T> {
    /// Loads the complete model stored under one signature. `n_sources` is the number of
    /// stems, `bottom_channels` the width of the transformer.
    pub fn from_store<A: Arith<T = T>>(
        a: &A,
        store: &WeightStore,
        sig: &str,
        n_sources: usize,
        bottom_channels: usize,
    ) -> (r: Result<HTDemucs<T>, DemucsError>)
        requires
            4 * n_sources <= usize::MAX,
        ensures
            match r {
                Ok(x) => htdemucs_error(store@, sig@, bottom_channels) is None && is_htdemucs(
                    a,
                    store@,
                    sig@,
                    n_sources,
                    bottom_channels,
                    x,
                ),
                Err(e) => is_error(e, htdemucs_error(store@, sig@, bottom_channels)),
            },
            r is Ok ==> weight_names::ends_in_its_last_layers(r->Ok_0),
    {
        proof {
            reveal(htdemucs_error);
            reveal(is_htdemucs);
        }
        let (encoders, tencoders) = take_encoders(a, store, sig)?;
        let crosstransformer: CrossDomainTransformer<T> = CrossDomainTransformer::from_store(
            a,
            store,
            sig,
            BOTTLENECK,
            bottom_channels,
        )?;
        let (decoders, tdecoders) = take_decoders(a, store, sig, n_sources)?;
        let freq_emb: FreqEmb<T> = FreqEmb::from_store(a, store, sig, CHANNELS)?;
        let x: HTDemucs<T> = HTDemucs {
            encoders,
            tencoders,
            crosstransformer,
            decoders,
            tdecoders,
            freq_emb,
            n_sources,
            bottom_channels,
        };
        proof {
            weight_names::loaded_models_end_in_their_last_layers(
                a,
                store@,
                sig@,
                n_sources,
                bottom_channels,
                x,
            );
        }
        Ok(x)
    }
}

} // verus!
