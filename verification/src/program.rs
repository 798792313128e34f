//! Programs for the graphics device.
//!
//! A program is a list of steps, each of which makes one value out of values made before it.
//! Whoever runs a program performs the steps in order; a value never changes once it is made.
use vstd::prelude::*;
use crate::arith;
use crate::arith::Arith;

verus! {

/// The largest number that the device takes as the size of anything.
pub const LIMIT: usize = 2147483647;

/// A kernel of the device.
#[derive(Clone, Copy, Debug, PartialEq, Eq, Structural)]
pub enum Kernel {
    /// Does nothing.
    Noop,
    /// Normalizes each batch of `[b, c, l]` over channels and positions, with a gain and a shift per channel.
    GroupNorm1,
    /// Halves the channels of `[b, 2c, l]`: the first half times the sigmoid of the second.
    GluChannel,
    /// Multiplies each channel of `[b, c, l]` by its scale.
    LayerScale,
    /// Multiplies `total` elements, in runs of `last`, by the scales.
    LayerScaleLast,
    /// Adds the bias to each row of `[outer, n]`.
    AddBiasInplace,
    /// The sum of two tensors of `n` elements.
    AddTo,
    /// Adds the second tensor of `n` elements to the first.
    AddInplace,
    /// Adds a positional embedding.
    AddPe,
    /// Adds the scaled embedding `[fr, c]` to every batch and frame of `[b, c, fr, t]`.
    AddFreqEmb,
    /// Softmax over the last axis of the scaled tensor `[b, s, n]`.
    SoftmaxScaled,
    /// Multiplies each row of `[b, n]` by its deviation and adds its mean.
    DenormFreq,
    /// Subtracts its mean from each row of `[b, n]` and divides by its deviation.
    NormFreq,
    /// Normalizes each of `outer` rows of `last` elements, with a gain and a shift.
    LayerNorm,
    /// Exchanges the last two axes of `[d0, d1, d2]`.
    SwapDims123d,
    /// Exchanges the middle axes of a tensor of four.
    SwapDims124d,
    /// Brings `[b, c, f, t]` into the order `[b, t, c, f]`.
    PermuteBcftToBtcf,
    /// Transposes a matrix.
    Transpose,
    /// Applies GELU to `n` elements.
    Gelu,
    /// Adds a bias and applies GELU.
    GeluBias,
    /// Unfolds `[b, c, h, w]` for a kernel of 8 by 1, stride 4, padding 2.
    Im2col8x1S4P2,
    /// Unfolds `[b, c, l]` for a kernel of 8, stride 4, padding 2.
    Im2col8S4P21d,
    /// Unfolds `[b, c, h, w]` for a kernel of 3 by 3 and padding 1.
    Im2col3x3S1P1,
    /// Unfolds `[b, c, l]` for a dilated kernel of 3 that keeps the length.
    Im2col1dK3Dilation,
    /// Brings `[b, c, l]` into rows of channels.
    Im2col1dK1,
    /// Unfolds `[b, c, h, w]` for the transpose of the convolution of 8 by 1.
    Im2colConvTranspose8x1S4P2,
    /// Unfolds `[b, c, l]` for the transpose of the convolution of 8.
    Im2colConvTranspose8S4P21d,
    /// Brings the rows of channels `[b * h * w, c]` into `[b, c, h, w]` and adds the bias.
    Conv2dPostprocess,
    /// Keeps the first rows of each plane of `[b, c, h, w]`.
    TrimH2,
    /// Keeps the first positions of each row of `[b, c, l]`.
    TrimL,
    /// Fills up each row of `[b, c, t]` with zeros.
    ZeroPadRight,
    /// Brings `[b, c, f, t]` into the order `[b, f, c, t]`.
    ReshapeBcftToBfct,
    /// Brings `[b, f, c, t]` into the order `[b, c, f, t]`.
    ReshapeBfctToBcft,
    /// Brings `[b, c, h, w]` into the order `[b, h, w, c]`.
    TransposeBchwToBhwc,
    /// Brings `[b, h, w, c]` into the order `[b, c, h, w]`.
    TransposeBhwcToBchw,
    /// Brings `[b, s, h * d]` into the order `[b, h, s, d]`.
    PermuteBsdToBhsd,
    /// Brings `[b, h, s, d]` into the order `[b, s, h * d]`.
    PermuteBhsdToBsd,
    /// Exchanges the last two axes of `[bh, s, d]`.
    PermuteBhsdToBhds,
    /// Writes the plane `bh` of the second tensor `[.., s, d]` over the start of the first.
    CopyPerHead,
    /// Writes the second tensor `[s, d]` over the plane `bh` of the first.
    ScatterPerHead,
    /// Brings `[b, c, f, t]` into the order `[b, t, f, c]`.
    FlattenBcftToBtfc,
    /// Brings `[b, t, f, c]` into the order `[b, c, f, t]`.
    UnflattenBtfcToBcft,
    /// Widens `n` elements to single precision.
    ConvertToSingle,
}

/// The name under which a kernel is compiled.
pub open spec fn kernel_name(k: Kernel) -> Seq<char> {
    match k {
        Kernel::Noop => "noop_placeholder"@,
        Kernel::GroupNorm1 => "groupnorm1_f16"@,
        Kernel::GluChannel => "glu_channel_f16"@,
        Kernel::LayerScale => "layer_scale_f16"@,
        Kernel::LayerScaleLast => "layer_scale_last_f16"@,
        Kernel::AddBiasInplace => "add_bias_inplace_f16"@,
        Kernel::AddTo => "add_to_f16"@,
        Kernel::AddInplace => "add_inplace_f16"@,
        Kernel::AddPe => "add_pe_f16"@,
        Kernel::AddFreqEmb => "add_freq_emb_f16"@,
        Kernel::SoftmaxScaled => "softmax_scaled_f16"@,
        Kernel::DenormFreq => "denorm_freq_f16"@,
        Kernel::NormFreq => "norm_freq_f16"@,
        Kernel::LayerNorm => "layer_norm_f16"@,
        Kernel::SwapDims123d => "swap_dims_12_3d_f16"@,
        Kernel::SwapDims124d => "swap_dims_12_4d_f16"@,
        Kernel::PermuteBcftToBtcf => "permute_bcft_to_btcf_f16"@,
        Kernel::Transpose => "transpose_f16"@,
        Kernel::Gelu => "gelu_f16"@,
        Kernel::GeluBias => "gelu_bias_f16"@,
        Kernel::Im2col8x1S4P2 => "im2col_8x1_s4p2_f16"@,
        Kernel::Im2col8S4P21d => "im2col_8_s4p2_1d_f16"@,
        Kernel::Im2col3x3S1P1 => "im2col_3x3_s1p1_f16"@,
        Kernel::Im2col1dK3Dilation => "im2col_1d_k3_dilation_f16"@,
        Kernel::Im2col1dK1 => "im2col_1d_k1_f16"@,
        Kernel::Im2colConvTranspose8x1S4P2 => "im2col_conv_transpose_8x1_s4p2_f16"@,
        Kernel::Im2colConvTranspose8S4P21d => "im2col_conv_transpose_8_s4p2_1d_f16"@,
        Kernel::Conv2dPostprocess => "conv2d_postprocess_f16"@,
        Kernel::TrimH2 => "trim_h2_f16"@,
        Kernel::TrimL => "trim_l_f16"@,
        Kernel::ZeroPadRight => "zero_pad_right_f16"@,
        Kernel::ReshapeBcftToBfct => "reshape_bcft_to_bfct_f16"@,
        Kernel::ReshapeBfctToBcft => "reshape_bfct_to_bcft_f16"@,
        Kernel::TransposeBchwToBhwc => "transpose_bchw_to_bhwc_f16"@,
        Kernel::TransposeBhwcToBchw => "transpose_bhwc_to_bchw_f16"@,
        Kernel::PermuteBsdToBhsd => "permute_bsd_to_bhsd_f16"@,
        Kernel::PermuteBhsdToBsd => "permute_bhsd_to_bsd_f16"@,
        Kernel::PermuteBhsdToBhds => "permute_bhsd_to_bhds_f16"@,
        Kernel::CopyPerHead => "copy_per_head_f16"@,
        Kernel::ScatterPerHead => "scatter_per_head_f16"@,
        Kernel::FlattenBcftToBtfc => "flatten_bcft_to_btfc_f16"@,
        Kernel::UnflattenBtfcToBcft => "unflatten_btfc_to_bcft_f16"@,
        Kernel::ConvertToSingle => "convert_f16_to_f32_f32"@,
    }
}

/// All kernels, in the order in which they are loaded.
pub open spec fn all_kernels() -> Seq<Kernel> {
    seq![
        Kernel::Noop,
        Kernel::GroupNorm1,
        Kernel::GluChannel,
        Kernel::LayerScale,
        Kernel::LayerScaleLast,
        Kernel::AddBiasInplace,
        Kernel::AddTo,
        Kernel::AddInplace,
        Kernel::AddPe,
        Kernel::AddFreqEmb,
        Kernel::SoftmaxScaled,
        Kernel::DenormFreq,
        Kernel::NormFreq,
        Kernel::LayerNorm,
        Kernel::SwapDims123d,
        Kernel::SwapDims124d,
        Kernel::PermuteBcftToBtcf,
        Kernel::Transpose,
        Kernel::Gelu,
        Kernel::GeluBias,
        Kernel::Im2col8x1S4P2,
        Kernel::Im2col8S4P21d,
        Kernel::Im2col3x3S1P1,
        Kernel::Im2col1dK3Dilation,
        Kernel::Im2col1dK1,
        Kernel::Im2colConvTranspose8x1S4P2,
        Kernel::Im2colConvTranspose8S4P21d,
        Kernel::Conv2dPostprocess,
        Kernel::TrimH2,
        Kernel::TrimL,
        Kernel::ZeroPadRight,
        Kernel::ReshapeBcftToBfct,
        Kernel::ReshapeBfctToBcft,
        Kernel::TransposeBchwToBhwc,
        Kernel::TransposeBhwcToBchw,
        Kernel::PermuteBsdToBhsd,
        Kernel::PermuteBhsdToBsd,
        Kernel::PermuteBhsdToBhds,
        Kernel::CopyPerHead,
        Kernel::ScatterPerHead,
        Kernel::FlattenBcftToBtfc,
        Kernel::UnflattenBtfcToBcft,
        Kernel::ConvertToSingle,
    ]
}

/// Position of a kernel among all.
pub open spec fn kernel_position(k: Kernel) -> int {
    match k {
        Kernel::Noop => 0,
        Kernel::GroupNorm1 => 1,
        Kernel::GluChannel => 2,
        Kernel::LayerScale => 3,
        Kernel::LayerScaleLast => 4,
        Kernel::AddBiasInplace => 5,
        Kernel::AddTo => 6,
        Kernel::AddInplace => 7,
        Kernel::AddPe => 8,
        Kernel::AddFreqEmb => 9,
        Kernel::SoftmaxScaled => 10,
        Kernel::DenormFreq => 11,
        Kernel::NormFreq => 12,
        Kernel::LayerNorm => 13,
        Kernel::SwapDims123d => 14,
        Kernel::SwapDims124d => 15,
        Kernel::PermuteBcftToBtcf => 16,
        Kernel::Transpose => 17,
        Kernel::Gelu => 18,
        Kernel::GeluBias => 19,
        Kernel::Im2col8x1S4P2 => 20,
        Kernel::Im2col8S4P21d => 21,
        Kernel::Im2col3x3S1P1 => 22,
        Kernel::Im2col1dK3Dilation => 23,
        Kernel::Im2col1dK1 => 24,
        Kernel::Im2colConvTranspose8x1S4P2 => 25,
        Kernel::Im2colConvTranspose8S4P21d => 26,
        Kernel::Conv2dPostprocess => 27,
        Kernel::TrimH2 => 28,
        Kernel::TrimL => 29,
        Kernel::ZeroPadRight => 30,
        Kernel::ReshapeBcftToBfct => 31,
        Kernel::ReshapeBfctToBcft => 32,
        Kernel::TransposeBchwToBhwc => 33,
        Kernel::TransposeBhwcToBchw => 34,
        Kernel::PermuteBsdToBhsd => 35,
        Kernel::PermuteBhsdToBsd => 36,
        Kernel::PermuteBhsdToBhds => 37,
        Kernel::CopyPerHead => 38,
        Kernel::ScatterPerHead => 39,
        Kernel::FlattenBcftToBtfc => 40,
        Kernel::UnflattenBtfcToBcft => 41,
        Kernel::ConvertToSingle => 42,
    }
}

/// Every kernel is loaded, at its own position and nowhere else.
pub proof fn every_kernel_loaded(k: Kernel)
    ensures
        0 <= kernel_position(k) < all_kernels().len(),
        all_kernels()[kernel_position(k)] == k,
        forall|i: int| 0 <= i < all_kernels().len() && all_kernels()[i] == k ==> i
            == kernel_position(k),
{
    assert forall|i: int| 0 <= i < all_kernels().len() implies kernel_position(
        #[trigger] all_kernels()[i],
    ) == i by {}
}

impl Kernel {
    /// The name under which the kernel is compiled.
    pub fn name(self) -> (r: &'static str)
        ensures
            r@ == kernel_name(self),
    {
        match self {
            Kernel::Noop => "noop_placeholder",
            Kernel::GroupNorm1 => "groupnorm1_f16",
            Kernel::GluChannel => "glu_channel_f16",
            Kernel::LayerScale => "layer_scale_f16",
            Kernel::LayerScaleLast => "layer_scale_last_f16",
            Kernel::AddBiasInplace => "add_bias_inplace_f16",
            Kernel::AddTo => "add_to_f16",
            Kernel::AddInplace => "add_inplace_f16",
            Kernel::AddPe => "add_pe_f16",
            Kernel::AddFreqEmb => "add_freq_emb_f16",
            Kernel::SoftmaxScaled => "softmax_scaled_f16",
            Kernel::DenormFreq => "denorm_freq_f16",
            Kernel::NormFreq => "norm_freq_f16",
            Kernel::LayerNorm => "layer_norm_f16",
            Kernel::SwapDims123d => "swap_dims_12_3d_f16",
            Kernel::SwapDims124d => "swap_dims_12_4d_f16",
            Kernel::PermuteBcftToBtcf => "permute_bcft_to_btcf_f16",
            Kernel::Transpose => "transpose_f16",
            Kernel::Gelu => "gelu_f16",
            Kernel::GeluBias => "gelu_bias_f16",
            Kernel::Im2col8x1S4P2 => "im2col_8x1_s4p2_f16",
            Kernel::Im2col8S4P21d => "im2col_8_s4p2_1d_f16",
            Kernel::Im2col3x3S1P1 => "im2col_3x3_s1p1_f16",
            Kernel::Im2col1dK3Dilation => "im2col_1d_k3_dilation_f16",
            Kernel::Im2col1dK1 => "im2col_1d_k1_f16",
            Kernel::Im2colConvTranspose8x1S4P2 => "im2col_conv_transpose_8x1_s4p2_f16",
            Kernel::Im2colConvTranspose8S4P21d => "im2col_conv_transpose_8_s4p2_1d_f16",
            Kernel::Conv2dPostprocess => "conv2d_postprocess_f16",
            Kernel::TrimH2 => "trim_h2_f16",
            Kernel::TrimL => "trim_l_f16",
            Kernel::ZeroPadRight => "zero_pad_right_f16",
            Kernel::ReshapeBcftToBfct => "reshape_bcft_to_bfct_f16",
            Kernel::ReshapeBfctToBcft => "reshape_bfct_to_bcft_f16",
            Kernel::TransposeBchwToBhwc => "transpose_bchw_to_bhwc_f16",
            Kernel::TransposeBhwcToBchw => "transpose_bhwc_to_bchw_f16",
            Kernel::PermuteBsdToBhsd => "permute_bsd_to_bhsd_f16",
            Kernel::PermuteBhsdToBsd => "permute_bhsd_to_bsd_f16",
            Kernel::PermuteBhsdToBhds => "permute_bhsd_to_bhds_f16",
            Kernel::CopyPerHead => "copy_per_head_f16",
            Kernel::ScatterPerHead => "scatter_per_head_f16",
            Kernel::FlattenBcftToBtfc => "flatten_bcft_to_btfc_f16",
            Kernel::UnflattenBtfcToBcft => "unflatten_btfc_to_bcft_f16",
            Kernel::ConvertToSingle => "convert_f16_to_f32_f32",
        }
    }

    /// All kernels, in the order in which they are loaded.
    pub fn all() -> (r: Vec<Kernel>)
        ensures
            r@ == all_kernels(),
    {
        let r: Vec<Kernel> = vec![
            Kernel::Noop,
            Kernel::GroupNorm1,
            Kernel::GluChannel,
            Kernel::LayerScale,
            Kernel::LayerScaleLast,
            Kernel::AddBiasInplace,
            Kernel::AddTo,
            Kernel::AddInplace,
            Kernel::AddPe,
            Kernel::AddFreqEmb,
            Kernel::SoftmaxScaled,
            Kernel::DenormFreq,
            Kernel::NormFreq,
            Kernel::LayerNorm,
            Kernel::SwapDims123d,
            Kernel::SwapDims124d,
            Kernel::PermuteBcftToBtcf,
            Kernel::Transpose,
            Kernel::Gelu,
            Kernel::GeluBias,
            Kernel::Im2col8x1S4P2,
            Kernel::Im2col8S4P21d,
            Kernel::Im2col3x3S1P1,
            Kernel::Im2col1dK3Dilation,
            Kernel::Im2col1dK1,
            Kernel::Im2colConvTranspose8x1S4P2,
            Kernel::Im2colConvTranspose8S4P21d,
            Kernel::Conv2dPostprocess,
            Kernel::TrimH2,
            Kernel::TrimL,
            Kernel::ZeroPadRight,
            Kernel::ReshapeBcftToBfct,
            Kernel::ReshapeBfctToBcft,
            Kernel::TransposeBchwToBhwc,
            Kernel::TransposeBhwcToBchw,
            Kernel::PermuteBsdToBhsd,
            Kernel::PermuteBhsdToBsd,
            Kernel::PermuteBhsdToBhds,
            Kernel::CopyPerHead,
            Kernel::ScatterPerHead,
            Kernel::FlattenBcftToBtfc,
            Kernel::UnflattenBtfcToBcft,
            Kernel::ConvertToSingle,
        ];
        assert(r@ =~= all_kernels());
        r
    }
}

/// A number that a kernel takes besides integers.
#[derive(Clone, Copy, Debug, PartialEq, Eq, Structural)]
pub enum Factor {
    /// None.
    Absent,
    /// What keeps a division away from zero: 1/100000.
    Epsilon,
    /// The scale of the frequency embedding: 1/5.
    EmbeddingScale,
    /// One over the square root of a number.
    InverseRoot(usize),
    /// The first number over the second.
    Ratio(u64, u64),
}

/// The number is one: there is one, and it is nothing over zero.
pub open spec fn is_number(x: Factor) -> bool {
    match x {
        Factor::Absent => false,
        Factor::Ratio(_, d) => d > 0,
        _ => true,
    }
}

/// `r` is the value of the number `x`.
pub open spec fn is_factor<A: Arith>(a: &A, x: Factor, r: A::T) -> bool {
    match x {
        Factor::Absent => arith::is_zero(a, r),
        Factor::Epsilon => arith::is_ratio(a, 1, 100000, r),
        Factor::EmbeddingScale => arith::is_ratio(a, 1, 5, r),
        Factor::InverseRoot(n) => exists|one: A::T, c: A::T, s: A::T|
            {
                &&& #[trigger] arith::is_ratio(a, 1, 1, one)
                &&& #[trigger] arith::is_count(a, n as int, c)
                &&& #[trigger] arith::is_square_root(a, c, s)
                &&& arith::is_quotient(a, one, s, r)
            },
        Factor::Ratio(n, d) => arith::is_ratio(a, n, d, r),
    }
}

impl Factor {
    /// The value of the number.
    pub fn value<A: Arith>(self, a: &A) -> (r: A::T)
        requires
            self == Factor::Absent || is_number(self),
        ensures
            is_factor(a, self, r),
    {
        match self {
            Factor::Absent => arith::zero(a),
            Factor::Epsilon => arith::ratio(a, 1, 100000),
            Factor::EmbeddingScale => arith::ratio(a, 1, 5),
            Factor::InverseRoot(n) => {
                let one: A::T = arith::ratio(a, 1, 1);
                let c: A::T = arith::count(a, n);
                let s: A::T = arith::square_root(a, c);
                arith::over(a, one, s)
            },
            Factor::Ratio(n, d) => arith::ratio(a, n, d),
        }
    }
}

/// The integers that a kernel takes: the first `n` of those here.
#[derive(Clone, Copy, Debug, PartialEq, Eq, Structural)]
pub struct Ints {
    pub n: usize,
    pub a: usize,
    pub b: usize,
    pub c: usize,
    pub d: usize,
    pub e: usize,
    pub f: usize,
    pub g: usize,
    pub h: usize,
}

/// 1 integer.
#[verifier::allow_in_spec]
pub fn ints1(a: usize) -> Ints
    returns
        (Ints { n: 1, a, b: 0, c: 0, d: 0, e: 0, f: 0, g: 0, h: 0 }),
{
    Ints { n: 1, a, b: 0, c: 0, d: 0, e: 0, f: 0, g: 0, h: 0 }
}

/// 2 integers.
#[verifier::allow_in_spec]
pub fn ints2(a: usize, b: usize) -> Ints
    returns
        (Ints { n: 2, a, b, c: 0, d: 0, e: 0, f: 0, g: 0, h: 0 }),
{
    Ints { n: 2, a, b, c: 0, d: 0, e: 0, f: 0, g: 0, h: 0 }
}

/// 3 integers.
#[verifier::allow_in_spec]
pub fn ints3(a: usize, b: usize, c: usize) -> Ints
    returns
        (Ints { n: 3, a, b, c, d: 0, e: 0, f: 0, g: 0, h: 0 }),
{
    Ints { n: 3, a, b, c, d: 0, e: 0, f: 0, g: 0, h: 0 }
}

/// 4 integers.
#[verifier::allow_in_spec]
pub fn ints4(a: usize, b: usize, c: usize, d: usize) -> Ints
    returns
        (Ints { n: 4, a, b, c, d, e: 0, f: 0, g: 0, h: 0 }),
{
    Ints { n: 4, a, b, c, d, e: 0, f: 0, g: 0, h: 0 }
}

/// 5 integers.
#[verifier::allow_in_spec]
pub fn ints5(a: usize, b: usize, c: usize, d: usize, e: usize) -> Ints
    returns
        (Ints { n: 5, a, b, c, d, e, f: 0, g: 0, h: 0 }),
{
    Ints { n: 5, a, b, c, d, e, f: 0, g: 0, h: 0 }
}

/// 6 integers.
#[verifier::allow_in_spec]
pub fn ints6(a: usize, b: usize, c: usize, d: usize, e: usize, f: usize) -> Ints
    returns
        (Ints { n: 6, a, b, c, d, e, f, g: 0, h: 0 }),
{
    Ints { n: 6, a, b, c, d, e, f, g: 0, h: 0 }
}

/// 8 integers.
#[verifier::allow_in_spec]
pub fn ints8(a: usize, b: usize, c: usize, d: usize, e: usize, f: usize, g: usize, h: usize) -> Ints
    returns
        (Ints { n: 8, a, b, c, d, e, f, g, h }),
{
    Ints { n: 8, a, b, c, d, e, f, g, h }
}

/// The start of a kernel.
///
/// It reads the first `reads` of the values `x`, `y` and `z`, and makes a value of `len`
/// elements. A kernel that works in place makes its value out of `x`.
#[derive(Clone, Copy, Debug, PartialEq, Eq, Structural)]
pub struct Launch {
    pub kernel: Kernel,
    pub reads: usize,
    pub x: usize,
    pub y: usize,
    pub z: usize,
    pub ints: Ints,
    pub factor: Factor,
    pub len: usize,
}

/// A product of matrices stored by columns: `m` by `k`, rows `lda` apart, times `k` by `n`,
/// rows `ldb` apart, into `m` by `n`, rows `ldc` apart.
#[derive(Clone, Copy, Debug, PartialEq, Eq, Structural)]
pub struct GemmCall {
    pub first: usize,
    pub second: usize,
    pub m: usize,
    pub n: usize,
    pub k: usize,
    pub lda: usize,
    pub ldb: usize,
    pub ldc: usize,
}

/// `batch` products of matrices, as in [`GemmCall`], the matrices of one kind `stride_a`,
/// `stride_b` and `stride_c` elements apart.
#[derive(Clone, Copy, Debug, PartialEq, Eq, Structural)]
pub struct BatchedGemmCall {
    pub gemm: GemmCall,
    pub batch: usize,
    pub stride_a: usize,
    pub stride_b: usize,
    pub stride_c: usize,
}

/// One step of a program. It makes the value whose number is the position of the step.
#[derive(Clone, Copy, Debug, PartialEq, Eq, Structural)]
pub enum Step {
    /// Weights that stay on the device.
    Upload { slot: usize, len: usize },
    /// A table that the host computes for the run.
    Table { slot: usize, len: usize },
    /// An input of the run.
    Input { slot: usize, len: usize },
    Launch(Launch),
    Gemm(GemmCall),
    BatchedGemm(BatchedGemmCall),
}

/// Number of elements that a step makes.
pub open spec fn step_len(s: Step) -> int {
    match s {
        Step::Upload { slot, len } => len as int,
        Step::Table { slot, len } => len as int,
        Step::Input { slot, len } => len as int,
        Step::Launch(l) => l.len as int,
        Step::Gemm(g) => g.m * g.n,
        Step::BatchedGemm(g) => g.batch * (g.gemm.m * g.gemm.n),
    }
}

/// The value `id` is there and has at least `len` elements.
pub open spec fn at(s: Seq<Step>, id: usize, len: int) -> bool {
    id < s.len() && step_len(s[id as int]) >= len
}

/// All integers are within what the device takes.
pub open spec fn ints_ok(i: Ints) -> bool {
    &&& i.a <= LIMIT
    &&& i.b <= LIMIT
    &&& i.c <= LIMIT
    &&& i.d <= LIMIT
    &&& i.e <= LIMIT
    &&& i.f <= LIMIT
    &&& i.g <= LIMIT
    &&& i.h <= LIMIT
}

/// Whether a kernel makes its value in place of the first one it reads.
pub open spec fn works_in_place(k: Kernel) -> bool {
    match k {
        Kernel::GroupNorm1 => true,
        Kernel::LayerScale => true,
        Kernel::LayerScaleLast => true,
        Kernel::AddBiasInplace => true,
        Kernel::AddInplace => true,
        Kernel::AddFreqEmb => true,
        Kernel::DenormFreq => true,
        Kernel::NormFreq => true,
        Kernel::Gelu => true,
        Kernel::CopyPerHead => true,
        Kernel::ScatterPerHead => true,
        _ => false,
    }
}

impl Kernel {
    /// Whether the kernel makes its value in place of the first one it reads.
    pub fn updates(self) -> (r: bool)
        ensures
            r == works_in_place(self),
    {
        match self {
            Kernel::GroupNorm1 => true,
            Kernel::LayerScale => true,
            Kernel::LayerScaleLast => true,
            Kernel::AddBiasInplace => true,
            Kernel::AddInplace => true,
            Kernel::AddFreqEmb => true,
            Kernel::DenormFreq => true,
            Kernel::NormFreq => true,
            Kernel::Gelu => true,
            Kernel::CopyPerHead => true,
            Kernel::ScatterPerHead => true,
            _ => false,
        }
    }
}

/// What a kernel asks for: the values that it reads hold all that it reads, and the value
/// that it makes is exactly what it writes.
#[verifier::opaque]
pub open spec fn launch_ok(s: Seq<Step>, l: Launch) -> bool {
    &&& ints_ok(l.ints)
    &&& l.len <= LIMIT
    &&& match l.kernel {
        Kernel::GroupNorm1 => {
            &&& l.ints.n == 3
            &&& l.reads == 3
            &&& at(s, l.x, l.ints.a * l.ints.b * l.ints.c)
            &&& at(s, l.y, l.ints.b as int)
            &&& at(s, l.z, l.ints.b as int)
            &&& l.len == l.ints.a * l.ints.b * l.ints.c
            &&& l.ints.b * l.ints.c <= LIMIT
            &&& l.factor == Factor::Epsilon
        },
        Kernel::GluChannel => {
            &&& l.ints.n == 3
            &&& l.reads == 1
            &&& at(s, l.x, l.ints.a * (2 * l.ints.b) * l.ints.c)
            &&& l.len == l.ints.a * l.ints.b * l.ints.c
            &&& l.factor == Factor::Absent
        },
        Kernel::LayerScale => {
            &&& l.ints.n == 3
            &&& l.reads == 2
            &&& at(s, l.x, l.ints.a * l.ints.b * l.ints.c)
            &&& at(s, l.y, l.ints.b as int)
            &&& l.len == l.ints.a * l.ints.b * l.ints.c
            &&& l.factor == Factor::Absent
        },
        Kernel::LayerScaleLast => {
            &&& l.ints.n == 2
            &&& l.reads == 2
            &&& at(s, l.x, l.ints.a as int)
            &&& at(s, l.y, l.ints.b as int)
            &&& l.len == l.ints.a
            &&& l.factor == Factor::Absent
        },
        Kernel::AddBiasInplace => {
            &&& l.ints.n == 2
            &&& l.reads == 2
            &&& at(s, l.x, l.ints.a * l.ints.b)
            &&& at(s, l.y, l.ints.b as int)
            &&& l.len == l.ints.a * l.ints.b
            &&& l.factor == Factor::Absent
        },
        Kernel::AddTo => {
            &&& l.ints.n == 1
            &&& l.reads == 2
            &&& at(s, l.x, l.ints.a as int)
            &&& at(s, l.y, l.ints.a as int)
            &&& l.len == l.ints.a
            &&& l.factor == Factor::Absent
        },
        Kernel::AddInplace => {
            &&& l.ints.n == 1
            &&& l.reads == 2
            &&& at(s, l.x, l.ints.a as int)
            &&& at(s, l.y, l.ints.a as int)
            &&& l.len == l.ints.a
            &&& l.factor == Factor::Absent
        },
        Kernel::AddFreqEmb => {
            &&& l.ints.n == 4
            &&& l.reads == 2
            &&& at(s, l.x, l.ints.a * l.ints.b * l.ints.c * l.ints.d)
            &&& at(s, l.y, l.ints.c * l.ints.b)
            &&& l.len == l.ints.a * l.ints.b * l.ints.c * l.ints.d
            &&& is_number(l.factor)
        },
        Kernel::SoftmaxScaled => {
            &&& l.ints.n == 3
            &&& l.reads == 1
            &&& at(s, l.x, l.ints.a * l.ints.b * l.ints.c)
            &&& l.len == l.ints.a * l.ints.b * l.ints.c
            &&& l.ints.a * l.ints.b <= LIMIT
            &&& is_number(l.factor)
        },
        Kernel::DenormFreq => {
            &&& l.ints.n == 2
            &&& l.reads == 3
            &&& at(s, l.x, l.ints.a * l.ints.b)
            &&& at(s, l.y, l.ints.a as int)
            &&& at(s, l.z, l.ints.a as int)
            &&& l.len == l.ints.a * l.ints.b
            &&& l.factor == Factor::Absent
        },
        Kernel::NormFreq => {
            &&& l.ints.n == 2
            &&& l.reads == 3
            &&& at(s, l.x, l.ints.a * l.ints.b)
            &&& at(s, l.y, l.ints.a as int)
            &&& at(s, l.z, l.ints.a as int)
            &&& l.len == l.ints.a * l.ints.b
            &&& is_number(l.factor)
        },
        Kernel::LayerNorm => {
            &&& l.ints.n == 2
            &&& l.reads == 3
            &&& at(s, l.x, l.ints.b * l.ints.a)
            &&& at(s, l.y, l.ints.a as int)
            &&& at(s, l.z, l.ints.a as int)
            &&& l.len == l.ints.b * l.ints.a
            &&& l.factor == Factor::Epsilon
        },
        Kernel::SwapDims123d => {
            &&& l.ints.n == 3
            &&& l.reads == 1
            &&& at(s, l.x, l.ints.a * l.ints.b * l.ints.c)
            &&& l.len == l.ints.a * l.ints.b * l.ints.c
            &&& l.factor == Factor::Absent
        },
        Kernel::PermuteBcftToBtcf => {
            &&& l.ints.n == 4
            &&& l.reads == 1
            &&& at(s, l.x, l.ints.a * l.ints.b * l.ints.c * l.ints.d)
            &&& l.len == l.ints.a * l.ints.b * l.ints.c * l.ints.d
            &&& l.factor == Factor::Absent
        },
        Kernel::Gelu => {
            &&& l.ints.n == 1
            &&& l.reads == 1
            &&& at(s, l.x, l.ints.a as int)
            &&& l.len == l.ints.a
            &&& l.factor == Factor::Absent
        },
        Kernel::Im2col8x1S4P2 => {
            &&& l.ints.n == 6
            &&& l.reads == 1
            &&& at(s, l.x, l.ints.a * l.ints.b * l.ints.c * l.ints.d)
            &&& l.len == (l.ints.a * l.ints.e) * (l.ints.b * 8)
            &&& l.ints.a * l.ints.e <= LIMIT
            &&& l.factor == Factor::Absent
        },
        Kernel::Im2col8S4P21d => {
            &&& l.ints.n == 4
            &&& l.reads == 1
            &&& at(s, l.x, l.ints.a * l.ints.b * l.ints.c)
            &&& l.len == (l.ints.a * l.ints.d) * (l.ints.b * 8)
            &&& l.ints.a * l.ints.d <= LIMIT
            &&& l.factor == Factor::Absent
        },
        Kernel::Im2col3x3S1P1 => {
            &&& l.ints.n == 6
            &&& l.reads == 1
            &&& at(s, l.x, l.ints.a * l.ints.b * l.ints.c * l.ints.d)
            &&& l.len == (l.ints.a * l.ints.e * l.ints.f) * (l.ints.b * 9)
            &&& (l.ints.a * l.ints.e <= LIMIT && l.ints.a * l.ints.e * l.ints.f <= LIMIT)
            &&& l.factor == Factor::Absent
        },
        Kernel::Im2col1dK3Dilation => {
            &&& l.ints.n == 5
            &&& l.reads == 1
            &&& at(s, l.x, l.ints.a * l.ints.b * l.ints.c)
            &&& l.len == (l.ints.a * l.ints.d) * (l.ints.b * 3)
            &&& l.ints.a * l.ints.d <= LIMIT
            &&& l.factor == Factor::Absent
        },
        Kernel::Im2col1dK1 => {
            &&& l.ints.n == 3
            &&& l.reads == 1
            &&& at(s, l.x, l.ints.a * l.ints.b * l.ints.c)
            &&& l.len == (l.ints.a * l.ints.c) * l.ints.b
            &&& l.ints.a * l.ints.c <= LIMIT
            &&& l.factor == Factor::Absent
        },
        Kernel::Im2colConvTranspose8x1S4P2 => {
            &&& l.ints.n == 8
            &&& l.reads == 1
            &&& at(s, l.x, l.ints.a * l.ints.b * l.ints.c * l.ints.d)
            &&& l.len == (l.ints.a * l.ints.e * l.ints.f) * (l.ints.b * 8)
            &&& (l.ints.a * l.ints.e <= LIMIT && l.ints.a * l.ints.e * l.ints.f <= LIMIT)
            &&& l.factor == Factor::Absent
        },
        Kernel::Im2colConvTranspose8S4P21d => {
            &&& l.ints.n == 6
            &&& l.reads == 1
            &&& at(s, l.x, l.ints.a * l.ints.b * l.ints.c)
            &&& l.len == (l.ints.a * l.ints.d) * (l.ints.b * 8)
            &&& l.ints.a * l.ints.d <= LIMIT
            &&& l.factor == Factor::Absent
        },
        Kernel::Conv2dPostprocess => {
            &&& l.ints.n == 5
            &&& l.reads == 2
            &&& at(s, l.x, l.ints.a * l.ints.c * l.ints.d * l.ints.b)
            &&& at(s, l.y, l.ints.b as int)
            &&& l.len == l.ints.a * l.ints.b * l.ints.c * l.ints.d
            &&& l.factor == Factor::Absent
        },
        Kernel::TrimH2 => {
            &&& l.ints.n == 5
            &&& l.reads == 1
            &&& at(s, l.x, l.ints.a * l.ints.b * l.ints.c * l.ints.e)
            &&& l.len == l.ints.a * l.ints.b * l.ints.d * l.ints.e
            &&& l.ints.d <= l.ints.c
            &&& l.factor == Factor::Absent
        },
        Kernel::TrimL => {
            &&& l.ints.n == 4
            &&& l.reads == 1
            &&& at(s, l.x, l.ints.a * l.ints.b * l.ints.c)
            &&& l.len == l.ints.a * l.ints.b * l.ints.d
            &&& l.ints.d <= l.ints.c
            &&& l.factor == Factor::Absent
        },
        Kernel::ZeroPadRight => {
            &&& l.ints.n == 5
            &&& l.reads == 1
            &&& at(s, l.x, l.ints.a * l.ints.b * l.ints.c)
            &&& l.len == l.ints.a * l.ints.b * l.ints.d
            &&& l.ints.d == l.ints.c + l.ints.e
            &&& l.factor == Factor::Absent
        },
        Kernel::ReshapeBcftToBfct => {
            &&& l.ints.n == 4
            &&& l.reads == 1
            &&& at(s, l.x, l.ints.a * l.ints.b * l.ints.c * l.ints.d)
            &&& l.len == l.ints.a * l.ints.b * l.ints.c * l.ints.d
            &&& l.factor == Factor::Absent
        },
        Kernel::ReshapeBfctToBcft => {
            &&& l.ints.n == 4
            &&& l.reads == 1
            &&& at(s, l.x, l.ints.a * l.ints.b * l.ints.c * l.ints.d)
            &&& l.len == l.ints.a * l.ints.b * l.ints.c * l.ints.d
            &&& l.factor == Factor::Absent
        },
        Kernel::TransposeBchwToBhwc => {
            &&& l.ints.n == 4
            &&& l.reads == 1
            &&& at(s, l.x, l.ints.a * l.ints.b * l.ints.c * l.ints.d)
            &&& l.len == l.ints.a * l.ints.b * l.ints.c * l.ints.d
            &&& l.factor == Factor::Absent
        },
        Kernel::TransposeBhwcToBchw => {
            &&& l.ints.n == 4
            &&& l.reads == 1
            &&& at(s, l.x, l.ints.a * l.ints.b * l.ints.c * l.ints.d)
            &&& l.len == l.ints.a * l.ints.b * l.ints.c * l.ints.d
            &&& l.factor == Factor::Absent
        },
        Kernel::PermuteBsdToBhsd => {
            &&& l.ints.n == 5
            &&& l.reads == 1
            &&& at(s, l.x, l.ints.a * l.ints.b * l.ints.c)
            &&& l.len == l.ints.a * l.ints.b * l.ints.c
            &&& l.ints.c == l.ints.d * l.ints.e
            &&& l.factor == Factor::Absent
        },
        Kernel::PermuteBhsdToBsd => {
            &&& l.ints.n == 4
            &&& l.reads == 1
            &&& at(s, l.x, l.ints.a * l.ints.b * l.ints.c * l.ints.d)
            &&& l.len == l.ints.a * l.ints.b * l.ints.c * l.ints.d
            &&& l.factor == Factor::Absent
        },
        Kernel::PermuteBhsdToBhds => {
            &&& l.ints.n == 3
            &&& l.reads == 1
            &&& at(s, l.x, l.ints.a * l.ints.b * l.ints.c)
            &&& l.len == l.ints.a * l.ints.b * l.ints.c
            &&& l.factor == Factor::Absent
        },
        Kernel::CopyPerHead => {
            &&& l.ints.n == 3
            &&& l.reads == 2
            &&& at(s, l.x, l.ints.b * l.ints.c)
            &&& at(s, l.y, (l.ints.a + 1) * (l.ints.b * l.ints.c))
            &&& l.len == step_len(s[l.x as int])
            &&& l.ints.b * l.ints.c <= LIMIT
            &&& l.factor == Factor::Absent
        },
        Kernel::ScatterPerHead => {
            &&& l.ints.n == 3
            &&& l.reads == 2
            &&& at(s, l.x, (l.ints.a + 1) * (l.ints.b * l.ints.c))
            &&& at(s, l.y, l.ints.b * l.ints.c)
            &&& l.len == step_len(s[l.x as int])
            &&& l.ints.b * l.ints.c <= LIMIT
            &&& l.factor == Factor::Absent
        },
        Kernel::FlattenBcftToBtfc => {
            &&& l.ints.n == 4
            &&& l.reads == 1
            &&& at(s, l.x, l.ints.a * l.ints.b * l.ints.c * l.ints.d)
            &&& l.len == l.ints.a * l.ints.b * l.ints.c * l.ints.d
            &&& l.factor == Factor::Absent
        },
        Kernel::UnflattenBtfcToBcft => {
            &&& l.ints.n == 4
            &&& l.reads == 1
            &&& at(s, l.x, l.ints.a * l.ints.b * l.ints.c * l.ints.d)
            &&& l.len == l.ints.a * l.ints.b * l.ints.c * l.ints.d
            &&& l.factor == Factor::Absent
        },
        Kernel::ConvertToSingle => {
            &&& l.ints.n == 1
            &&& l.reads == 1
            &&& at(s, l.x, l.ints.a as int)
            &&& l.len == l.ints.a
            &&& l.factor == Factor::Absent
        },
        _ => false,
    }
}

/// The operands of a product hold all that it reads, and the product is stored without gaps.
#[verifier::opaque]
pub open spec fn gemm_ok(s: Seq<Step>, g: GemmCall) -> bool {
    &&& g.m <= LIMIT && g.n <= LIMIT && g.k <= LIMIT
    &&& g.lda <= LIMIT && g.ldb <= LIMIT && g.ldc <= LIMIT
    &&& g.m <= g.lda
    &&& g.k <= g.ldb
    &&& g.m == g.ldc
    &&& g.m * g.n <= LIMIT
    &&& at(s, g.first, g.lda * g.k)
    &&& at(s, g.second, g.ldb * g.n)
}

/// As [`gemm_ok`], for every product of a batch.
#[verifier::opaque]
pub open spec fn batched_ok(s: Seq<Step>, g: BatchedGemmCall) -> bool {
    &&& g.gemm.m <= LIMIT && g.gemm.n <= LIMIT && g.gemm.k <= LIMIT
    &&& g.gemm.lda <= LIMIT && g.gemm.ldb <= LIMIT && g.gemm.ldc <= LIMIT
    &&& g.gemm.m <= g.gemm.lda
    &&& g.gemm.k <= g.gemm.ldb
    &&& g.gemm.m == g.gemm.ldc
    &&& g.batch <= LIMIT
    &&& g.batch * (g.gemm.m * g.gemm.n) <= LIMIT
    &&& g.gemm.lda * g.gemm.k <= g.stride_a
    &&& g.gemm.ldb * g.gemm.n <= g.stride_b
    &&& g.gemm.m * g.gemm.n == g.stride_c
    &&& at(s, g.gemm.first, g.batch * g.stride_a)
    &&& at(s, g.gemm.second, g.batch * g.stride_b)
}

/// Step `s` can follow the steps `before`.
pub open spec fn step_ok(before: Seq<Step>, s: Step) -> bool {
    match s {
        Step::Launch(l) => launch_ok(before, l),
        Step::Gemm(g) => gemm_ok(before, g),
        Step::BatchedGemm(g) => batched_ok(before, g),
        _ => true,
    }
}

/// Every step reads only values that were made before it, and only elements that they have.
#[verifier::opaque]
pub open spec fn program_ok(s: Seq<Step>) -> bool {
    forall|i: int| 0 <= i < s.len() ==> step_ok(s.take(i), #[trigger] s[i])
}

/// The program `s` goes on from the program `before`.
pub open spec fn extends(before: Seq<Step>, s: Seq<Step>) -> bool {
    &&& before.len() <= s.len()
    &&& forall|i: int| 0 <= i < before.len() ==> #[trigger] s[i] == before[i]
}

/// A program.
pub struct Program {
    pub steps: Vec<Step>,
}

impl View for Program {
    type V = Seq<Step>;

    open spec fn view(&self) -> Seq<Step> {
        self.steps@
    }
}

/// A step added to a good program gives a good program.
proof fn lemma_push(s: Seq<Step>, x: Step)
    requires
        program_ok(s),
        step_ok(s, x),
    ensures
        program_ok(s.push(x)),
        extends(s, s.push(x)),
{
    reveal(program_ok);
    let t = s.push(x);
    assert(t.take(s.len() as int) =~= s);
    assert forall|i: int| 0 <= i < t.len() implies step_ok(t.take(i), #[trigger] t[i]) by {
        if i < s.len() {
            assert(t.take(i) =~= s.take(i));
            assert(t[i] == s[i]);
        } else {
            assert(t.take(i) =~= s);
        }
    }
}

impl Program {
    /// Adds a step, and gives the number of the value that it makes.
    pub fn push(&mut self, s: Step) -> (id: usize)
        requires
            program_ok(old(self)@),
            step_ok(old(self)@, s),
        ensures
            final(self)@ == old(self)@.push(s),
            id == old(self)@.len(),
            program_ok(final(self)@),
            extends(old(self)@, final(self)@),
    {
        let id: usize = self.steps.len();
        proof {
            lemma_push(self.steps@, s);
        }
        self.steps.push(s);
        id
    }
}

} // verus!
