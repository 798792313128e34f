//! Programs for the graphics device, performed step by step on the host.
use demucs_native::arith::{Arith, Gemm};
use demucs_native::cuda_ops::{
    add_freq_emb_inplace, add_to, conv1d_1x1, conv1d_k1, conv1d_k3_dilation, conv1d_k8_s4p2, conv2d_1x1,
    conv2d_3x3_s1p1, conv2d_8x1_s4p2, conv_transpose1d_8_s4p2, conv_transpose2d_8x1_s4p2, copy_per_head,
    cross_attn_layer, cross_domain_transformer, dconv, dconv_layer, denorm_freq_inplace, flatten_bcft_to_btfc,
    gelu_inplace, glu_channel, groupnorm1_inplace, hdec_layer, henc_layer,
    htdemucs_forward, layer_norm, layer_scale_inplace, layer_scale_last_inplace, linear_with_bias, mha,
    norm_freq_inplace, permute_bcft_to_btcf, reshape_bcft_to_bfct, reshape_bfct_to_bcft, scatter_per_head,
    self_attn_layer, softmax_scaled, swap_dims_12_3d, tdec_layer, tenc_layer, transpose_bchw_to_bhwc,
    transpose_bhwc_to_bchw, trim_h2, trim_l, unflatten_btfc_to_bcft,
};
use demucs_native::cuda_ops::layout::pad_l;
use demucs_native::cuda_ops::matmul::{gemm_f16, gemm_strided_batched_f16};
use demucs_native::error::DemucsError;
use demucs_native::gpu_loading::Uploads;
use demucs_native::gpu_model::{
    GpuBias, GpuConv1dWeight, GpuConv2dWeight, GpuConvTranspose1dWeight, GpuConvTranspose2dWeight, GpuCrossAttnLayer,
    GpuCrossDomainTransformer, GpuDConv, GpuDConvLayer, GpuFreqEmb, GpuGroupNorm1, GpuHDecLayer, GpuHEncLayer,
    GpuHTDemucs, GpuLayerNorm1, GpuLayerScale, GpuMhaWeights, GpuSelfAttnLayer, GpuTDecLayer, GpuTEncLayer,
    GpuWeight2D,
};
use demucs_native::gpu_tensor::{tensor2, tensor3, tensor4, GpuBuffer, GpuTensor};
use demucs_native::launch::{launch_1d, Argument};
use demucs_native::model::{
    Bias, Conv1dWeight, Conv2dWeight, CrossAttnLayer, CrossDomainTransformer, DConv, DConvLayer, FreqEmb, GroupNorm1,
    HDecLayer, HEncLayer, HTDemucs, LayerNorm1, LayerScale, MhaWeights, SelfAttnLayer, TDecLayer, TEncLayer,
    TransformerLayerWeights, Weight2D,
};
use demucs_native::ops_cpu;
use demucs_native::program::{Factor, GemmCall, Kernel, Launch, Program, Step, LIMIT};

/// Single precision.
struct Single;

impl Arith for Single {
    type T = f32;

    type Product = (usize, Vec<f32>);

    fn zero(&self) -> f32 {
        0.0
    }

    fn lowest(&self) -> f32 {
        f32::NEG_INFINITY
    }

    fn ratio(&self, num: u64, den: u64) -> f32 {
        (num as f64 / den as f64) as f32
    }

    fn count(&self, n: usize) -> f32 {
        n as f32
    }

    fn from_bits(&self, bits: u32) -> f32 {
        f32::from_bits(bits)
    }

    fn from_half_bits(&self, bits: u16) -> f32 {
        half::f16::from_bits(bits).to_f32()
    }

    fn greater(&self, x: f32, y: f32) -> bool {
        x > y
    }

    fn neg(&self, x: f32) -> f32 {
        -x
    }

    fn abs(&self, x: f32) -> f32 {
        x.abs()
    }

    fn exp(&self, x: f32) -> f32 {
        x.exp()
    }

    fn ln(&self, x: f32) -> f32 {
        x.ln()
    }

    fn sqrt(&self, x: f32) -> f32 {
        x.sqrt()
    }

    fn recip(&self, x: f32) -> f32 {
        x.recip()
    }

    fn sin(&self, x: f32) -> f32 {
        x.sin()
    }

    fn cos(&self, x: f32) -> f32 {
        x.cos()
    }

    fn add(&self, x: f32, y: f32) -> f32 {
        x + y
    }

    fn sub(&self, x: f32, y: f32) -> f32 {
        x - y
    }

    fn mul(&self, x: f32, y: f32) -> f32 {
        x * y
    }

    fn div(&self, x: f32, y: f32) -> f32 {
        x / y
    }

    fn pow(&self, x: f32, y: f32) -> f32 {
        x.powf(y)
    }

    fn erf_scaled(&self, x: f32, y: f32) -> f32 {
        libm::erf(x as f64 * y as f64) as f32
    }

    fn gemm(&self, g: Gemm, lhs: &[f32], rhs: &[f32], scale: f32) -> (usize, Vec<f32>) {
        let mut out = vec![0.0f32; g.m * g.n];
        for i in 0..g.m {
            for l in 0..g.k {
                let x = scale * lhs[i * g.lhs_rs + l * g.lhs_cs];
                for j in 0..g.n {
                    out[i * g.n + j] += x * rhs[l * g.rhs_rs + j * g.rhs_cs];
                }
            }
        }
        (g.n, out)
    }

    fn entry(&self, product: &(usize, Vec<f32>), i: usize, j: usize) -> f32 {
        product.1[i * product.0 + j]
    }
}

/// Moves the elements of a tensor of four axes into another order of them: axis `j` of the
/// result is axis `order[j]` of `x`.
fn permuted(x: &[f32], shape: [usize; 4], order: [usize; 4]) -> Vec<f32> {
    let strides = [shape[1] * shape[2] * shape[3], shape[2] * shape[3], shape[3], 1];
    let mut out = Vec::new();
    for i in 0..shape[order[0]] {
        for j in 0..shape[order[1]] {
            for k in 0..shape[order[2]] {
                for l in 0..shape[order[3]] {
                    out.push(
                        x[i * strides[order[0]] + j * strides[order[1]] + k * strides[order[2]]
                            + l * strides[order[3]]],
                    );
                }
            }
        }
    }
    out
}

/// The source position of a convolution: `o * stride + d * dilation - pad`, if there is one.
fn source(o: usize, d: usize, stride: usize, dilation: usize, pad: usize, n: usize) -> Option<usize> {
    let i = o * stride + d * dilation;
    if i >= pad && i - pad < n {
        Some(i - pad)
    } else {
        None
    }
}

/// The source position of a transposed convolution: `(o + pad - d) / stride`, if there is one.
fn back_source(o: usize, d: usize, stride: usize, pad: usize, n: usize) -> Option<usize> {
    if o + pad >= d && (o + pad - d) % stride == 0 && (o + pad - d) / stride < n {
        Some((o + pad - d) / stride)
    } else {
        None
    }
}

/// Rows of patches: one for each batch, output row and output column, of `c * kh * kw` elements.
fn patches(
    x: &[f32],
    dims: [usize; 4],
    out: [usize; 2],
    kernel: [usize; 2],
    row: &dyn Fn(usize, usize) -> Option<usize>,
    column: &dyn Fn(usize, usize) -> Option<usize>,
) -> Vec<f32> {
    let [b, c, h, w] = dims;
    let mut r = Vec::new();
    for bi in 0..b {
        for oh in 0..out[0] {
            for ow in 0..out[1] {
                for ci in 0..c {
                    for dh in 0..kernel[0] {
                        for dw in 0..kernel[1] {
                            r.push(match (row(oh, dh), column(ow, dw)) {
                                (Some(ih), Some(iw)) => x[((bi * c + ci) * h + ih) * w + iw],
                                _ => 0.0,
                            });
                        }
                    }
                }
            }
        }
    }
    r
}

/// What a kernel makes of the values that it reads.
fn kernel_result(l: &Launch, x: &[f32], y: &[f32], z: &[f32]) -> Vec<f32> {
    let i = l.ints;
    let factor = l.factor.value(&Single);
    let same = |o: usize, d: usize| if d == 0 { Some(o) } else { None };
    match l.kernel {
        Kernel::GroupNorm1 => {
            let n = i.b * i.c;
            let mut out = Vec::new();
            for bi in 0..i.a {
                let row = &x[bi * n..(bi + 1) * n];
                let mean = row.iter().sum::<f32>() / n as f32;
                let var = row.iter().map(|v| (v - mean) * (v - mean)).sum::<f32>() / n as f32;
                for (j, v) in row.iter().enumerate() {
                    out.push((v - mean) / (var + factor).sqrt() * y[j / i.c] + z[j / i.c]);
                }
            }
            out
        },
        Kernel::LayerNorm => {
            let n = i.a;
            let mut out = Vec::new();
            for o in 0..i.b {
                let row = &x[o * n..(o + 1) * n];
                let mean = row.iter().sum::<f32>() / n as f32;
                let var = row.iter().map(|v| (v - mean) * (v - mean)).sum::<f32>() / n as f32;
                for (j, v) in row.iter().enumerate() {
                    out.push((v - mean) / (var + factor).sqrt() * y[j] + z[j]);
                }
            }
            out
        },
        Kernel::GluChannel => {
            let n = i.b * i.c;
            let mut out = Vec::new();
            for bi in 0..i.a {
                for j in 0..n {
                    let v = x[bi * 2 * n + j];
                    let gate = x[bi * 2 * n + n + j];
                    out.push(v / (1.0 + (-gate).exp()));
                }
            }
            out
        },
        Kernel::LayerScale => (0..l.len).map(|p| x[p] * y[p / i.c % i.b]).collect(),
        Kernel::LayerScaleLast => (0..l.len).map(|p| x[p] * y[p % i.b]).collect(),
        Kernel::AddBiasInplace => (0..l.len).map(|p| x[p] + y[p % i.b]).collect(),
        Kernel::AddTo | Kernel::AddInplace => (0..l.len).map(|p| x[p] + y[p]).collect(),
        Kernel::AddFreqEmb => (0..l.len)
            .map(|p| x[p] + factor * y[p / i.d % i.c * i.b + p / i.d / i.c % i.b])
            .collect(),
        Kernel::SoftmaxScaled => {
            let mut out = Vec::new();
            for r in 0..i.a * i.b {
                let row: Vec<f32> = x[r * i.c..(r + 1) * i.c].iter().map(|v| v * factor).collect();
                let top = row.iter().cloned().fold(f32::NEG_INFINITY, f32::max);
                let e: Vec<f32> = row.iter().map(|v| (v - top).exp()).collect();
                let sum: f32 = e.iter().sum();
                out.extend(e.iter().map(|v| v / sum));
            }
            out
        },
        Kernel::DenormFreq => (0..l.len).map(|p| x[p] * z[p / i.b] + y[p / i.b]).collect(),
        Kernel::NormFreq => (0..l.len)
            .map(|p| (x[p] - y[p / i.b]) / (z[p / i.b] + factor))
            .collect(),
        Kernel::SwapDims123d | Kernel::PermuteBhsdToBhds => {
            permuted(x, [1, i.a, i.b, i.c], [0, 1, 3, 2])
        },
        Kernel::PermuteBcftToBtcf => permuted(x, [i.a, i.b, i.c, i.d], [0, 3, 1, 2]),
        Kernel::ReshapeBcftToBfct => permuted(x, [i.a, i.b, i.c, i.d], [0, 2, 1, 3]),
        Kernel::ReshapeBfctToBcft => permuted(x, [i.a, i.c, i.b, i.d], [0, 2, 1, 3]),
        Kernel::TransposeBchwToBhwc => permuted(x, [i.a, i.b, i.c, i.d], [0, 2, 3, 1]),
        Kernel::TransposeBhwcToBchw => permuted(x, [i.a, i.c, i.d, i.b], [0, 3, 1, 2]),
        Kernel::PermuteBsdToBhsd => permuted(x, [i.a, i.b, i.d, i.e], [0, 2, 1, 3]),
        Kernel::PermuteBhsdToBsd => permuted(x, [i.a, i.c, i.b, i.d], [0, 2, 1, 3]),
        Kernel::FlattenBcftToBtfc => permuted(x, [i.a, i.b, i.c, i.d], [0, 3, 2, 1]),
        Kernel::UnflattenBtfcToBcft => permuted(x, [i.a, i.d, i.c, i.b], [0, 3, 2, 1]),
        Kernel::Gelu => x[..l.len]
            .iter()
            .map(|v| 0.5 * v * (1.0 + libm::erff(v * std::f32::consts::FRAC_1_SQRT_2)))
            .collect(),
        Kernel::Im2col8x1S4P2 => patches(
            x,
            [i.a, i.b, i.c, i.d],
            [i.e / i.f, i.f],
            [8, 1],
            &|o, d| source(o, d, 4, 1, 2, i.c),
            &same,
        ),
        Kernel::Im2col8S4P21d => patches(
            x,
            [i.a, i.b, i.c, 1],
            [i.d, 1],
            [8, 1],
            &|o, d| source(o, d, 4, 1, 2, i.c),
            &same,
        ),
        Kernel::Im2col3x3S1P1 => patches(
            x,
            [i.a, i.b, i.c, i.d],
            [i.e, i.f],
            [3, 3],
            &|o, d| source(o, d, 1, 1, 1, i.c),
            &|o, d| source(o, d, 1, 1, 1, i.d),
        ),
        Kernel::Im2col1dK3Dilation => patches(
            x,
            [i.a, i.b, i.c, 1],
            [i.d, 1],
            [3, 1],
            &|o, d| source(o, d, 1, i.e, i.e, i.c),
            &same,
        ),
        Kernel::Im2col1dK1 => patches(x, [i.a, i.b, i.c, 1], [i.c, 1], [1, 1], &same, &same),
        Kernel::Im2colConvTranspose8x1S4P2 => patches(
            x,
            [i.a, i.b, i.c, i.d],
            [i.e, i.f],
            [8, 1],
            &|o, d| back_source(o, d, i.h, i.g, i.c),
            &same,
        ),
        Kernel::Im2colConvTranspose8S4P21d => patches(
            x,
            [i.a, i.b, i.c, 1],
            [i.d, 1],
            [8, 1],
            &|o, d| back_source(o, d, i.f, i.e, i.c),
            &same,
        ),
        Kernel::Conv2dPostprocess => permuted(x, [i.a, i.c, i.d, i.b], [0, 3, 1, 2])
            .iter()
            .enumerate()
            .map(|(p, v)| v + y[p / i.d / i.c % i.b])
            .collect(),
        Kernel::TrimH2 => {
            let mut out = Vec::new();
            for plane in 0..i.a * i.b {
                out.extend_from_slice(&x[plane * i.c * i.e..(plane * i.c + i.d) * i.e]);
            }
            out
        },
        Kernel::TrimL => {
            let mut out = Vec::new();
            for row in 0..i.a * i.b {
                out.extend_from_slice(&x[row * i.c..row * i.c + i.d]);
            }
            out
        },
        Kernel::ZeroPadRight => {
            let mut out = Vec::new();
            for row in 0..i.a * i.b {
                out.extend_from_slice(&x[row * i.c..(row + 1) * i.c]);
                out.extend(std::iter::repeat(0.0f32).take(i.e));
            }
            out
        },
        Kernel::CopyPerHead => {
            let n = i.b * i.c;
            let mut out = x.to_vec();
            out[..n].copy_from_slice(&y[i.a * n..(i.a + 1) * n]);
            out
        },
        Kernel::ScatterPerHead => {
            let n = i.b * i.c;
            let mut out = x.to_vec();
            out[i.a * n..(i.a + 1) * n].copy_from_slice(&y[..n]);
            out
        },
        Kernel::ConvertToSingle => x[..l.len].to_vec(),
        _ => panic!("{:?} is never started", l.kernel),
    }
}

/// A product of matrices stored by columns.
fn column_product(g: &GemmCall, first: &[f32], second: &[f32]) -> Vec<f32> {
    let mut out = vec![0.0f32; g.m * g.n];
    for j in 0..g.n {
        for p in 0..g.k {
            for i in 0..g.m {
                out[j * g.ldc + i] += first[p * g.lda + i] * second[j * g.ldb + p];
            }
        }
    }
    out
}

/// Performs the steps of a program one after the other.
fn perform(program: &Program, uploads: &[Vec<f32>], tables: &[Vec<f32>], inputs: &[Vec<f32>]) -> Vec<Vec<f32>> {
    let mut values: Vec<Vec<f32>> = Vec::new();
    for step in &program.steps {
        let value = match step {
            Step::Upload { slot, len } => {
                assert_eq!(uploads[*slot].len(), *len);
                uploads[*slot].clone()
            },
            Step::Table { slot, len } => {
                assert_eq!(tables[*slot].len(), *len);
                tables[*slot].clone()
            },
            Step::Input { slot, len } => {
                assert_eq!(inputs[*slot].len(), *len);
                inputs[*slot].clone()
            },
            Step::Launch(l) => {
                assert!(l.config().is_some());
                let empty: Vec<f32> = Vec::new();
                let y = if l.reads > 1 { &values[l.y] } else { &empty };
                let z = if l.reads > 2 { &values[l.z] } else { &empty };
                let r = kernel_result(l, &values[l.x], y, z);
                assert_eq!(r.len(), l.len, "{:?}", l.kernel);
                r
            },
            Step::Gemm(g) => column_product(g, &values[g.first], &values[g.second]),
            Step::BatchedGemm(g) => {
                let mut out = Vec::new();
                for b in 0..g.batch {
                    let first = &values[g.gemm.first][b * g.stride_a..];
                    let second = &values[g.gemm.second][b * g.stride_b..];
                    out.extend(column_product(&g.gemm, first, second));
                }
                out
            },
        };
        values.push(value);
    }
    values
}

fn max_diff(a: &[f32], b: &[f32]) -> f32 {
    assert_eq!(a.len(), b.len());
    a.iter().zip(b).map(|(x, y)| (x - y).abs()).fold(0.0f32, f32::max)
}

fn max_abs(a: &[f32]) -> f32 {
    a.iter().fold(0.0f32, |m, v| m.max(v.abs()))
}

/// A ramp of `n` numbers.
fn ramp(n: usize, step: f32, start: f32) -> Vec<f32> {
    (0..n).map(|i| i as f32 * step + start).collect()
}

/// `n` numbers that go up and down.
fn waves(n: usize, seed: usize) -> Vec<f32> {
    (0..n).map(|i| ((i * 37 + seed * 101) as f32 * 0.37).sin() * 0.5).collect()
}

fn put2(up: &mut Uploads<f32>, x: &[f32], d: [usize; 2]) -> GpuTensor {
    let b: GpuBuffer = up.take(x.to_vec());
    tensor2(b.id, b.len, d[0], d[1])
}

fn put3(up: &mut Uploads<f32>, x: &[f32], d: [usize; 3]) -> GpuTensor {
    let b: GpuBuffer = up.take(x.to_vec());
    tensor3(b.id, b.len, d[0], d[1], d[2])
}

fn put4(up: &mut Uploads<f32>, x: &[f32], d: [usize; 4]) -> GpuTensor {
    let b: GpuBuffer = up.take(x.to_vec());
    tensor4(b.id, b.len, d[0], d[1], d[2], d[3])
}

/// The contents of the value `t` once the program is done.
fn fetch(up: &Uploads<f32>, p: &Program, t: GpuTensor) -> Vec<f32> {
    let values = perform(p, &up.arrays, &[], &[]);
    assert_eq!(values[t.data.id].len(), t.data.len);
    values[t.data.id].clone()
}

fn bias_of(data: &[f32]) -> Bias<f32> {
    Bias { data: data.to_vec(), len: data.len() }
}

fn conv1d_of(out_ch: usize, in_ch: usize, k: usize, seed: usize) -> Conv1dWeight<f32> {
    Conv1dWeight { data: waves(out_ch * in_ch * k, seed), out_ch, in_ch, k }
}

fn conv2d_of(out_ch: usize, in_ch: usize, kh: usize, kw: usize, seed: usize) -> Conv2dWeight<f32> {
    Conv2dWeight { data: waves(out_ch * in_ch * kh * kw, seed), out_ch, in_ch, kh, kw }
}

fn group_norm(n: usize, seed: usize) -> GroupNorm1<f32> {
    GroupNorm1 { gamma: waves(n, seed), beta: waves(n, seed + 1), num_channels: n }
}

fn layer_norm_of(n: usize, seed: usize) -> LayerNorm1<f32> {
    LayerNorm1 { gamma: waves(n, seed), beta: waves(n, seed + 1), dim: n }
}

fn matrix(rows: usize, cols: usize, seed: usize) -> Weight2D<f32> {
    Weight2D { data: waves(rows * cols, seed), rows, cols }
}

fn attention_of(d: usize, n_heads: usize, seed: usize) -> MhaWeights<f32> {
    MhaWeights {
        in_proj_weight: waves(3 * d * d, seed),
        in_proj_bias: waves(3 * d, seed + 1),
        out_proj_weight: waves(d * d, seed + 2),
        out_proj_bias: waves(d, seed + 3),
        d_model: d,
        n_heads,
    }
}

fn self_layer(d: usize, heads: usize, hidden: usize, seed: usize) -> SelfAttnLayer<f32> {
    SelfAttnLayer {
        norm1: layer_norm_of(d, seed),
        attn: attention_of(d, heads, seed + 1),
        gamma_1: LayerScale { scale: waves(d, seed + 2) },
        norm2: layer_norm_of(d, seed + 3),
        linear1: matrix(hidden, d, seed + 4),
        linear1_bias: waves(hidden, seed + 5),
        linear2: matrix(d, hidden, seed + 6),
        linear2_bias: waves(d, seed + 7),
        gamma_2: LayerScale { scale: waves(d, seed + 8) },
        norm_out: group_norm(d, seed + 9),
    }
}

fn cross_layer(d: usize, heads: usize, hidden: usize, seed: usize) -> CrossAttnLayer<f32> {
    CrossAttnLayer {
        norm1: layer_norm_of(d, seed),
        norm2: layer_norm_of(d, seed + 10),
        attn: attention_of(d, heads, seed + 1),
        gamma_1: LayerScale { scale: waves(d, seed + 2) },
        norm3: layer_norm_of(d, seed + 3),
        linear1: matrix(hidden, d, seed + 4),
        linear1_bias: waves(hidden, seed + 5),
        linear2: matrix(d, hidden, seed + 6),
        linear2_bias: waves(d, seed + 7),
        gamma_2: LayerScale { scale: waves(d, seed + 8) },
        norm_out: group_norm(d, seed + 9),
    }
}

fn residual_layer(c: usize, seed: usize) -> DConvLayer<f32> {
    let inner = 3;
    DConvLayer {
        conv1: conv1d_of(inner, c, 3, seed),
        conv1_bias: bias_of(&waves(inner, seed + 1)),
        norm1: group_norm(inner, seed + 2),
        conv2: conv1d_of(2 * c, inner, 1, seed + 3),
        conv2_bias: bias_of(&waves(2 * c, seed + 4)),
        norm2: group_norm(2 * c, seed + 5),
        scale: LayerScale { scale: waves(c, seed + 6) },
    }
}

fn residual(c: usize, seed: usize) -> DConv<f32> {
    DConv { layers: vec![residual_layer(c, seed), residual_layer(c, seed + 20)] }
}

fn freq_encoder(c_in: usize, c: usize, seed: usize) -> HEncLayer<f32> {
    HEncLayer {
        conv: conv2d_of(c, c_in, 8, 1, seed),
        conv_bias: bias_of(&waves(c, seed + 1)),
        dconv: residual(c, seed + 2),
        rewrite: conv2d_of(2 * c, c, 1, 1, seed + 3),
        rewrite_bias: bias_of(&waves(2 * c, seed + 4)),
    }
}

fn time_encoder(c_in: usize, c: usize, seed: usize) -> TEncLayer<f32> {
    TEncLayer {
        conv: conv1d_of(c, c_in, 8, seed),
        conv_bias: bias_of(&waves(c, seed + 1)),
        dconv: residual(c, seed + 2),
        rewrite: conv1d_of(2 * c, c, 1, seed + 3),
        rewrite_bias: bias_of(&waves(2 * c, seed + 4)),
    }
}

fn freq_decoder(c: usize, c_out: usize, last: bool, seed: usize) -> HDecLayer<f32> {
    HDecLayer {
        rewrite: conv2d_of(2 * c, c, 3, 3, seed),
        rewrite_bias: bias_of(&waves(2 * c, seed + 1)),
        dconv: residual(c, seed + 2),
        conv_tr: conv2d_of(c_out, c, 8, 1, seed + 3),
        conv_tr_bias: bias_of(&waves(c_out, seed + 4)),
        last,
    }
}

fn time_decoder(c: usize, c_out: usize, last: bool, seed: usize) -> TDecLayer<f32> {
    TDecLayer {
        rewrite: conv1d_of(2 * c, c, 3, seed),
        rewrite_bias: bias_of(&waves(2 * c, seed + 1)),
        dconv: residual(c, seed + 2),
        conv_tr: conv1d_of(c_out, c, 8, seed + 3),
        conv_tr_bias: bias_of(&waves(c_out, seed + 4)),
        last,
    }
}

fn attends_to_itself(d: usize, heads: usize, seed: usize) -> TransformerLayerWeights<f32> {
    TransformerLayerWeights { self_attn: Some(self_layer(d, heads, 5, seed)), cross_attn: None }
}

fn attends_to_other(d: usize, heads: usize, seed: usize) -> TransformerLayerWeights<f32> {
    TransformerLayerWeights { self_attn: None, cross_attn: Some(cross_layer(d, heads, 5, seed)) }
}

/// A transformer of width `d` around a bottleneck of `c` channels.
fn small_transformer(c: usize, d: usize, heads: usize) -> CrossDomainTransformer<f32> {
    CrossDomainTransformer {
        norm_in: layer_norm_of(d, 1),
        norm_in_t: layer_norm_of(d, 3),
        channel_upsampler: Some(conv1d_of(d, c, 1, 5)),
        channel_upsampler_bias: Some(waves(d, 6)),
        channel_downsampler: Some(conv1d_of(c, d, 1, 7)),
        channel_downsampler_bias: Some(waves(c, 8)),
        channel_upsampler_t: Some(conv1d_of(d, c, 1, 9)),
        channel_upsampler_t_bias: Some(waves(d, 10)),
        channel_downsampler_t: Some(conv1d_of(c, d, 1, 11)),
        channel_downsampler_t_bias: Some(waves(c, 12)),
        layers: vec![
            attends_to_itself(d, heads, 13),
            attends_to_other(d, heads, 40),
            attends_to_itself(d, heads, 70),
            attends_to_other(d, heads, 100),
            attends_to_itself(d, heads, 130),
        ],
        layers_t: vec![
            attends_to_itself(d, heads, 160),
            attends_to_other(d, heads, 190),
            attends_to_itself(d, heads, 220),
            attends_to_other(d, heads, 250),
            attends_to_itself(d, heads, 280),
        ],
    }
}

/// A network of two sources with few channels.
fn small_network() -> HTDemucs<f32> {
    HTDemucs {
        encoders: vec![
            freq_encoder(4, 2, 1),
            freq_encoder(2, 3, 50),
            freq_encoder(3, 4, 100),
            freq_encoder(4, 6, 150),
        ],
        tencoders: vec![
            time_encoder(2, 2, 200),
            time_encoder(2, 3, 250),
            time_encoder(3, 4, 300),
            time_encoder(4, 6, 350),
        ],
        crosstransformer: small_transformer(6, 8, 2),
        decoders: vec![
            freq_decoder(6, 4, false, 400),
            freq_decoder(4, 3, false, 450),
            freq_decoder(3, 2, false, 500),
            freq_decoder(2, 8, true, 550),
        ],
        tdecoders: vec![
            time_decoder(6, 4, false, 600),
            time_decoder(4, 3, false, 650),
            time_decoder(3, 2, false, 700),
            time_decoder(2, 4, true, 750),
        ],
        freq_emb: FreqEmb { data: waves(64 * 2, 900), n_bins: 64, dim: 2 },
        n_sources: 2,
        bottom_channels: 8,
    }
}

#[test]
fn cuda_gelu_matches_cpu() {
    let n = 1024usize;
    let input: Vec<f32> = (0..n).map(|i| (i as f32 - 512.0) / 100.0).collect();
    let mut cpu = input.clone();
    ops_cpu::gelu(&Single, &mut cpu);
    let mut up = Uploads::new();
    let x = put2(&mut up, &input, [1, n]);
    let mut p = up.program();
    let y = gelu_inplace(&mut p, x).expect("gelu");
    let gpu = fetch(&up, &p, y);
    let tol = (max_abs(&cpu) * 1e-2).max(5e-2);
    assert!(max_diff(&cpu, &gpu) < tol);
    assert!(max_diff(&cpu, &gpu) < 1e-5);
}

#[test]
fn cuda_layer_scale_matches_cpu() {
    let c = 64usize;
    let l = 32usize;
    let input = ramp(c * l, 0.01, -0.5);
    let scale: Vec<f32> = (0..c).map(|i| 0.5 + (i as f32) * 0.02).collect();
    let mut cpu = input.clone();
    ops_cpu::layer_scale(&Single, &mut cpu, [1, c, l], &LayerScale { scale: scale.clone() });
    let mut up = Uploads::new();
    let s = GpuLayerScale::from_cpu(&mut up, &LayerScale { scale }).expect("scale");
    let x = put3(&mut up, &input, [1, c, l]);
    let mut p = up.program();
    let y = layer_scale_inplace(&mut p, x, &s).expect("layer_scale");
    let gpu = fetch(&up, &p, y);
    let tol = (max_abs(&cpu) * 1e-2).max(5e-2);
    assert!(max_diff(&cpu, &gpu) < tol);
}

#[test]
fn cuda_add_to_matches_cpu() {
    let n = 2048usize;
    let a = ramp(n, 0.001, 0.0);
    let b: Vec<f32> = (0..n).map(|i| 1.0 - (i as f32) * 0.0005).collect();
    let cpu: Vec<f32> = a.iter().zip(&b).map(|(x, y)| x + y).collect();
    let mut up = Uploads::new();
    let x = put2(&mut up, &a, [1, n]);
    let y = put2(&mut up, &b, [1, n]);
    let mut p = up.program();
    let z = add_to(&mut p, x, y).expect("add_to");
    let gpu = fetch(&up, &p, z);
    let tol = (max_abs(&cpu) * 1e-2).max(5e-2);
    assert!(max_diff(&cpu, &gpu) < tol);
}

#[test]
fn cuda_linear_with_bias_matches_cpu() {
    let outer = 3;
    let in_dim = 8;
    let out_dim = 4;
    let input = ramp(outer * in_dim, 0.1, -0.5);
    let cpu_w = ramp(out_dim * in_dim, 0.07, 0.0);
    let cpu_b: Vec<f32> = (0..out_dim).map(|i| 0.1 * i as f32 - 0.2).collect();
    let mut cpu_out = vec![0.0f32; outer * out_dim];
    for o in 0..outer {
        for j in 0..out_dim {
            let mut sum = cpu_b[j];
            for k in 0..in_dim {
                sum += input[o * in_dim + k] * cpu_w[j * in_dim + k];
            }
            cpu_out[o * out_dim + j] = sum;
        }
    }
    let mut up = Uploads::new();
    let w = GpuWeight2D::from_cpu(&mut up, &Weight2D { data: cpu_w, rows: out_dim, cols: in_dim }).expect("w");
    let b = GpuBias::from_cpu(&mut up, &bias_of(&cpu_b)).expect("b");
    let x = put2(&mut up, &input, [outer, in_dim]);
    let mut p = up.program();
    let y = linear_with_bias(&mut p, x, &w, &b).expect("linear");
    let gpu = fetch(&up, &p, y);
    let tol = (max_abs(&cpu_out) * 1e-2).max(5e-2);
    assert!(max_diff(&cpu_out, &gpu) < tol);
}

#[test]
fn cuda_conv1d_k3_dilation_matches_cpu() {
    for dilation in [1usize, 2, 4] {
        let b = 1;
        let c_in = 2;
        let l = 8;
        let c_out = 3;
        let k = 3;
        let pad = dilation;
        let input = ramp(b * c_in * l, 0.1, -0.5);
        let w_data = ramp(c_out * c_in * k, 0.07, -0.3);
        let b_data: Vec<f32> = (0..c_out).map(|i| 0.1 * i as f32 - 0.15).collect();
        let l_out = (l + 2 * pad - dilation * (k - 1) - 1) / 1 + 1;
        assert_eq!(l_out, l);
        let mut cpu_out = vec![0.0f32; b * c_out * l_out];
        for ol in 0..l_out {
            for co in 0..c_out {
                let mut sum = b_data[co];
                for ci in 0..c_in {
                    for dk in 0..k {
                        let il = ol as isize + dk as isize * dilation as isize - pad as isize;
                        if il >= 0 && (il as usize) < l {
                            sum += input[ci * l + il as usize] * w_data[(co * c_in + ci) * k + dk];
                        }
                    }
                }
                cpu_out[co * l_out + ol] = sum;
            }
        }
        let weight = Conv1dWeight { data: w_data, out_ch: c_out, in_ch: c_in, k };
        let mut up = Uploads::new();
        let w = GpuConv1dWeight::from_cpu(&mut up, &weight).expect("w");
        let bias = GpuBias::from_cpu(&mut up, &bias_of(&b_data)).expect("b");
        let x = put3(&mut up, &input, [b, c_in, l]);
        let mut p = up.program();
        let y = conv1d_k3_dilation(&mut p, x, &w, &bias, dilation).expect("conv");
        let gpu = fetch(&up, &p, y);
        assert_eq!(y.shape(), vec![b, c_out, l]);
        let tol = (max_abs(&cpu_out) * 1e-2).max(5e-2);
        assert!(max_diff(&cpu_out, &gpu) < tol);
        let (ops, shape) = ops_cpu::conv1d(&Single, &input, [b, c_in, l], &weight, &bias_of(&b_data), pad, dilation);
        assert_eq!(shape, [b, c_out, l]);
        assert!(max_diff(&ops, &gpu) < 1e-4);
    }
}

#[test]
fn cuda_conv1d_k1_matches_cpu() {
    let b = 1;
    let c_in = 2;
    let l = 6;
    let c_out = 3;
    let input = ramp(b * c_in * l, 0.1, -0.5);
    let w_data = ramp(c_out * c_in, 0.07, -0.3);
    let b_data: Vec<f32> = (0..c_out).map(|i| 0.1 * i as f32 - 0.15).collect();
    let mut cpu_out = vec![0.0f32; b * c_out * l];
    for co in 0..c_out {
        for ol in 0..l {
            let mut sum = b_data[co];
            for ci in 0..c_in {
                sum += input[ci * l + ol] * w_data[co * c_in + ci];
            }
            cpu_out[co * l + ol] = sum;
        }
    }
    let weight = Conv1dWeight { data: w_data, out_ch: c_out, in_ch: c_in, k: 1 };
    let mut up = Uploads::new();
    let w = GpuConv1dWeight::from_cpu(&mut up, &weight).expect("w");
    let bias = GpuBias::from_cpu(&mut up, &bias_of(&b_data)).expect("b");
    let x = put3(&mut up, &input, [b, c_in, l]);
    let mut p = up.program();
    let y = conv1d_k1(&mut p, x, &w, &bias).expect("conv");
    let gpu = fetch(&up, &p, y);
    let tol = (max_abs(&cpu_out) * 1e-2).max(5e-2);
    assert!(max_diff(&cpu_out, &gpu) < tol);
}

#[test]
fn cuda_conv1d_k8_s4p2_matches_cpu() {
    let b = 1;
    let c_in = 2;
    let l = 12;
    let c_out = 3;
    let k = 8;
    let input = ramp(b * c_in * l, 0.1, -0.5);
    let w_data = ramp(c_out * c_in * k, 0.07, -0.3);
    let b_data: Vec<f32> = (0..c_out).map(|i| 0.1 * i as f32 - 0.15).collect();
    let pad = 2;
    let stride = 4;
    let l_out = (l + 2 * pad - k) / stride + 1;
    let mut cpu_out = vec![0.0f32; b * c_out * l_out];
    for ol in 0..l_out {
        for co in 0..c_out {
            let mut sum = b_data[co];
            for ci in 0..c_in {
                for dk in 0..k {
                    let il = ol as isize * stride as isize + dk as isize - pad as isize;
                    if il >= 0 && (il as usize) < l {
                        sum += input[ci * l + il as usize] * w_data[(co * c_in + ci) * k + dk];
                    }
                }
            }
            cpu_out[co * l_out + ol] = sum;
        }
    }
    let weight = Conv1dWeight { data: w_data, out_ch: c_out, in_ch: c_in, k };
    let mut up = Uploads::new();
    let w = GpuConv1dWeight::from_cpu(&mut up, &weight).expect("w");
    let bias = GpuBias::from_cpu(&mut up, &bias_of(&b_data)).expect("b");
    let x = put3(&mut up, &input, [b, c_in, l]);
    let mut p = up.program();
    let y = conv1d_k8_s4p2(&mut p, x, &w, &bias).expect("conv");
    let gpu = fetch(&up, &p, y);
    assert_eq!(y.shape(), vec![1, 3, 3]);
    let tol = (max_abs(&cpu_out) * 1e-2).max(5e-2);
    assert!(max_diff(&cpu_out, &gpu) < tol);
}

#[test]
fn cuda_conv2d_8x1_s4p2_matches_cpu() {
    let b = 1;
    let c_in = 2;
    let h = 8;
    let w = 4;
    let kh = 8;
    let kw = 1;
    let c_out = 3;
    let pad_h = 2;
    let stride_h = 4;
    let h_out = (h + 2 * pad_h - kh) / stride_h + 1;
    let w_out = w;
    let input = ramp(b * c_in * h * w, 0.1, -0.5);
    let w_data = ramp(c_out * c_in * kh * kw, 0.07, -0.3);
    let b_data: Vec<f32> = (0..c_out).map(|i| 0.1 * i as f32 - 0.15).collect();
    let mut cpu_out = vec![0.0f32; b * c_out * h_out * w_out];
    for co in 0..c_out {
        for oh in 0..h_out {
            for ow in 0..w_out {
                let mut sum = b_data[co];
                for ci in 0..c_in {
                    for dkh in 0..kh {
                        let ih = (oh * stride_h + dkh) as isize - pad_h as isize;
                        if ih >= 0 && (ih as usize) < h {
                            sum += input[(ci * h + ih as usize) * w + ow] * w_data[(co * c_in + ci) * kh + dkh];
                        }
                    }
                }
                cpu_out[(co * h_out + oh) * w_out + ow] = sum;
            }
        }
    }
    let weight = Conv2dWeight { data: w_data, out_ch: c_out, in_ch: c_in, kh, kw };
    let mut up = Uploads::new();
    let gw = GpuConv2dWeight::from_cpu(&mut up, &weight).expect("w");
    let bias = GpuBias::from_cpu(&mut up, &bias_of(&b_data)).expect("b");
    let x = put4(&mut up, &input, [b, c_in, h, w]);
    let mut p = up.program();
    let y = conv2d_8x1_s4p2(&mut p, x, &gw, &bias).expect("conv");
    let gpu = fetch(&up, &p, y);
    assert_eq!(y.shape(), vec![1, 3, 2, 4]);
    let tol = (max_abs(&cpu_out) * 1e-2).max(5e-2);
    assert!(max_diff(&cpu_out, &gpu) < tol);
    let (ops, _) = ops_cpu::conv2d(&Single, &input, [b, c_in, h, w], &weight, &bias_of(&b_data), 2, 0, 4, 1);
    assert!(max_diff(&ops, &gpu) < 1e-4);
}

#[test]
fn cuda_correctness_cuda_groupnorm1_matches_cpu() {
    let b = 2;
    let c = 4;
    let l = 8;
    let input = ramp(b * c * l, 0.1, -0.3);
    let gn = GroupNorm1 {
        gamma: (0..c).map(|i| 0.5 + 0.1 * i as f32).collect(),
        beta: (0..c).map(|i| -0.2 + 0.05 * i as f32).collect(),
        num_channels: c,
    };
    let mut cpu = input.clone();
    ops_cpu::groupnorm1(&Single, &mut cpu, [b, c, l], &gn);
    let mut up = Uploads::new();
    let g = GpuGroupNorm1::from_cpu(&mut up, &gn).expect("gn");
    let x = put3(&mut up, &input, [b, c, l]);
    let mut p = up.program();
    let y = groupnorm1_inplace(&mut p, x, &g).expect("groupnorm1");
    let gpu = fetch(&up, &p, y);
    let tol = (max_abs(&cpu) * 1e-2).max(5e-2);
    assert!(max_diff(&cpu, &gpu) < tol);
}

#[test]
fn cuda_glu_channel_matches_cpu() {
    let b = 1;
    let c2 = 4;
    let l = 6;
    let input = ramp(b * c2 * l, 0.2, -0.5);
    let (cpu, _) = ops_cpu::glu_channel(&Single, &input, [b, c2, l]);
    let mut up = Uploads::new();
    let x = put3(&mut up, &input, [b, c2, l]);
    let mut p = up.program();
    let y = glu_channel(&mut p, x).expect("glu");
    let gpu = fetch(&up, &p, y);
    let tol = (max_abs(&cpu) * 1e-2).max(5e-2);
    assert!(max_diff(&cpu, &gpu) < tol);
}

#[test]
fn cuda_glu_matches_pytorch() {
    let c = 48;
    let l = 256;
    let input: Vec<f32> = (0..2 * c * l).map(|i| ((i as f32) * 0.01).sin() * 3.0).collect();
    let mut up = Uploads::new();
    let x = put3(&mut up, &input, [1, 2 * c, l]);
    let mut p = up.program();
    let y = glu_channel(&mut p, x).expect("glu");
    assert_eq!(y.shape(), vec![1, c, l]);
    assert_eq!(fetch(&up, &p, y).len(), c * l);
}

#[test]
fn cuda_glu_real_matches_cpu() {
    let b = 1;
    let c2 = 96;
    let l = 16 * 32;
    let input = ramp(b * c2 * l, 0.013, -0.3);
    let (cpu, shape) = ops_cpu::glu_channel(&Single, &input, [b, c2, l]);
    assert_eq!(shape, [1, 48, 512]);
    let mut up = Uploads::new();
    let x = put3(&mut up, &input, [b, c2, l]);
    let mut p = up.program();
    let y = glu_channel(&mut p, x).expect("glu");
    let gpu = fetch(&up, &p, y);
    let tol = (max_abs(&cpu) * 0.05).max(5e-2);
    assert!(max_diff(&cpu, &gpu) < tol);
}

#[test]
fn cuda_denorm_freq_matches_cpu() {
    let (b, c, h, w) = (2, 3, 4, 5);
    let n = c * h * w;
    let input = ramp(b * n, 0.05, -0.3);
    let mean: Vec<f32> = (0..b).map(|i| 0.1 * i as f32 - 0.05).collect();
    let std: Vec<f32> = (0..b).map(|i| 0.5 + 0.1 * i as f32).collect();
    let mut cpu = input.clone();
    ops_cpu::denormalize_freq(&Single, &mut cpu, [b, c, h, w], &mean, &std);
    let mut up = Uploads::new();
    let x = put4(&mut up, &input, [b, c, h, w]);
    let m = put2(&mut up, &mean, [b, 1]);
    let s = put2(&mut up, &std, [b, 1]);
    let mut p = up.program();
    let y = denorm_freq_inplace(&mut p, x, m, s).expect("denorm");
    let gpu = fetch(&up, &p, y);
    let tol = (max_abs(&cpu) * 1e-2).max(5e-2);
    assert!(max_diff(&cpu, &gpu) < tol);
    // Normalizing with the same numbers gives the input back, but for what keeps a division
    // away from zero.
    let back = norm_freq_inplace(&mut p, y, m, s, Factor::Epsilon).expect("norm");
    assert!(max_diff(&input, &fetch(&up, &p, back)) < 1e-3);
}

#[test]
fn cuda_conv_transpose2d_8x1_s4p2_matches_cpu() {
    let b = 1;
    let c_in = 2;
    let h_in = 2;
    let w_in = 4;
    let kh = 8;
    let kw = 1;
    let c_out = 3;
    let pad_h = 2;
    let stride_h = 4;
    let h_out = (h_in - 1) * stride_h + (kh - 1) - 2 * pad_h + 1;
    let w_out = w_in;
    let input = ramp(b * c_in * h_in * w_in, 0.1, -0.5);
    let mut w_pt: Vec<f32> = Vec::new();
    for ic in 0..c_in {
        for oc in 0..c_out {
            for dkh in 0..kh {
                w_pt.push(((ic * c_out + oc) * kh + dkh) as f32 * 0.07 - 0.3);
            }
        }
    }
    let b_data: Vec<f32> = (0..c_out).map(|i| 0.1 * i as f32 - 0.15).collect();
    let mut reordered = vec![0.0f32; c_in * kh * kw * c_out];
    for ic in 0..c_in {
        for oc in 0..c_out {
            for dkh in 0..kh {
                reordered[(ic * kh + dkh) * c_out + oc] = w_pt[(ic * c_out + oc) * kh + dkh];
            }
        }
    }
    let mut cpu_out = vec![0.0f32; b * c_out * h_out * w_out];
    for oh in 0..h_out {
        for ow in 0..w_out {
            for co in 0..c_out {
                let mut sum = b_data[co];
                for ci in 0..c_in {
                    for dkh in 0..kh {
                        let oh_p = oh as isize + pad_h as isize - dkh as isize;
                        if oh_p < 0 || oh_p % stride_h as isize != 0 {
                            continue;
                        }
                        let ih = (oh_p / stride_h as isize) as usize;
                        if ih < h_in {
                            sum += input[(ci * h_in + ih) * w_in + ow] * w_pt[(ci * c_out + co) * kh + dkh];
                        }
                    }
                }
                cpu_out[(co * h_out + oh) * w_out + ow] = sum;
            }
        }
    }
    let weight = Conv2dWeight { data: reordered, out_ch: c_out, in_ch: c_in, kh, kw };
    let mut up = Uploads::new();
    let w = GpuConvTranspose2dWeight::from_cpu(&mut up, &weight).expect("w");
    let bias = GpuBias::from_cpu(&mut up, &bias_of(&b_data)).expect("b");
    let x = put4(&mut up, &input, [b, c_in, h_in, w_in]);
    let mut p = up.program();
    let y = conv_transpose2d_8x1_s4p2(&mut p, x, &w, &bias).expect("conv");
    let gpu = fetch(&up, &p, y);
    assert_eq!(y.shape(), vec![1, 3, 8, 4]);
    let tol = (max_abs(&cpu_out) * 1e-2).max(5e-2);
    assert!(max_diff(&cpu_out, &gpu) < tol);
    let (ops, _) =
        ops_cpu::conv_transpose2d(&Single, &input, [b, c_in, h_in, w_in], &weight, &bias_of(&b_data), 2, 0, 4, 1);
    assert!(max_diff(&ops, &gpu) < 1e-4);
}

#[test]
fn batched_gemm_matches_cpu() {
    let (batch, m, k, n) = (3, 5, 4, 6);
    let a = ramp(batch * m * k, 0.01, -0.3);
    let b = ramp(batch * k * n, 0.02, -0.1);
    let mut cpu = vec![0.0f32; batch * m * n];
    for bi in 0..batch {
        for mi in 0..m {
            for ni in 0..n {
                for ki in 0..k {
                    cpu[bi * m * n + mi * n + ni] += a[bi * m * k + mi * k + ki] * b[bi * k * n + ki * n + ni];
                }
            }
        }
    }
    let mut up = Uploads::new();
    let x = put2(&mut up, &a, [batch, m * k]);
    let y = put2(&mut up, &b, [batch, k * n]);
    let mut p = up.program();
    let z = gemm_strided_batched_f16(&mut p, y.data, x.data, batch, n, m, k, n, k, k * n, m * k).expect("gemm");
    let gpu = fetch(&up, &p, z);
    let tol = (max_abs(&cpu) * 0.05).max(5e-2);
    assert!(max_diff(&cpu, &gpu) < tol);
    assert!(max_diff(&cpu, &gpu) < 1e-5);
}

#[test]
fn conv1d_1x1_small() {
    let (b, cin, l, cout) = (2, 3, 4, 5);
    let x = ramp(b * cin * l, 0.1, -0.3);
    let w = ramp(cout * cin, 0.07, -0.2);
    let bias: Vec<f32> = (0..cout).map(|i| 0.05 * (i as f32)).collect();
    let mut cpu = vec![0.0f32; b * cout * l];
    for bi in 0..b {
        for co in 0..cout {
            for li in 0..l {
                let mut s = bias[co];
                for ci in 0..cin {
                    s += x[(bi * cin + ci) * l + li] * w[co * cin + ci];
                }
                cpu[(bi * cout + co) * l + li] = s;
            }
        }
    }
    let mut up = Uploads::new();
    let gx = put3(&mut up, &x, [b, cin, l]);
    let gw = GpuConv1dWeight::from_cpu(&mut up, &Conv1dWeight { data: w, out_ch: cout, in_ch: cin, k: 1 }).expect("w");
    let gb = GpuBias::from_cpu(&mut up, &bias_of(&bias)).expect("b");
    let mut p = up.program();
    let y = conv1d_1x1(&mut p, gx, &gw, &gb).expect("conv");
    assert!(max_diff(&cpu, &fetch(&up, &p, y)) < 1e-5);
}

#[test]
fn flatten_unflatten_bcft() {
    let (b, c, f, t) = (1, 2, 3, 4);
    let input: Vec<f32> = (0..b * c * f * t).map(|i| i as f32).collect();
    let mut cpu = vec![0.0f32; b * t * f * c];
    for ci in 0..c {
        for fri in 0..f {
            for ti in 0..t {
                cpu[(ti * f + fri) * c + ci] = input[(ci * f + fri) * t + ti];
            }
        }
    }
    let mut up = Uploads::new();
    let x = put4(&mut up, &input, [b, c, f, t]);
    let mut p = up.program();
    let flat = flatten_bcft_to_btfc(&mut p, x).expect("flat");
    assert!(max_diff(&cpu, &fetch(&up, &p, flat)) < 1e-3);
    let back = unflatten_btfc_to_bcft(&mut p, flat, f, t).expect("unflat");
    assert!(max_diff(&input, &fetch(&up, &p, back)) < 1e-3);
    assert_eq!(back.shape(), vec![b, c, f, t]);
}

#[test]
fn cuda_gemm_identity() {
    let a: Vec<f32> = vec![1.0, 2.0, 3.0, 4.0, 5.0, 6.0];
    let i_mat: Vec<f32> = vec![1.0, 0.0, 0.0, 0.0, 1.0, 0.0, 0.0, 0.0, 1.0];
    let mut up = Uploads::new();
    let x = put2(&mut up, &a, [2, 3]);
    let i = put2(&mut up, &i_mat, [3, 3]);
    let mut p = up.program();
    let c = gemm_f16(&mut p, x.data, i.data, 2, 3, 3).expect("gemm");
    let got = fetch(&up, &p, c);
    let expected = vec![1.0f32, 2.0, 3.0, 4.0, 5.0, 6.0];
    assert!(max_diff(&got, &expected) < 1e-2);
}

#[test]
fn cuda_gemm_3x4_4x2() {
    let a: Vec<f32> = vec![1.0, 2.0, 3.0, 4.0, 5.0, 6.0, 7.0, 8.0, 9.0, 10.0, 11.0, 12.0];
    let b: Vec<f32> = vec![1.0, 2.0, 3.0, 4.0, 5.0, 6.0, 7.0, 8.0];
    let expected: Vec<f32> = vec![50.0, 60.0, 114.0, 140.0, 178.0, 220.0];
    let mut up = Uploads::new();
    let x = put2(&mut up, &a, [3, 4]);
    let y = put2(&mut up, &b, [4, 2]);
    let mut p = up.program();
    let c = gemm_f16(&mut p, x.data, y.data, 3, 2, 4).expect("gemm");
    assert!(max_diff(&fetch(&up, &p, c), &expected) < 1.0);
}

#[test]
fn cuda_mha_self_matches_cpu() {
    let (b, s, d, h) = (1, 8, 16, 4);
    let input: Vec<f32> = (0..b * s * d).map(|i| ((i as f32) * 0.07 - 0.3) * 0.5).collect();
    let weights = MhaWeights {
        in_proj_weight: (0..3 * d * d).map(|i| ((i as f32) * 0.013 - 0.3) * 0.1).collect(),
        in_proj_bias: (0..3 * d).map(|i| 0.1 * (i as f32) - 0.2).collect(),
        out_proj_weight: (0..d * d).map(|i| ((i as f32) * 0.011 - 0.3) * 0.1).collect(),
        out_proj_bias: (0..d).map(|i| 0.05 * (i as f32) - 0.05).collect(),
        d_model: d,
        n_heads: h,
    };
    let (cpu, _) = ops_cpu::mha_self(&Single, &input, [b, s, d], &weights);
    let mut up = Uploads::new();
    let w = GpuMhaWeights::from_cpu(&mut up, &weights).expect("mha");
    let x = put3(&mut up, &input, [b, s, d]);
    let mut p = up.program();
    let y = mha(&mut p, x, x, &w).expect("mha");
    let gpu = fetch(&up, &p, y);
    let rms = (cpu.iter().zip(&gpu).map(|(a, b)| (a - b).powi(2)).sum::<f32>() / cpu.len() as f32).sqrt();
    let tol = (max_abs(&cpu) * 0.05).max(1e-2);
    assert!(rms < tol);
    assert!(max_diff(&cpu, &gpu) < 1e-3 * max_abs(&cpu));
}

#[test]
fn copy_per_head_clone_vs_mut() {
    let (bh, s, d) = (2, 3, 4);
    let input: Vec<f32> = (0..bh * s * d).map(|i| i as f32).collect();
    let head1: Vec<f32> = (12..24).map(|i| i as f32).collect();
    let mut up = Uploads::new();
    let x = put3(&mut up, &input, [bh, s, d]);
    let out = put2(&mut up, &vec![0.0f32; s * d], [s, d]);
    let mut p = up.program();
    let y = copy_per_head(&mut p, out, x, 1, s, d).expect("copy");
    // What was there before the copy stays as it was.
    assert!(max_diff(&fetch(&up, &p, out), &head1) > 10.0);
    assert!(max_diff(&fetch(&up, &p, y), &head1) < 1e-3);
    // Writing the plane back over the first one leaves the second as it was.
    let z = scatter_per_head(&mut p, x, y, 0, s, d).expect("scatter");
    let twice: Vec<f32> = head1.iter().chain(head1.iter()).cloned().collect();
    assert_eq!(fetch(&up, &p, z), twice);
}

#[test]
fn cuda_reshape_bcft_to_bfct_matches_cpu() {
    let (b, c, fr, t) = (2, 3, 4, 5);
    let input: Vec<f32> = (0..b * c * fr * t).map(|i| i as f32).collect();
    let mut cpu_out = vec![0.0f32; b * c * fr * t];
    for bi in 0..b {
        for ci in 0..c {
            for fri in 0..fr {
                for ti in 0..t {
                    cpu_out[((bi * fr + fri) * c + ci) * t + ti] = input[((bi * c + ci) * fr + fri) * t + ti];
                }
            }
        }
    }
    let mut up = Uploads::new();
    let x = put4(&mut up, &input, [b, c, fr, t]);
    let mut p = up.program();
    let y = reshape_bcft_to_bfct(&mut p, x).expect("reshape");
    assert!(max_diff(&cpu_out, &fetch(&up, &p, y)) < 1e-4);
    assert_eq!(y.shape(), vec![b * fr, c, t]);
    let z = reshape_bfct_to_bcft(&mut p, y, b).expect("reshape back");
    assert_eq!(fetch(&up, &p, z), input);
    assert_eq!(z.shape(), vec![b, c, fr, t]);
}

#[test]
fn cuda_transpose_bchw_bhwc_matches_cpu() {
    let (b, c, h, w) = (2, 3, 4, 5);
    let input: Vec<f32> = (0..b * c * h * w).map(|i| i as f32).collect();
    let mut cpu_out = vec![0.0f32; b * c * h * w];
    for bi in 0..b {
        for ci in 0..c {
            for hi in 0..h {
                for wi in 0..w {
                    cpu_out[((bi * h + hi) * w + wi) * c + ci] = input[((bi * c + ci) * h + hi) * w + wi];
                }
            }
        }
    }
    let mut up = Uploads::new();
    let x = put4(&mut up, &input, [b, c, h, w]);
    let mut p = up.program();
    let y = transpose_bchw_to_bhwc(&mut p, x).expect("transpose");
    assert!(max_diff(&cpu_out, &fetch(&up, &p, y)) < 1e-4);
    let z = transpose_bhwc_to_bchw(&mut p, y).expect("transpose back");
    assert_eq!(fetch(&up, &p, z), input);
    assert_eq!(z.shape(), vec![b, c, h, w]);
}

#[test]
fn cuda_conv2d_1x1_small_matches_cpu() {
    let (b, c_in, h, w, c_out) = (1, 3, 2, 4, 2);
    let input = ramp(b * c_in * h * w, 0.1, 0.0);
    let w_data: Vec<f32> = (0..c_out * c_in).map(|i| (i as f32) * 0.5 - 0.3).collect();
    let b_data: Vec<f32> = (0..c_out).map(|i| 0.1 * (i as f32)).collect();
    let mut cpu_out = vec![0.0f32; b * c_out * h * w];
    for co in 0..c_out {
        for ih in 0..h {
            for iw in 0..w {
                let mut sum = b_data[co];
                for ci in 0..c_in {
                    sum += input[(ci * h + ih) * w + iw] * w_data[co * c_in + ci];
                }
                cpu_out[(co * h + ih) * w + iw] = sum;
            }
        }
    }
    let weight = Conv2dWeight { data: w_data, out_ch: c_out, in_ch: c_in, kh: 1, kw: 1 };
    let mut up = Uploads::new();
    let gw = GpuConv2dWeight::from_cpu(&mut up, &weight).expect("w");
    let bias = GpuBias::from_cpu(&mut up, &bias_of(&b_data)).expect("b");
    let x = put4(&mut up, &input, [b, c_in, h, w]);
    let mut p = up.program();
    let y = conv2d_1x1(&mut p, x, &gw, &bias).expect("conv");
    let gpu = fetch(&up, &p, y);
    let tol = (max_abs(&cpu_out) * 0.05).max(5e-2);
    assert!(max_diff(&cpu_out, &gpu) < tol);
}

#[test]
fn other_convolutions_agree_with_the_processor() {
    let x4 = waves(2 * 3 * 4 * 5, 1);
    let w2 = conv2d_of(2, 3, 3, 3, 2);
    let b2 = bias_of(&waves(2, 3));
    let x3 = waves(2 * 3 * 5, 4);
    let w1 = conv1d_of(2, 3, 8, 5);
    let b1 = bias_of(&waves(2, 6));
    let mut up = Uploads::new();
    let gw2 = GpuConv2dWeight::from_cpu(&mut up, &w2).expect("w2");
    let gb2 = GpuBias::from_cpu(&mut up, &b2).expect("b2");
    let gw1 = GpuConvTranspose1dWeight::from_cpu(&mut up, &w1).expect("w1");
    let gb1 = GpuBias::from_cpu(&mut up, &b1).expect("b1");
    let g4 = put4(&mut up, &x4, [2, 3, 4, 5]);
    let g3 = put3(&mut up, &x3, [2, 3, 5]);
    let mut p = up.program();
    let y2 = conv2d_3x3_s1p1(&mut p, g4, &gw2, &gb2).expect("conv2d");
    let y1 = conv_transpose1d_8_s4p2(&mut p, g3, &gw1, &gb1).expect("conv1d");
    let (c2, s2) = ops_cpu::conv2d(&Single, &x4, [2, 3, 4, 5], &w2, &b2, 1, 1, 1, 1);
    let (c1, s1) = ops_cpu::conv_transpose1d(&Single, &x3, [2, 3, 5], &w1, &b1, 2, 4);
    assert_eq!(y2.shape(), s2.to_vec());
    assert_eq!(y1.shape(), s1.to_vec());
    assert!(max_diff(&c2, &fetch(&up, &p, y2)) < 1e-5);
    assert!(max_diff(&c1, &fetch(&up, &p, y1)) < 1e-5);
}

#[test]
fn residual_branch_agrees_with_the_processor() {
    let c = 4;
    let l = 9;
    let x = waves(2 * c * l, 7);
    let stack = residual(c, 11);
    let mut up = Uploads::new();
    let g = GpuDConv::from_cpu(&mut up, &stack).expect("stack");
    let first = GpuDConvLayer::from_cpu(&mut up, &stack.layers[0]).expect("layer");
    let gx = put3(&mut up, &x, [2, c, l]);
    let mut p = up.program();
    let one = dconv_layer(&mut p, gx, &first, 1).expect("one layer");
    let both = dconv(&mut p, gx, &g).expect("both layers");
    let (cpu_one, _) = ops_cpu::dconv_layer_forward(&Single, &x, [2, c, l], &stack.layers[0], 1);
    let (cpu_both, shape) = ops_cpu::dconv_forward(&Single, &x, [2, c, l], &stack);
    assert_eq!(shape, [2, c, l]);
    assert_eq!(both.shape(), vec![2, c, l]);
    assert!(max_diff(&cpu_one, &fetch(&up, &p, one)) < 1e-4);
    assert!(max_diff(&cpu_both, &fetch(&up, &p, both)) < 1e-4);
}

#[test]
fn encoder_layers_agree_with_the_processor() {
    let henc = freq_encoder(4, 3, 21);
    let tenc = time_encoder(2, 3, 51);
    let x = waves(4 * 16 * 5, 8);
    // A length that is no multiple of four is filled up first.
    let t = waves(2 * 21, 9);
    let mut up = Uploads::new();
    let gh = GpuHEncLayer::from_cpu(&mut up, &henc).expect("henc");
    let gt = GpuTEncLayer::from_cpu(&mut up, &tenc).expect("tenc");
    let x4 = put4(&mut up, &x, [1, 4, 16, 5]);
    let x3 = put3(&mut up, &t, [1, 2, 21]);
    let mut p = up.program();
    let yh = henc_layer(&mut p, x4, &gh).expect("henc");
    let yt = tenc_layer(&mut p, x3, &gt).expect("tenc");
    let (ch, sh) = ops_cpu::henc_layer_forward(&Single, &x, [1, 4, 16, 5], &henc);
    let (ct, st) = ops_cpu::tenc_layer_forward(&Single, &t, [1, 2, 21], &tenc);
    assert_eq!(sh, [1, 3, 4, 5]);
    assert_eq!(st, [1, 3, 6]);
    assert_eq!(yh.shape(), sh.to_vec());
    assert_eq!(yt.shape(), st.to_vec());
    assert!(max_diff(&ch, &fetch(&up, &p, yh)) < 1e-4);
    assert!(max_diff(&ct, &fetch(&up, &p, yt)) < 1e-4);
}

#[test]
fn decoder_layers_agree_with_the_processor() {
    for last in [false, true] {
        let hdec = freq_decoder(3, 2, last, 31);
        let tdec = time_decoder(3, 2, last, 61);
        let x = waves(3 * 4 * 5, 1);
        let skip = waves(3 * 4 * 5, 2);
        let t = waves(3 * 6, 3);
        let tskip = waves(3 * 6, 4);
        let mut up = Uploads::new();
        let gh = GpuHDecLayer::from_cpu(&mut up, &hdec).expect("hdec");
        let gt = GpuTDecLayer::from_cpu(&mut up, &tdec).expect("tdec");
        let gx = put4(&mut up, &x, [1, 3, 4, 5]);
        let gs = put4(&mut up, &skip, [1, 3, 4, 5]);
        let tx = put3(&mut up, &t, [1, 3, 6]);
        let ts = put3(&mut up, &tskip, [1, 3, 6]);
        let mut p = up.program();
        let yh = hdec_layer(&mut p, gx, gs, 16, &gh).expect("hdec");
        let yt = tdec_layer(&mut p, tx, ts, 21, &gt).expect("tdec");
        let (ch, sh) = ops_cpu::hdec_layer_forward(&Single, &x, [1, 3, 4, 5], &skip, [1, 3, 4, 5], 16, &hdec);
        let (ct, st) = ops_cpu::tdec_layer_forward(&Single, &t, [1, 3, 6], &tskip, [1, 3, 6], 21, &tdec);
        assert_eq!(sh, [1, 2, 16, 5]);
        assert_eq!(st, [1, 2, 21]);
        assert_eq!(yh.shape(), sh.to_vec());
        assert_eq!(yt.shape(), st.to_vec());
        assert!(max_diff(&ch, &fetch(&up, &p, yh)) < 1e-4);
        assert!(max_diff(&ct, &fetch(&up, &p, yt)) < 1e-4);
    }
}

#[test]
fn attention_layers_agree_with_the_processor() {
    let d = 8;
    let own = self_layer(d, 2, 5, 71);
    let other = cross_layer(d, 2, 5, 91);
    let q = waves(2 * 4 * d, 1);
    let kv = waves(2 * 6 * d, 2);
    let mut up = Uploads::new();
    let gs = GpuSelfAttnLayer::from_cpu(&mut up, &own).expect("own");
    let gc = GpuCrossAttnLayer::from_cpu(&mut up, &other).expect("other");
    let gq = put3(&mut up, &q, [2, 4, d]);
    let gkv = put3(&mut up, &kv, [2, 6, d]);
    let mut p = up.program();
    let ys = self_attn_layer(&mut p, gq, &gs).expect("own");
    let yc = cross_attn_layer(&mut p, gq, gkv, &gc).expect("other");
    let (cs, _) = ops_cpu::self_attn_layer_forward(&Single, &q, [2, 4, d], &own);
    let (cc, shape) = ops_cpu::cross_attn_layer_forward(&Single, &q, [2, 4, d], &kv, [2, 6, d], &other);
    assert_eq!(shape, [2, 4, d]);
    assert!(max_diff(&cs, &fetch(&up, &p, ys)) < 1e-4);
    assert!(max_diff(&cc, &fetch(&up, &p, yc)) < 1e-4);
}

#[test]
fn transformer_agrees_with_the_processor() {
    let (c, d) = (6, 8);
    let ct = small_transformer(c, d, 2);
    let freq = waves(c * 3 * 5, 1);
    let time = waves(c * 7, 2);
    let fpe = ops_cpu::sin_embed_2d(&Single, d, 3, 5);
    let tpe = ops_cpu::sin_embed_1d(&Single, 7, d);
    let mut up = Uploads::new();
    let g = GpuCrossDomainTransformer::from_cpu(&mut up, &ct).expect("transformer");
    let gf = put4(&mut up, &freq, [1, c, 3, 5]);
    let gt = put3(&mut up, &time, [1, c, 7]);
    let pf = put3(&mut up, &fpe, [1, 15, d]);
    let pt = put3(&mut up, &tpe, [1, 7, d]);
    let mut p = up.program();
    let (yf, yt) = cross_domain_transformer(&mut p, gf, gt, &g, pf, pt).expect("transformer");
    let (cf, sf, ctime, st) =
        ops_cpu::cross_domain_transformer_forward(&Single, &freq, [1, c, 3, 5], &time, [1, c, 7], &ct);
    assert_eq!(sf, [1, c, 3, 5]);
    assert_eq!(st, [1, c, 7]);
    assert_eq!(yf.shape(), sf.to_vec());
    assert_eq!(yt.shape(), st.to_vec());
    assert!(max_diff(&cf, &fetch(&up, &p, yf)) < 1e-3);
    assert!(max_diff(&ctime, &fetch(&up, &p, yt)) < 1e-3);
}

#[test]
fn network_agrees_with_the_processor() {
    let m = small_network();
    let freq = waves(4 * 256 * 3, 1);
    let time = waves(2 * 1500, 2);
    let (cf, sf, ct, st) = ops_cpu::htdemucs_forward(&Single, &freq, [1, 4, 256, 3], &time, [1, 2, 1500], &m);
    assert_eq!(sf, [1, 8, 256, 3]);
    assert_eq!(st, [1, 4, 1500]);
    // The device works on standardized input and leaves the output so.
    let (nf, _, fmean, _, fstd, _) = ops_cpu::normalize_freq(&Single, &freq, [1, 4, 256, 3]);
    let (nt, _, tmean, _, tstd, _) = ops_cpu::normalize_time(&Single, &time, [1, 2, 1500]);
    let mut up = Uploads::new();
    let g = GpuHTDemucs::from_cpu(&mut up, &m).expect("network");
    let mut p = up.program();
    let weights = p.steps.len();
    p.steps.push(Step::Input { slot: 0, len: nf.len() });
    p.steps.push(Step::Input { slot: 1, len: nt.len() });
    let gf = tensor4(weights, nf.len(), 1, 4, 256, 3);
    let gt = tensor3(weights + 1, nt.len(), 1, 2, 1500);
    let out = htdemucs_forward(&Single, &mut p, gf, gt, &g).expect("forward");
    assert_eq!(out.freq.shape(), sf.to_vec());
    assert_eq!(out.time.shape(), st.to_vec());
    let tables = vec![out.freq_table, out.time_table];
    let values = perform(&p, &up.arrays, &tables, &vec![nf, nt]);
    let mut f = values[out.freq.data.id].clone();
    let mut t = values[out.time.data.id].clone();
    ops_cpu::denormalize_freq(&Single, &mut f, sf, &fmean, &fstd);
    ops_cpu::denormalize_time(&Single, &mut t, st, &tmean, &tstd);
    assert!(max_diff(&cf, &f) < 1e-3 * max_abs(&cf).max(1.0));
    assert!(max_diff(&ct, &t) < 1e-3 * max_abs(&ct).max(1.0));
    // No step reads what comes after it, and each is the last to read something or is read
    // later on.
    let last = p.last_uses();
    assert_eq!(last.len(), p.steps.len());
    for (j, step) in p.steps.iter().enumerate() {
        if let Step::Launch(l) = step {
            assert!(l.x < j);
            assert!(last[l.x] >= j);
        }
    }
}

#[test]
fn small_operators_agree_with_the_processor() {
    let x = waves(2 * 3 * 4, 1);
    let ln = layer_norm_of(4, 5);
    let scale = LayerScale { scale: waves(4, 7) };
    let emb = FreqEmb { data: waves(4 * 3, 8), n_bins: 4, dim: 3 };
    let x4 = waves(2 * 3 * 4 * 5, 9);
    let mut up = Uploads::new();
    let gln = GpuLayerNorm1::from_cpu(&mut up, &ln).expect("ln");
    let gscale = GpuLayerScale::from_cpu(&mut up, &scale).expect("scale");
    let gemb = GpuFreqEmb::from_cpu(&mut up, &emb).expect("emb");
    let g = put3(&mut up, &x, [2, 3, 4]);
    let g4 = put4(&mut up, &x4, [2, 3, 4, 5]);
    let mut p = up.program();
    let normed = layer_norm(&mut p, g, &gln, 6, 4).expect("layer_norm");
    let scaled = layer_scale_last_inplace(&mut p, g, &gscale).expect("layer_scale_last");
    let soft = softmax_scaled(&mut p, g, Factor::InverseRoot(4)).expect("softmax");
    let embedded = add_freq_emb_inplace(&mut p, g4, &gemb, Factor::EmbeddingScale).expect("embedding");
    let mut c = x.clone();
    ops_cpu::layernorm(&Single, &mut c, [2, 3, 4], &ln);
    assert!(max_diff(&c, &fetch(&up, &p, normed)) < 1e-5);
    let mut c = x.clone();
    ops_cpu::layer_scale_last(&Single, &mut c, [2, 3, 4], &scale);
    assert!(max_diff(&c, &fetch(&up, &p, scaled)) < 1e-6);
    // One over the square root of four is a half.
    let rows = fetch(&up, &p, soft);
    for r in 0..6 {
        let e: Vec<f32> = x[4 * r..4 * r + 4].iter().map(|v| (v * 0.5).exp()).collect();
        let sum: f32 = e.iter().sum();
        for j in 0..4 {
            assert!((rows[4 * r + j] - e[j] / sum).abs() < 1e-6);
        }
    }
    let e = fetch(&up, &p, embedded);
    assert!((e[0] - (x4[0] + 0.2 * emb.data[0])).abs() < 1e-6);
    assert!((e[3 * 5] - (x4[3 * 5] + 0.2 * emb.data[3 * 3])).abs() < 1e-6);
    assert!((e[4 * 5] - (x4[4 * 5] + 0.2 * emb.data[1])).abs() < 1e-6);
    let doubled = add_freq_emb_inplace(&mut p, g4, &gemb, Factor::Ratio(2, 1)).expect("embedding");
    assert!((fetch(&up, &p, doubled)[4 * 5] - (x4[4 * 5] + 2.0 * emb.data[1])).abs() < 1e-6);
}

#[test]
fn rows_are_cut_and_filled_up() {
    let x: Vec<f32> = (0..12).map(|i| i as f32).collect();
    let mut up = Uploads::new();
    let g3 = put3(&mut up, &x, [1, 3, 4]);
    let g4 = put4(&mut up, &x, [1, 2, 3, 2]);
    let mut p = up.program();
    let cut = trim_l(&mut p, g3, 2).expect("trim_l");
    let longer = pad_l(&mut p, g3, 1).expect("pad_l");
    let lower = trim_h2(&mut p, g4, 2).expect("trim_h2");
    let swapped = swap_dims_12_3d(&mut p, g3).expect("swap");
    let moved = permute_bcft_to_btcf(&mut p, g4).expect("permute");
    assert_eq!(fetch(&up, &p, cut), vec![0.0, 1.0, 4.0, 5.0, 8.0, 9.0]);
    assert_eq!(
        fetch(&up, &p, longer),
        vec![0.0, 1.0, 2.0, 3.0, 0.0, 4.0, 5.0, 6.0, 7.0, 0.0, 8.0, 9.0, 10.0, 11.0, 0.0]
    );
    assert_eq!(fetch(&up, &p, lower), vec![0.0, 1.0, 2.0, 3.0, 6.0, 7.0, 8.0, 9.0]);
    assert_eq!(
        fetch(&up, &p, swapped),
        vec![0.0, 4.0, 8.0, 1.0, 5.0, 9.0, 2.0, 6.0, 10.0, 3.0, 7.0, 11.0]
    );
    assert_eq!(swapped.shape(), vec![1, 4, 3]);
    assert_eq!(
        fetch(&up, &p, moved),
        vec![0.0, 2.0, 4.0, 6.0, 8.0, 10.0, 1.0, 3.0, 5.0, 7.0, 9.0, 11.0]
    );
    assert_eq!(moved.shape(), vec![1, 2, 2, 3]);
    // Cutting what was filled up gives the rows back.
    let back = trim_l(&mut p, longer, 4).expect("trim_l");
    assert_eq!(fetch(&up, &p, back), x);
}

fn text(r: Result<GpuTensor, DemucsError>) -> String {
    match r {
        Ok(_) => panic!("accepted"),
        Err(e) => e.message(),
    }
}

#[test]
fn misfits_are_refused() {
    let mut up = Uploads::new();
    let w = GpuConv2dWeight::from_cpu(&mut up, &conv2d_of(2, 3, 8, 1, 1)).expect("w");
    let b = GpuBias::from_cpu(&mut up, &bias_of(&waves(2, 2))).expect("b");
    let x = put4(&mut up, &waves(2 * 8 * 2, 3), [1, 2, 8, 2]);
    let y = put2(&mut up, &waves(4, 4), [2, 2]);
    let z = put2(&mut up, &waves(6, 5), [2, 3]);
    let mut p = up.program();
    let before = p.steps.len();
    let message = text(conv2d_8x1_s4p2(&mut p, x, &w, &b));
    assert!(message.contains("conv2d_8x1_s4p2: shape mismatch (c_in=2 w.in=3, kh=8 kw=1)"), "{message}");
    assert!(add_to(&mut p, y, z).is_err());
    assert_eq!(p.steps.len(), before);
    // A weight with fewer numbers than its shape says is not taken.
    let short = Weight2D { data: vec![1.0f32; 5], rows: 2, cols: 3 };
    assert!(GpuWeight2D::from_cpu(&mut up, &short).is_err());
    // A buffer has to hold just as many elements as its shape says.
    let buffer = GpuBuffer { id: 0, len: 48 };
    assert!(GpuTensor::new3(buffer, 2, 3, 8).is_ok());
    assert!(GpuTensor::new3(buffer, 2, 3, 7).is_err());
    assert!(GpuTensor::new4(buffer, 2, 3, 8, 1).is_ok());
    assert!(GpuTensor::new4(buffer, 2, 3, 8, 2).is_err());
}

#[test]
fn weights_are_transposed_on_the_way() {
    let mut up: Uploads<f32> = Uploads::new();
    let w = GpuWeight2D::from_cpu(
        &mut up,
        &Weight2D { data: vec![1.0, 2.0, 3.0, 4.0, 5.0, 6.0], rows: 2, cols: 3 },
    )
    .expect("w");
    assert_eq!(up.arrays[w.data.id], vec![1.0, 4.0, 2.0, 5.0, 3.0, 6.0]);
    // Transposing twice gives the matrix back.
    let once = up.arrays[w.data.id].clone();
    let again = GpuWeight2D::from_cpu(&mut up, &Weight2D { data: once, rows: 3, cols: 2 }).expect("w");
    assert_eq!(up.arrays[again.data.id], vec![1.0, 2.0, 3.0, 4.0, 5.0, 6.0]);
    // The three projections of an attention are taken apart.
    let attn = attention_of(2, 1, 3);
    let g = GpuMhaWeights::from_cpu(&mut up, &attn).expect("attention");
    let k = &attn.in_proj_weight[4..8];
    assert_eq!(up.arrays[g.k_w.data.id], vec![k[0], k[2], k[1], k[3]]);
    assert_eq!(up.arrays[g.v_b.data.id], attn.in_proj_bias[4..6].to_vec());
}

#[test]
fn kernels_have_names_and_threads() {
    let all = Kernel::all();
    assert_eq!(all.len(), 43);
    assert_eq!(all[0].name(), "noop_placeholder");
    assert_eq!(Kernel::Im2col3x3S1P1.name(), "im2col_3x3_s1p1_f16");
    for (i, k) in all.iter().enumerate() {
        for (j, other) in all.iter().enumerate() {
            assert_eq!(i == j, k.name() == other.name());
        }
    }
    let one = launch_1d(1000).expect("threads");
    assert_eq!((one.grid_x, one.grid_y, one.grid_z, one.block, one.shared_mem_bytes), (4, 1, 1, 256, 0));
    assert!(launch_1d(LIMIT).is_some());
    assert!(launch_1d(LIMIT + 1).is_none());
    let mut up = Uploads::new();
    let gn = GpuGroupNorm1::from_cpu(&mut up, &group_norm(3, 1)).expect("gn");
    let x = put3(&mut up, &waves(2 * 3 * 100, 2), [2, 3, 100]);
    let s = put3(&mut up, &waves(2 * 9 * 4, 2), [2, 9, 4]);
    let mut p = up.program();
    groupnorm1_inplace(&mut p, x, &gn).expect("groupnorm1");
    softmax_scaled(&mut p, s, Factor::InverseRoot(16)).expect("softmax");
    match p.steps[p.steps.len() - 2] {
        Step::Launch(l) => {
            let c = l.config().expect("threads");
            assert_eq!((c.grid_x, c.block, c.shared_mem_bytes), (2, 512, 4096));
            assert_eq!(
                l.arguments(),
                vec![
                    Argument::Result,
                    Argument::Value(gn.gamma.id),
                    Argument::Value(gn.beta.id),
                    Argument::Int(2),
                    Argument::Int(3),
                    Argument::Int(100),
                    Argument::Factor(Factor::Epsilon),
                ]
            );
        },
        _ => panic!("not a kernel"),
    }
    match p.steps[p.steps.len() - 1] {
        Step::Launch(l) => {
            let c = l.config().expect("threads");
            assert_eq!((c.grid_x, c.block), (3, 256));
            assert_eq!(
                l.arguments(),
                vec![
                    Argument::Result,
                    Argument::Value(s.data.id),
                    Argument::Int(2),
                    Argument::Int(9),
                    Argument::Int(4),
                    Argument::Factor(Factor::InverseRoot(16)),
                ]
            );
        },
        _ => panic!("not a kernel"),
    }
    assert_eq!(Factor::InverseRoot(16).value(&Single), 0.25);
    assert_eq!(Factor::EmbeddingScale.value(&Single), 0.2);
    assert_eq!(Factor::Ratio(3, 4).value(&Single), 0.75);
    assert_eq!(Factor::Epsilon.value(&Single), 1e-5);
}

#[test]
fn last_uses_are_found() {
    let mut up = Uploads::new();
    let x = put2(&mut up, &waves(4, 1), [2, 2]);
    let y = put2(&mut up, &waves(4, 2), [2, 2]);
    let mut p = up.program();
    let z = add_to(&mut p, x, y).expect("sum");
    let w = add_to(&mut p, z, x).expect("sum");
    assert_eq!((x.data.id, y.data.id, z.data.id, w.data.id), (0, 1, 2, 3));
    assert_eq!(p.last_uses()[..3], [3, 2, 3]);
}
