//! The operators of the network on the processor.
use demucs_native::arith::{Arith, Gemm};
use demucs_native::dsp::cac::{cac_data_to_complex, stft_to_cac};
use demucs_native::dsp::{Complex, Dsp};
use demucs_native::error::DemucsError;
use demucs_native::metadata::StemId;
use demucs_native::model::{
    Bias, Conv1dWeight, Conv2dWeight, CrossDomainTransformer, DConv, DConvLayer, FreqEmb, FreqEncoder, GroupNorm1,
    HDecLayer, HEncLayer, LayerNorm1, LayerScale, MhaWeights, SelfAttnLayer, TDecLayer, TEncLayer,
    TransformerLayerWeights, Weight2D,
};
use demucs_native::ops_cpu;
use demucs_native::ops_cpu::check::{check_conv1d, check_conv2d, check_cross_domain, check_henc, check_mha, check_tdec};
use demucs_native::ops_cpu::elementwise::add_to;
use demucs_native::ops_cpu::layout::{pad_rows, reverse_axes, swap_middle, trim_middle};
use demucs_native::ops_cpu::norm::{mean, total, variance};

/// Single precision.
struct Single;

impl Arith for Single {
    type T = f32;

    type Product = (usize, Vec<f32>);

    fn zero(&self) -> f32 {
        0.0
    }

    fn lowest(&self) -> f32 {
        f32::NEG_INFINITY
    }

    fn ratio(&self, num: u64, den: u64) -> f32 {
        (num as f64 / den as f64) as f32
    }

    fn count(&self, n: usize) -> f32 {
        n as f32
    }

    fn from_bits(&self, bits: u32) -> f32 {
        f32::from_bits(bits)
    }

    fn from_half_bits(&self, bits: u16) -> f32 {
        half::f16::from_bits(bits).to_f32()
    }

    fn greater(&self, x: f32, y: f32) -> bool {
        x > y
    }

    fn neg(&self, x: f32) -> f32 {
        -x
    }

    fn abs(&self, x: f32) -> f32 {
        x.abs()
    }

    fn exp(&self, x: f32) -> f32 {
        x.exp()
    }

    fn ln(&self, x: f32) -> f32 {
        x.ln()
    }

    fn sqrt(&self, x: f32) -> f32 {
        x.sqrt()
    }

    fn recip(&self, x: f32) -> f32 {
        x.recip()
    }

    fn sin(&self, x: f32) -> f32 {
        x.sin()
    }

    fn cos(&self, x: f32) -> f32 {
        x.cos()
    }

    fn add(&self, x: f32, y: f32) -> f32 {
        x + y
    }

    fn sub(&self, x: f32, y: f32) -> f32 {
        x - y
    }

    fn mul(&self, x: f32, y: f32) -> f32 {
        x * y
    }

    fn div(&self, x: f32, y: f32) -> f32 {
        x / y
    }

    fn pow(&self, x: f32, y: f32) -> f32 {
        x.powf(y)
    }

    fn erf_scaled(&self, x: f32, y: f32) -> f32 {
        libm::erf(x as f64 * y as f64) as f32
    }

    fn gemm(&self, g: Gemm, lhs: &[f32], rhs: &[f32], scale: f32) -> (usize, Vec<f32>) {
        let mut out = vec![0.0f32; g.m * g.n];
        for i in 0..g.m {
            for l in 0..g.k {
                let x = scale * lhs[i * g.lhs_rs + l * g.lhs_cs];
                for j in 0..g.n {
                    out[i * g.n + j] += x * rhs[l * g.rhs_rs + j * g.rhs_cs];
                }
            }
        }
        (g.n, out)
    }

    fn entry(&self, product: &(usize, Vec<f32>), i: usize, j: usize) -> f32 {
        product.1[i * product.0 + j]
    }
}

impl Dsp for Single {
    /// Not a spectrogram, but as large as one: bin `k` of frame `f` is made of the sample at the
    /// start of the frame.
    fn stft(&self, n_fft: usize, hop: usize, x: &[f32]) -> Result<Vec<Complex<f32>>, DemucsError> {
        let frames = (x.len() + hop - 1) / hop;
        let mut out = Vec::new();
        for f in 0..frames {
            for k in 0..n_fft / 2 {
                let v = if k == 0 { x[f * hop] } else { 0.0 };
                out.push(Complex { re: v, im: -v });
            }
        }
        Ok(out)
    }

    /// Sample `t` is the first part of bin `t % bins` of frame `t / hop` less three times the
    /// second. Of what is no number there is no sample.
    fn istft(&self, n_fft: usize, hop: usize, spec: &[Complex<f32>], len: usize) -> Result<Vec<f32>, DemucsError> {
        if let Some(at) = spec.iter().position(|c| c.re.is_nan()) {
            return Err(DemucsError::Dsp(format!("no number at {at}")));
        }
        let bins = n_fft / 2 + 1;
        let frames = spec.len() / bins;
        let mut out = Vec::new();
        for t in 0..len {
            let f = t / hop;
            let v = if f < frames { spec[f * bins + t % bins].re - 3.0 * spec[f * bins + t % bins].im } else { 0.0 };
            out.push(v);
        }
        Ok(out)
    }

    /// The nearest sample.
    fn resample(&self, x: &[f32], from: u32, to: u32) -> Result<Vec<f32>, DemucsError> {
        if to == 0 {
            return Err(DemucsError::Dsp("no rate".to_string()));
        }
        let n = x.len() * to as usize / from as usize;
        Ok((0..n).map(|i| x[i * from as usize / to as usize]).collect())
    }
}

fn close(a: &[f32], b: &[f32], tol: f32) -> bool {
    a.len() == b.len() && a.iter().zip(b).all(|(x, y)| (x - y).abs() < tol)
}

/// `n` numbers that go up and down.
fn waves(n: usize, seed: usize) -> Vec<f32> {
    (0..n).map(|i| ((i * 37 + seed * 101) as f32 * 0.37).sin() * 0.5).collect()
}

fn bias_of(n: usize, seed: usize) -> Bias<f32> {
    Bias { data: waves(n, seed), len: n }
}

fn conv1d_of(out_ch: usize, in_ch: usize, k: usize, seed: usize) -> Conv1dWeight<f32> {
    Conv1dWeight { data: waves(out_ch * in_ch * k, seed), out_ch, in_ch, k }
}

fn conv2d_of(out_ch: usize, in_ch: usize, kh: usize, kw: usize, seed: usize) -> Conv2dWeight<f32> {
    Conv2dWeight { data: waves(out_ch * in_ch * kh * kw, seed), out_ch, in_ch, kh, kw }
}

fn group_norm(n: usize, seed: usize) -> GroupNorm1<f32> {
    GroupNorm1 { gamma: waves(n, seed), beta: waves(n, seed + 1), num_channels: n }
}

/// Convolution by the definition, element by element.
fn naive_conv2d(
    x: &[f32],
    s: [usize; 4],
    w: &Conv2dWeight<f32>,
    bias: &Bias<f32>,
    pad: [usize; 2],
    stride: [usize; 2],
) -> (Vec<f32>, [usize; 4]) {
    let [b, c_in, h, width] = s;
    let h_out = (h + 2 * pad[0] - w.kh) / stride[0] + 1;
    let w_out = (width + 2 * pad[1] - w.kw) / stride[1] + 1;
    let mut out = Vec::new();
    for bi in 0..b {
        for oc in 0..w.out_ch {
            for oh in 0..h_out {
                for ow in 0..w_out {
                    let mut acc = bias.data[oc];
                    for ic in 0..c_in {
                        for dh in 0..w.kh {
                            for dw in 0..w.kw {
                                let ih = (oh * stride[0] + dh) as isize - pad[0] as isize;
                                let iw = (ow * stride[1] + dw) as isize - pad[1] as isize;
                                if ih >= 0 && (ih as usize) < h && iw >= 0 && (iw as usize) < width {
                                    acc += x[((bi * c_in + ic) * h + ih as usize) * width + iw as usize]
                                        * w.data[((oc * c_in + ic) * w.kh + dh) * w.kw + dw];
                                }
                            }
                        }
                    }
                    out.push(acc);
                }
            }
        }
    }
    (out, [b, w.out_ch, h_out, w_out])
}

/// Transposed convolution by the definition: every input element is spread over the output.
/// The weights are `[in, kh, kw, out]`.
fn naive_conv_transpose2d(
    x: &[f32],
    s: [usize; 4],
    w: &Conv2dWeight<f32>,
    bias: &Bias<f32>,
    pad: [usize; 2],
    stride: [usize; 2],
) -> (Vec<f32>, [usize; 4]) {
    let [b, c_in, h, width] = s;
    let h_out = (h - 1) * stride[0] + w.kh - 2 * pad[0];
    let w_out = (width - 1) * stride[1] + w.kw - 2 * pad[1];
    let mut out = vec![0.0f32; b * w.out_ch * h_out * w_out];
    for bi in 0..b {
        for oc in 0..w.out_ch {
            for o in 0..h_out * w_out {
                out[(bi * w.out_ch + oc) * h_out * w_out + o] = bias.data[oc];
            }
            for ic in 0..c_in {
                for ih in 0..h {
                    for iw in 0..width {
                        for dh in 0..w.kh {
                            for dw in 0..w.kw {
                                let oh = (ih * stride[0] + dh) as isize - pad[0] as isize;
                                let ow = (iw * stride[1] + dw) as isize - pad[1] as isize;
                                if oh >= 0 && (oh as usize) < h_out && ow >= 0 && (ow as usize) < w_out {
                                    out[((bi * w.out_ch + oc) * h_out + oh as usize) * w_out + ow as usize] +=
                                        x[((bi * c_in + ic) * h + ih) * width + iw]
                                            * w.data[((ic * w.kh + dh) * w.kw + dw) * w.out_ch + oc];
                                }
                            }
                        }
                    }
                }
            }
        }
    }
    (out, [b, w.out_ch, h_out, w_out])
}

#[test]
fn gelu_of_known_numbers() {
    let mut x = vec![0.0f32, 1.0, -1.0, 3.0];
    ops_cpu::gelu(&Single, &mut x);
    assert!(close(&x, &[0.0, 0.841_344_7, -0.158_655_3, 2.995_950_3], 1e-6));
}

#[test]
fn gated_linear_unit_halves_the_channels() {
    // A gate of zero lets half of the value through.
    let x = vec![2.0f32, -4.0, 6.0, 8.0, 0.0, 0.0, 0.0, 0.0];
    let (y, shape) = ops_cpu::glu_channel(&Single, &x, [1, 4, 2]);
    assert_eq!(shape, [1, 2, 2]);
    assert_eq!(y, vec![1.0, -2.0, 3.0, 4.0]);
    // A large gate lets it all through, a very negative one nothing.
    let (y, _) = ops_cpu::glu_channel(&Single, &[3.0, 5.0, 100.0, -100.0], [1, 2, 2]);
    assert!(close(&y, &[3.0, 0.0], 1e-6));
}

#[test]
fn scales_apply_per_channel_or_per_feature() {
    let scale = LayerScale { scale: vec![10.0f32, 100.0] };
    let mut x = vec![1.0f32, 2.0, 3.0, 4.0];
    ops_cpu::layer_scale(&Single, &mut x, [1, 2, 2], &scale);
    assert_eq!(x, vec![10.0, 20.0, 300.0, 400.0]);
    let mut x = vec![1.0f32, 2.0, 3.0, 4.0];
    ops_cpu::layer_scale_last(&Single, &mut x, [1, 2, 2], &scale);
    assert_eq!(x, vec![10.0, 200.0, 30.0, 400.0]);
    let mut x = vec![1.0f32, 2.0];
    add_to(&Single, &mut x, &[5.0, 6.0, 7.0]);
    assert_eq!(x, vec![6.0, 8.0]);
}

#[test]
fn statistics_of_a_run() {
    let x = vec![9.0f32, 1.0, 3.0, 5.0, 7.0, 9.0];
    assert_eq!(total(&Single, &x, 1, 5), 16.0);
    assert_eq!(mean(&Single, &x, 1, 5), 4.0);
    assert_eq!(variance(&Single, &x, 1, 5, 4.0), 5.0);
}

#[test]
fn norms_of_known_numbers() {
    let inv = 1.0 / (5.0f32 + 1e-5).sqrt();
    let gn = GroupNorm1 { gamma: vec![1.0f32, 2.0], beta: vec![0.0, 1.0], num_channels: 2 };
    let mut x = vec![1.0f32, 3.0, 5.0, 7.0];
    ops_cpu::groupnorm1(&Single, &mut x, [1, 2, 2], &gn);
    assert!(close(&x, &[-3.0 * inv, -inv, 2.0 * inv + 1.0, 6.0 * inv + 1.0], 1e-6));
    let inv = 1.0 / (1.0f32 + 1e-5).sqrt();
    let ln = LayerNorm1 { gamma: vec![1.0f32, 2.0], beta: vec![0.0, 1.0], dim: 2 };
    let mut x = vec![1.0f32, 3.0, 5.0, 7.0];
    ops_cpu::layernorm(&Single, &mut x, [1, 2, 2], &ln);
    assert!(close(&x, &[-inv, 2.0 * inv + 1.0, -inv, 2.0 * inv + 1.0], 1e-6));
}

#[test]
fn softmax_runs_along_the_sequence() {
    let mut x = vec![0.0f32, 1.0, 0.0, 2.0, 0.0, 3.0];
    ops_cpu::softmax(&Single, &mut x, [1, 3, 2], 1);
    let e: Vec<f32> = [1.0f32, 2.0, 3.0].iter().map(|v| v.exp()).collect();
    let sum: f32 = e.iter().sum();
    let third = 1.0 / 3.0;
    assert!(close(&x, &[third, e[0] / sum, third, e[1] / sum, third, e[2] / sum], 1e-6));
}

#[test]
fn convolutions_follow_the_definition() {
    let w = conv2d_of(2, 3, 3, 2, 1);
    let b = bias_of(2, 2);
    let x = waves(2 * 3 * 6 * 5, 3);
    let (y, shape) = ops_cpu::conv2d(&Single, &x, [2, 3, 6, 5], &w, &b, 1, 1, 2, 1);
    let (z, expected) = naive_conv2d(&x, [2, 3, 6, 5], &w, &b, [1, 1], [2, 1]);
    assert_eq!(shape, expected);
    assert!(close(&y, &z, 1e-5));
    let w = conv1d_of(2, 3, 4, 4);
    let x = waves(2 * 3 * 11, 5);
    let (y, shape) = ops_cpu::conv1d_with_stride(&Single, &x, [2, 3, 11], &w, &b, 2, 3, 1);
    let flat = Conv2dWeight { data: w.data.clone(), out_ch: 2, in_ch: 3, kh: 4, kw: 1 };
    let (z, expected) = naive_conv2d(&x, [2, 3, 11, 1], &flat, &b, [2, 0], [3, 1]);
    assert_eq!(shape, [expected[0], expected[1], expected[2]]);
    assert!(close(&y, &z, 1e-5));
}

#[test]
fn dilated_convolution_spaces_the_kernel() {
    let w = Conv1dWeight { data: vec![1.0f32, 10.0, 100.0], out_ch: 1, in_ch: 1, k: 3 };
    let b = Bias { data: vec![0.5f32], len: 1 };
    let x = vec![1.0f32, 2.0, 3.0, 4.0, 5.0];
    let (y, shape) = ops_cpu::conv1d(&Single, &x, [1, 1, 5], &w, &b, 2, 2);
    // Padding by the dilation keeps the length.
    assert_eq!(shape, [1, 1, 5]);
    assert_eq!(y, vec![310.5, 420.5, 531.5, 42.5, 53.5]);
    let (y, _) = ops_cpu::conv1d_k1(
        &Single,
        &x,
        [1, 1, 5],
        &Conv1dWeight { data: vec![2.0f32], out_ch: 1, in_ch: 1, k: 1 },
        &b,
    );
    assert_eq!(y, vec![2.5, 4.5, 6.5, 8.5, 10.5]);
}

#[test]
fn probe_naive_conv_transpose2d_known_answer() {
    let x = vec![1.0f32];
    let w2 = Conv2dWeight { data: vec![1.0f32, 1.0], out_ch: 1, in_ch: 1, kh: 2, kw: 1 };
    let b = Bias { data: vec![0.0f32], len: 1 };
    let (out, shape) = naive_conv_transpose2d(&x, [1, 1, 1, 1], &w2, &b, [0, 0], [1, 1]);
    assert_eq!(shape, [1, 1, 2, 1]);
    assert_eq!(out, vec![1.0, 1.0]);
    for stride in [1, 2] {
        let (out, shape) = ops_cpu::conv_transpose1d(
            &Single,
            &x,
            [1, 1, 1],
            &Conv1dWeight { data: vec![1.0f32, 1.0], out_ch: 1, in_ch: 1, k: 2 },
            &b,
            0,
            stride,
        );
        assert_eq!(shape, [1, 1, 2]);
        assert_eq!(out, vec![1.0, 1.0]);
    }
}

#[test]
fn transposed_convolutions_follow_the_definition() {
    let w = conv2d_of(2, 3, 8, 1, 1);
    let b = bias_of(2, 2);
    let x = waves(2 * 3 * 4 * 5, 3);
    let (y, shape) = ops_cpu::conv_transpose2d(&Single, &x, [2, 3, 4, 5], &w, &b, 2, 0, 4, 1);
    let (z, expected) = naive_conv_transpose2d(&x, [2, 3, 4, 5], &w, &b, [2, 0], [4, 1]);
    assert_eq!(shape, [2, 2, 16, 5]);
    assert_eq!(shape, expected);
    assert!(close(&y, &z, 1e-5));
    let w1 = Conv1dWeight { data: w.data.clone(), out_ch: 2, in_ch: 3, k: 8 };
    let x = waves(3 * 7, 4);
    let (y, shape) = ops_cpu::conv_transpose1d(&Single, &x, [1, 3, 7], &w1, &b, 2, 4);
    let (z, expected) = naive_conv_transpose2d(&x, [1, 3, 7, 1], &w, &b, [2, 0], [4, 1]);
    assert_eq!(shape, [1, 2, 28]);
    assert_eq!(expected, [1, 2, 28, 1]);
    assert!(close(&y, &z, 1e-5));
}

fn dot(x: &[f32], y: &[f32]) -> f64 {
    assert_eq!(x.len(), y.len());
    x.iter().zip(y).map(|(a, b)| *a as f64 * *b as f64).sum()
}

#[test]
fn transposed_convolution_is_the_adjoint() {
    let (b, c_in, c_out, k, pad, stride) = (2, 3, 4, 8, 2, 4);
    let w = conv1d_of(c_out, c_in, k, 1);
    // The same factors, those of one input channel together.
    let mut data = vec![0.0f32; c_out * c_in * k];
    for co in 0..c_out {
        for ci in 0..c_in {
            for d in 0..k {
                data[(co * k + d) * c_in + ci] = w.data[(co * c_in + ci) * k + d];
            }
        }
    }
    let wt = Conv1dWeight { data, out_ch: c_in, in_ch: c_out, k };
    let none = |n: usize| Bias { data: vec![0.0f32; n], len: n };
    let x = waves(b * c_in * 24, 2);
    let (y, ys) = ops_cpu::conv1d_with_stride(&Single, &x, [b, c_in, 24], &w, &none(c_out), pad, stride, 1);
    assert_eq!(ys, [b, c_out, 6]);
    let u = waves(b * c_out * 6, 3);
    let (z, zs) = ops_cpu::conv_transpose1d(&Single, &u, ys, &wt, &none(c_in), pad, stride);
    assert_eq!(zs, [b, c_in, 24]);
    assert!(dot(&u, &y).abs() > 0.1);
    assert!((dot(&u, &y) - dot(&x, &z)).abs() < 1e-4);
}

#[test]
fn linear_layer_of_known_numbers() {
    let w = Weight2D { data: vec![1.0f32, 2.0, 3.0, 4.0, 5.0, 6.0], rows: 2, cols: 3 };
    let (y, shape) = ops_cpu::linear(&Single, &[1.0, 0.0, -1.0, 1.0, 1.0, 1.0], [1, 2, 3], &w, &[0.5, 0.25]);
    assert_eq!(shape, [1, 2, 2]);
    assert_eq!(y, vec![-1.5, -1.75, 6.5, 15.25]);
}

#[test]
fn probe_mha_self_known_answer() {
    let (b, seq, d, h) = (1, 2, 2, 1);
    let mut in_proj_weight = vec![0.0f32; 3 * d * d];
    for part in 0..3 {
        in_proj_weight[part * d * d] = 1.0;
        in_proj_weight[part * d * d + d + 1] = 1.0;
    }
    let attn = MhaWeights {
        in_proj_weight,
        in_proj_bias: vec![0.0; 3 * d],
        out_proj_weight: vec![1.0, 0.0, 0.0, 1.0],
        out_proj_bias: vec![0.0; d],
        d_model: d,
        n_heads: h,
    };
    let x = vec![1.0, 0.0, 0.0, 1.0];
    let (out, _) = ops_cpu::mha_self(&Single, &x, [b, seq, d], &attn);
    let expected = [0.670, 0.330, 0.330, 0.670];
    assert_eq!(out.len(), expected.len());
    for (i, (&got, &exp)) in out.iter().zip(expected.iter()).enumerate() {
        let diff = (got - exp).abs();
        assert!(diff < 1e-3, "mha self known-answer failed at {i}: {got} vs {exp}");
    }
}

fn uniform_attention(d: usize, h: usize) -> MhaWeights<f32> {
    MhaWeights {
        in_proj_weight: (0..3 * d * d).map(|i| ((i * 7919) % 100) as f32 / 1000.0 - 0.05).collect(),
        in_proj_bias: vec![0.0; 3 * d],
        out_proj_weight: (0..d * d).map(|i| ((i * 6151) % 100) as f32 / 1000.0 - 0.05).collect(),
        out_proj_bias: vec![0.0; d],
        d_model: d,
        n_heads: h,
    }
}

#[test]
fn probe_mha_self_uniform_random_input() {
    let (b, seq, d, h) = (1, 8, 8, 2);
    let x: Vec<f32> = (0..b * seq * d).map(|i| (i as f32 * 0.07).sin()).collect();
    let attn = uniform_attention(d, h);
    let (out, shape) = ops_cpu::mha_self(&Single, &x, [b, seq, d], &attn);
    assert_eq!(shape, [b, seq, d]);
    // Attention by the definition, in double precision.
    let at = |w: &[f32], row: &[f64], o: usize| -> f64 { (0..d).map(|k| row[k] * w[o * d + k] as f64).sum() };
    let rows: Vec<Vec<f64>> = (0..seq).map(|s| (0..d).map(|k| x[s * d + k] as f64).collect()).collect();
    let part = |p: usize| -> Vec<Vec<f64>> {
        let w = &attn.in_proj_weight[p * d * d..(p + 1) * d * d];
        rows.iter().map(|r| (0..d).map(|o| at(w, r, o)).collect()).collect()
    };
    let (q, k, v) = (part(0), part(1), part(2));
    let dh = d / h;
    for s in 0..seq {
        let mut joined = vec![0.0f64; d];
        for hi in 0..h {
            let scores: Vec<f64> = (0..seq)
                .map(|t| (0..dh).map(|j| q[s][hi * dh + j] * k[t][hi * dh + j]).sum::<f64>() / (dh as f64).sqrt())
                .map(f64::exp)
                .collect();
            let sum: f64 = scores.iter().sum();
            for j in 0..dh {
                joined[hi * dh + j] = (0..seq).map(|t| scores[t] / sum * v[t][hi * dh + j]).sum();
            }
        }
        for o in 0..d {
            assert!((out[s * d + o] as f64 - at(&attn.out_proj_weight, &joined, o)).abs() < 1e-6);
        }
    }
}

#[test]
fn attention_of_several_batches_keeps_them_apart() {
    let d = 8;
    let attn = uniform_attention(d, 2);
    let q = waves(2 * 3 * d, 1);
    let kv = waves(2 * 5 * d, 2);
    let (both, shape) = ops_cpu::mha(&Single, &q, [2, 3, d], &kv, [2, 5, d], &attn);
    assert_eq!(shape, [2, 3, d]);
    let (second, _) = ops_cpu::mha(&Single, &q[3 * d..], [1, 3, d], &kv[5 * d..], [1, 5, d], &attn);
    assert!(close(&both[3 * d..], &second, 1e-6));
}

#[test]
fn embeddings_of_positions() {
    let e = ops_cpu::sin_embed_1d(&Single, 3, 5);
    assert_eq!(e.len(), 15);
    for pos in 0..3usize {
        let slow = pos as f32 / 10000.0;
        let row = [(pos as f32).cos(), slow.cos(), (pos as f32).sin(), slow.sin(), 0.0];
        assert!(close(&e[5 * pos..5 * pos + 5], &row, 1e-6));
    }
    let e = ops_cpu::sin_embed_2d(&Single, 8, 2, 3);
    assert_eq!(e.len(), 2 * 3 * 8);
    for t in 0..3usize {
        for f in 0..2usize {
            let (x, y) = (t as f32, f as f32);
            let slow = 0.01f32;
            let row = [
                x.sin(),
                x.cos(),
                (x * slow).sin(),
                (x * slow).cos(),
                y.sin(),
                y.cos(),
                (y * slow).sin(),
                (y * slow).cos(),
            ];
            let p = (t * 2 + f) * 8;
            assert!(close(&e[p..p + 8], &row, 1e-5));
        }
    }
}

#[test]
fn standardized_numbers_come_back() {
    let x = vec![1.0f32, 3.0, 5.0, 7.0, -2.0, -2.0, 2.0, 2.0];
    let (y, _, m, ms, s, ss) = ops_cpu::normalize_freq(&Single, &x, [2, 1, 2, 2]);
    assert_eq!(m, vec![4.0, 0.0]);
    assert!(close(&s, &[5.0f32.sqrt(), 2.0], 1e-6));
    assert_eq!(ms, [2, 1, 1, 1]);
    assert_eq!(ss, [2, 1, 1, 1]);
    assert!((y[0] + 3.0 / (5.0f32.sqrt() + 1e-5)).abs() < 1e-6);
    let mut back = y.clone();
    ops_cpu::denormalize_freq(&Single, &mut back, [2, 1, 2, 2], &m, &s);
    assert!(close(&back, &x, 1e-4));
    for i in 0..8 {
        let (mean, dev) = (m[i / 4], s[i / 4]);
        assert!((back[i] - (mean + (x[i] - mean) / (dev + 1e-5) * dev)).abs() < 1e-6);
    }
    let (y, _, m, ms, s, _) = ops_cpu::normalize_time(&Single, &x, [2, 2, 2]);
    assert_eq!(ms, [2, 1, 1]);
    let mut back = y;
    ops_cpu::denormalize_time(&Single, &mut back, [2, 2, 2], &m, &s);
    assert!(close(&back, &x, 1e-4));
}

#[test]
fn axes_change_places_and_change_back() {
    let x: Vec<f32> = (0..24).map(|i| i as f32).collect();
    let y = swap_middle(&x, 2, 3, 2, 2);
    assert_eq!(y[..12], [0.0, 1.0, 4.0, 5.0, 8.0, 9.0, 2.0, 3.0, 6.0, 7.0, 10.0, 11.0]);
    assert_eq!(swap_middle(&y, 2, 2, 3, 2), x);
    let y = reverse_axes(&x, 2, 3, 4);
    assert_eq!(y[..6], [0.0, 12.0, 4.0, 16.0, 8.0, 20.0]);
    assert_eq!(reverse_axes(&y, 4, 3, 2), x);
    let y = pad_rows(&x, 6, 4, 5, -1.0);
    assert_eq!(y[..10], [0.0, 1.0, 2.0, 3.0, -1.0, 4.0, 5.0, 6.0, 7.0, -1.0]);
    assert_eq!(trim_middle(&y, 6, 5, 1, 4), x);
}

fn residual_layer(c: usize, seed: usize) -> DConvLayer<f32> {
    let inner = 3;
    DConvLayer {
        conv1: conv1d_of(inner, c, 3, seed),
        conv1_bias: bias_of(inner, seed + 1),
        norm1: group_norm(inner, seed + 2),
        conv2: conv1d_of(2 * c, inner, 1, seed + 3),
        conv2_bias: bias_of(2 * c, seed + 4),
        norm2: group_norm(2 * c, seed + 5),
        scale: LayerScale { scale: waves(c, seed + 6) },
    }
}

fn residual(c: usize, seed: usize) -> DConv<f32> {
    DConv { layers: vec![residual_layer(c, seed), residual_layer(c, seed + 20)] }
}

#[test]
fn residual_branch_keeps_the_shape_and_doubles_the_dilation() {
    let stack = residual(4, 1);
    let x = waves(4 * 9, 2);
    let (once, s1) = ops_cpu::dconv_layer_forward(&Single, &x, [1, 4, 9], &stack.layers[0], 1);
    let (twice, s2) = ops_cpu::dconv_layer_forward(&Single, &once, s1, &stack.layers[1], 2);
    let (both, shape) = ops_cpu::dconv_forward(&Single, &x, [1, 4, 9], &stack);
    assert_eq!(s1, [1, 4, 9]);
    assert_eq!(s2, [1, 4, 9]);
    assert_eq!(shape, [1, 4, 9]);
    assert!(close(&both, &twice, 1e-6));
    // The input is added to what the layer makes: with a scale of zero nothing is added.
    let mut silent = residual_layer(4, 1);
    silent.scale = LayerScale { scale: vec![0.0; 4] };
    let (same, _) = ops_cpu::dconv_layer_forward(&Single, &x, [1, 4, 9], &silent, 1);
    assert!(close(&same, &x, 1e-6));
}

fn freq_encoder(c_in: usize, c: usize, seed: usize) -> HEncLayer<f32> {
    HEncLayer {
        conv: conv2d_of(c, c_in, 8, 1, seed),
        conv_bias: bias_of(c, seed + 1),
        dconv: residual(c, seed + 2),
        rewrite: conv2d_of(2 * c, c, 1, 1, seed + 3),
        rewrite_bias: bias_of(2 * c, seed + 4),
    }
}

#[test]
fn frequency_encoder_is_its_layers_one_after_the_other() {
    let enc = FreqEncoder {
        layers: vec![
            freq_encoder(4, 2, 1),
            freq_encoder(2, 3, 30),
            freq_encoder(3, 2, 60),
            freq_encoder(2, 2, 90),
        ],
        freq_emb: FreqEmb { data: waves(64 * 2, 5), n_bins: 64, dim: 2 },
    };
    let x = waves(4 * 256 * 3, 7);
    let (y, shape, skips) = ops_cpu::freq_encoder_forward(&Single, &x, [1, 4, 256, 3], &enc);
    // Each layer divides the number of frequencies by four.
    assert_eq!(shape, [1, 2, 1, 3]);
    assert_eq!(skips.len(), 4);
    let (mut z, mut s) = ops_cpu::henc_layer_forward(&Single, &x, [1, 4, 256, 3], &enc.layers[0]);
    assert_eq!(s, [1, 2, 64, 3]);
    // A fifth of the embedding goes to the first layer's output.
    for c in 0..2 {
        for f in 0..64 {
            for t in 0..3 {
                z[(c * 64 + f) * 3 + t] += 0.2 * enc.freq_emb.data[f * 2 + c];
            }
        }
    }
    assert!(close(&skips[0].0, &z, 1e-5));
    for i in 1..4 {
        let (next, ns) = ops_cpu::henc_layer_forward(&Single, &z, s, &enc.layers[i]);
        z = next;
        s = ns;
        assert!(close(&skips[i].0, &z, 1e-4));
        assert_eq!(skips[i].1, s);
    }
    assert!(close(&y, &z, 1e-4));
}

#[test]
fn time_encoder_fills_up_to_a_multiple_of_four() {
    let layer = TEncLayer {
        conv: conv1d_of(3, 2, 8, 1),
        conv_bias: bias_of(3, 2),
        dconv: residual(3, 3),
        rewrite: conv1d_of(6, 3, 1, 4),
        rewrite_bias: bias_of(6, 5),
    };
    let x = waves(2 * 21, 6);
    let (y, shape) = ops_cpu::tenc_layer_forward(&Single, &x, [1, 2, 21], &layer);
    assert_eq!(shape, [1, 3, 6]);
    let padded = pad_rows(&x, 2, 21, 24, 0.0);
    let (z, s) = ops_cpu::tenc_layer_forward(&Single, &padded, [1, 2, 24], &layer);
    assert_eq!(s, shape);
    assert!(close(&y, &z, 1e-6));
}

#[test]
fn decoders_cut_down_to_the_target() {
    let hdec = HDecLayer {
        rewrite: conv2d_of(6, 3, 3, 3, 1),
        rewrite_bias: bias_of(6, 2),
        dconv: residual(3, 3),
        conv_tr: conv2d_of(2, 3, 8, 1, 4),
        conv_tr_bias: bias_of(2, 5),
        last: true,
    };
    let x = waves(3 * 4 * 5, 6);
    let skip = waves(3 * 4 * 5, 7);
    let (y, shape) = ops_cpu::hdec_layer_forward(&Single, &x, [1, 3, 4, 5], &skip, [1, 3, 4, 5], 15, &hdec);
    let (full, whole) = ops_cpu::hdec_layer_forward(&Single, &x, [1, 3, 4, 5], &skip, [1, 3, 4, 5], 16, &hdec);
    assert_eq!(shape, [1, 2, 15, 5]);
    assert_eq!(whole, [1, 2, 16, 5]);
    assert_eq!(y, trim_middle(&full, 2, 16, 5, 15));
    // The skip and the input count alike.
    let (z, _) = ops_cpu::hdec_layer_forward(&Single, &skip, [1, 3, 4, 5], &x, [1, 3, 4, 5], 15, &hdec);
    assert_eq!(y, z);
    let tdec = TDecLayer {
        rewrite: conv1d_of(6, 3, 3, 1),
        rewrite_bias: bias_of(6, 2),
        dconv: residual(3, 3),
        conv_tr: conv1d_of(2, 3, 8, 4),
        conv_tr_bias: bias_of(2, 5),
        last: false,
    };
    let t = waves(3 * 6, 8);
    let tskip = waves(3 * 6, 9);
    let (y, shape) = ops_cpu::tdec_layer_forward(&Single, &t, [1, 3, 6], &tskip, [1, 3, 6], 21, &tdec);
    assert_eq!(shape, [1, 2, 21]);
    let (full, whole) = ops_cpu::tdec_layer_forward(&Single, &t, [1, 3, 6], &tskip, [1, 3, 6], 24, &tdec);
    assert_eq!(whole, [1, 2, 24]);
    assert_eq!(y, trim_middle(&full, 2, 24, 1, 21));
    // A short skip counts as if it were filled up with zeros, a long one as if it were cut off.
    let short = waves(3 * 4, 10);
    let (z, _) = ops_cpu::tdec_layer_forward(&Single, &t, [1, 3, 6], &short, [1, 3, 4], 24, &tdec);
    let filled = pad_rows(&short, 3, 4, 6, 0.0);
    assert_eq!(z, ops_cpu::tdec_layer_forward(&Single, &t, [1, 3, 6], &filled, [1, 3, 6], 24, &tdec).0);
    let long = waves(3 * 9, 11);
    let (z, _) = ops_cpu::tdec_layer_forward(&Single, &t, [1, 3, 6], &long, [1, 3, 9], 24, &tdec);
    let cut = trim_middle(&long, 3, 9, 1, 6);
    assert_eq!(z, ops_cpu::tdec_layer_forward(&Single, &t, [1, 3, 6], &cut, [1, 3, 6], 24, &tdec).0);
    // All but the last decoder end in GELU, which is never below -0.17.
    assert!(y.iter().all(|v| *v > -0.18));
    assert_eq!(check_tdec(18, [1, 3, 6], 18, [1, 3, 6], 21, &tdec), Some([1, 2, 21]));
    assert_eq!(check_tdec(18, [1, 2, 6], 18, [1, 3, 6], 21, &tdec), None);
}

fn self_layer(d: usize, seed: usize) -> SelfAttnLayer<f32> {
    SelfAttnLayer {
        norm1: LayerNorm1 { gamma: waves(d, seed), beta: waves(d, seed + 1), dim: d },
        attn: uniform_attention(d, 2),
        gamma_1: LayerScale { scale: waves(d, seed + 2) },
        norm2: LayerNorm1 { gamma: waves(d, seed + 3), beta: waves(d, seed + 4), dim: d },
        linear1: Weight2D { data: waves(5 * d, seed + 5), rows: 5, cols: d },
        linear1_bias: waves(5, seed + 6),
        linear2: Weight2D { data: waves(5 * d, seed + 7), rows: d, cols: 5 },
        linear2_bias: waves(d, seed + 8),
        gamma_2: LayerScale { scale: waves(d, seed + 9) },
        norm_out: group_norm(d, seed + 10),
    }
}

fn plain_transformer(d: usize) -> CrossDomainTransformer<f32> {
    let layer = |seed: usize| TransformerLayerWeights { self_attn: Some(self_layer(d, seed)), cross_attn: None };
    CrossDomainTransformer {
        norm_in: LayerNorm1 { gamma: waves(d, 1), beta: waves(d, 2), dim: d },
        norm_in_t: LayerNorm1 { gamma: waves(d, 3), beta: waves(d, 4), dim: d },
        channel_upsampler: None,
        channel_upsampler_bias: None,
        channel_downsampler: None,
        channel_downsampler_bias: None,
        channel_upsampler_t: None,
        channel_upsampler_t_bias: None,
        channel_downsampler_t: None,
        channel_downsampler_t_bias: None,
        layers: (0..5).map(|i| layer(10 + 20 * i)).collect(),
        layers_t: (0..5).map(|i| layer(200 + 20 * i)).collect(),
    }
}

#[test]
fn transformer_traces_what_it_computes() {
    let d = 8;
    let ct = plain_transformer(d);
    let freq = waves(d * 3 * 4, 1);
    let time = waves(d * 5, 2);
    let (f, fs, t, ts) = ops_cpu::cross_domain_transformer_forward(&Single, &freq, [1, d, 3, 4], &time, [1, d, 5], &ct);
    let (g, gs, u, us, trace) =
        ops_cpu::cross_domain_transformer_forward_traced(&Single, &freq, [1, d, 3, 4], &time, [1, d, 5], &ct);
    assert_eq!((fs, ts), ([1, d, 3, 4], [1, d, 5]));
    assert_eq!((gs, us), (fs, ts));
    assert!(close(&f, &g, 1e-6));
    assert!(close(&t, &u, 1e-6));
    assert_eq!(trace.len(), 5);
    assert_eq!(trace[4].0.len(), f.len());
    assert_eq!(trace[4].1.len(), t.len());
    // Without resampling, what the last layer gives comes out channels first.
    for c in 0..d {
        for j in 0..4 {
            for r in 0..3 {
                assert_eq!(g[(c * 3 + r) * 4 + j], trace[4].0[(j * 3 + r) * d + c]);
            }
        }
        for j in 0..5 {
            assert_eq!(u[c * 5 + j], trace[4].1[j * d + c]);
        }
    }
}

#[test]
fn misfitting_weights_are_found_beforehand() {
    let w = conv2d_of(2, 3, 8, 1, 1);
    let b = bias_of(2, 2);
    assert_eq!(check_conv2d(1 * 3 * 16 * 5, [1, 3, 16, 5], &w, &b.data, 2, 0, 4, 1), Some([1, 2, 4, 5]));
    // Too few channels, too few numbers, and a kernel that does not fit.
    assert_eq!(check_conv2d(1 * 2 * 16 * 5, [1, 2, 16, 5], &w, &b.data, 2, 0, 4, 1), None);
    assert_eq!(check_conv2d(10, [1, 3, 16, 5], &w, &b.data, 2, 0, 4, 1), None);
    assert_eq!(check_conv2d(1 * 3 * 3 * 5, [1, 3, 3, 5], &w, &b.data, 2, 0, 4, 1), None);
    let w = conv1d_of(2, 3, 3, 1);
    assert_eq!(check_conv1d(3 * 7, [1, 3, 7], &w, &b.data, 1, 1, 1), Some([1, 2, 7]));
    assert_eq!(check_conv1d(3 * 7, [1, 3, 7], &w, &vec![1.0f32], 1, 1, 1), None);
    assert_eq!(check_henc(4 * 16 * 3, [1, 4, 16, 3], &freq_encoder(4, 2, 1)), Some([1, 2, 4, 3]));
    assert_eq!(check_henc(3 * 16 * 3, [1, 3, 16, 3], &freq_encoder(4, 2, 1)), None);
    let attn = uniform_attention(8, 2);
    assert!(check_mha(16, [1, 2, 8], 24, [1, 3, 8], &attn));
    assert!(!check_mha(12, [1, 2, 6], 24, [1, 3, 8], &attn));
    let ct = plain_transformer(8);
    assert_eq!(
        check_cross_domain(8 * 12, [1, 8, 3, 4], 8 * 5, [1, 8, 5], &ct),
        Some(([1, 8, 3, 4], [1, 8, 5]))
    );
    assert_eq!(check_cross_domain(6 * 12, [1, 6, 3, 4], 8 * 5, [1, 8, 5], &ct), None);
}

#[test]
fn spectrogram_comes_back_from_channels() {
    let bins = 4;
    let frames = 3;
    let spec: Vec<Complex<f32>> =
        (0..bins * frames).map(|i| Complex { re: i as f32, im: -(i as f32) - 0.5 }).collect();
    let cac = stft_to_cac(&spec, 2 * bins);
    assert_eq!(cac.len(), 2 * bins * frames);
    // Real parts first, frequency by frequency.
    assert_eq!(cac[..frames], [0.0, 4.0, 8.0]);
    assert_eq!(cac[bins * frames], -0.5);
    let back = cac_data_to_complex(&Single, &cac, bins, frames);
    assert_eq!(back.len(), frames * (bins + 1));
    for f in 0..frames {
        for k in 0..bins {
            assert_eq!(back[f * (bins + 1) + k].re, spec[f * bins + k].re);
            assert_eq!(back[f * (bins + 1) + k].im, spec[f * bins + k].im);
        }
        assert_eq!(back[f * (bins + 1) + bins].re, 0.0);
        assert_eq!(back[f * (bins + 1) + bins].im, 0.0);
    }
}

#[test]
fn probe_extract_stems_zero_input() {
    let n_bins = 2048;
    let n_frames = 336;
    let padded_len = 343980;
    let freq_out = vec![0.0f32; 16 * n_bins * n_frames];
    let time_out = vec![0.0f32; 8 * padded_len];
    let stems = ops_cpu::extract_stems(
        &Single,
        &freq_out,
        [1, 16, n_bins, n_frames],
        &time_out,
        [1, 8, padded_len],
        n_frames,
        padded_len,
        padded_len,
    )
    .expect("stems");
    assert_eq!(stems.len(), 4);
    for s in &stems {
        assert_eq!(s.left.len(), padded_len);
        assert!(s.left.iter().all(|&v| v.abs() < 1e-3));
        assert!(s.right.iter().all(|&v| v.abs() < 1e-3));
    }
}

#[test]
fn probe_extract_stems_known_freq() {
    let n_bins = 2048;
    let n_frames = 336;
    let padded_len = 343980;
    let mut freq_out = vec![0.0f32; 16 * n_bins * n_frames];
    let time_out = vec![0.0f32; 8 * padded_len];
    for ch in 0..4 {
        for i in 0..n_bins * n_frames {
            freq_out[ch * n_bins * n_frames + i] = 0.1;
        }
    }
    let stems = ops_cpu::extract_stems(
        &Single,
        &freq_out,
        [1, 16, n_bins, n_frames],
        &time_out,
        [1, 8, padded_len],
        n_frames,
        padded_len,
        padded_len,
    )
    .expect("stems");
    let ids: Vec<StemId> = stems.iter().map(|s| s.id).collect();
    assert_eq!(ids, vec![StemId::Drums, StemId::Bass, StemId::Other, StemId::Vocals]);
    // The first two channels are the left of the drums, the next two their right.
    assert!((stems[0].left[5] + 0.2).abs() < 1e-6);
    assert!((stems[0].right[5] + 0.2).abs() < 1e-6);
    for s in &stems[1..] {
        assert!(s.left.iter().all(|&v| v == 0.0));
        assert!(s.right.iter().all(|&v| v == 0.0));
    }
}

#[test]
fn stems_are_the_sum_of_both_branches() {
    let n_bins = 2048;
    let n_frames = 2;
    let n = 2048;
    let mut freq_out = vec![0.0f32; 24 * n_bins * 3];
    let mut time_out = vec![0.0f32; 12 * 3000];
    // Bin 1050 of frame 1 of the right channel of the bass, and its time branch.
    freq_out[(6 * n_bins + 1050) * 3 + 1] = 5.0;
    time_out[3 * 3000 + 1100] = 0.25;
    let stems = ops_cpu::extract_stems(
        &Single,
        &freq_out,
        [1, 24, n_bins, 3],
        &time_out,
        [1, 12, 3000],
        n_frames,
        3000,
        n,
    )
    .expect("stems");
    assert_eq!(stems.len(), 6);
    assert_eq!(stems[4].id, StemId::Guitar);
    assert_eq!(stems[5].id, StemId::Piano);
    assert_eq!(stems[1].right.len(), n);
    assert_eq!(stems[1].right[1050], 5.0);
    assert_eq!(stems[1].right[1100], 0.25);
    assert_eq!(stems[1].right.iter().filter(|v| **v != 0.0).count(), 2);
    // The third frame is not taken, so it can be cut off beforehand.
    let cut = trim_middle(&freq_out, 24 * n_bins, 3, 1, 2);
    let again =
        ops_cpu::extract_stems(&Single, &cut, [1, 24, n_bins, 2], &time_out, [1, 12, 3000], n_frames, 3000, n)
            .expect("stems");
    for (s, t) in stems.iter().zip(&again) {
        assert_eq!((s.id, &s.left, &s.right), (t.id, &t.left, &t.right));
    }
    assert!(stems[1].left.iter().all(|v| *v == 0.0));
}

#[test]
fn stems_fail_alike_when_frames_are_cut_off_beforehand() {
    let n_bins = 2048;
    let time_out = vec![0.0f32; 12 * 3000];
    let of = |x: &[f32], frames: usize| {
        ops_cpu::extract_stems(&Single, x, [1, 24, n_bins, frames], &time_out, [1, 12, 3000], 2, 3000, 2048)
            .map(|v| v.len())
            .map_err(|e| e.message())
    };
    for (frame, good) in [(0, false), (1, false), (2, true)] {
        let mut freq_out = vec![0.0f32; 24 * n_bins * 3];
        freq_out[(6 * n_bins + 7) * 3 + frame] = f32::NAN;
        let cut = trim_middle(&freq_out, 24 * n_bins, 3, 1, 2);
        let r = of(&freq_out, 3);
        assert_eq!(r.is_ok(), good);
        assert_eq!(r, of(&cut, 2));
    }
}
