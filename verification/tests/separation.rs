//! From audio to stems.
use demucs_native::arith::{Arith, Gemm};
use demucs_native::chunk::{add_weight, add_windowed, triangular_window, unweight};
use demucs_native::cpu_engine::{build_freq_tensor, build_time_tensor};
use demucs_native::cuda_engine::{CudaModel, Device, Job};
use demucs_native::dsp::{Complex, Dsp};
use demucs_native::engine::{Engine, LoadedModel};
use demucs_native::error::DemucsError;
use demucs_native::gpu_loading::Uploads;
use demucs_native::gpu_model::GpuHTDemucs;
use demucs_native::metadata::{ModelInfo, StemId};
use demucs_native::model::{
    Bias, Conv1dWeight, Conv2dWeight, CrossDomainTransformer, DConv, DConvLayer, FreqEmb, GroupNorm1, HDecLayer,
    HEncLayer, HTDemucs, LayerNorm1, LayerScale, MhaWeights, SelfAttnLayer, TDecLayer, TEncLayer,
    TransformerLayerWeights, Weight2D,
};
use demucs_native::{Demucs, DemucsInner, SAMPLE_RATE, TRAINING_LENGTH};

/// Single precision.
struct Single;

impl Arith for Single {
    type T = f32;

    type Product = (usize, Vec<f32>);

    fn zero(&self) -> f32 {
        0.0
    }

    fn lowest(&self) -> f32 {
        f32::NEG_INFINITY
    }

    fn ratio(&self, num: u64, den: u64) -> f32 {
        (num as f64 / den as f64) as f32
    }

    fn count(&self, n: usize) -> f32 {
        n as f32
    }

    fn from_bits(&self, bits: u32) -> f32 {
        f32::from_bits(bits)
    }

    fn from_half_bits(&self, bits: u16) -> f32 {
        half::f16::from_bits(bits).to_f32()
    }

    fn greater(&self, x: f32, y: f32) -> bool {
        x > y
    }

    fn neg(&self, x: f32) -> f32 {
        -x
    }

    fn abs(&self, x: f32) -> f32 {
        x.abs()
    }

    fn exp(&self, x: f32) -> f32 {
        x.exp()
    }

    fn ln(&self, x: f32) -> f32 {
        x.ln()
    }

    fn sqrt(&self, x: f32) -> f32 {
        x.sqrt()
    }

    fn recip(&self, x: f32) -> f32 {
        x.recip()
    }

    fn sin(&self, x: f32) -> f32 {
        x.sin()
    }

    fn cos(&self, x: f32) -> f32 {
        x.cos()
    }

    fn add(&self, x: f32, y: f32) -> f32 {
        x + y
    }

    fn sub(&self, x: f32, y: f32) -> f32 {
        x - y
    }

    fn mul(&self, x: f32, y: f32) -> f32 {
        x * y
    }

    fn div(&self, x: f32, y: f32) -> f32 {
        x / y
    }

    fn pow(&self, x: f32, y: f32) -> f32 {
        x.powf(y)
    }

    fn erf_scaled(&self, x: f32, y: f32) -> f32 {
        libm::erf(x as f64 * y as f64) as f32
    }

    fn gemm(&self, g: Gemm, lhs: &[f32], rhs: &[f32], scale: f32) -> (usize, Vec<f32>) {
        let mut out = vec![0.0f32; g.m * g.n];
        for i in 0..g.m {
            for l in 0..g.k {
                let x = scale * lhs[i * g.lhs_rs + l * g.lhs_cs];
                for j in 0..g.n {
                    out[i * g.n + j] += x * rhs[l * g.rhs_rs + j * g.rhs_cs];
                }
            }
        }
        (g.n, out)
    }

    fn entry(&self, product: &(usize, Vec<f32>), i: usize, j: usize) -> f32 {
        product.1[i * product.0 + j]
    }
}

impl Dsp for Single {
    /// As large as a spectrogram, but silent.
    fn stft(&self, n_fft: usize, hop: usize, x: &[f32]) -> Result<Vec<Complex<f32>>, DemucsError> {
        let frames = (x.len() + hop - 1) / hop;
        Ok(vec![Complex { re: 0.0, im: 0.0 }; frames * (n_fft / 2)])
    }

    /// Sample `t` is the difference of the two parts of bin `t % bins` of frame `t / hop`.
    fn istft(&self, n_fft: usize, hop: usize, spec: &[Complex<f32>], len: usize) -> Result<Vec<f32>, DemucsError> {
        let bins = n_fft / 2 + 1;
        let frames = spec.len() / bins;
        let mut out = Vec::new();
        for t in 0..len {
            let f = t / hop;
            let v = if f < frames { spec[f * bins + t % bins].re - spec[f * bins + t % bins].im } else { 0.0 };
            out.push(v);
        }
        Ok(out)
    }

    /// The nearest sample.
    fn resample(&self, x: &[f32], from: u32, to: u32) -> Result<Vec<f32>, DemucsError> {
        if from == 0 || to == 0 {
            return Err(DemucsError::Dsp("no rate".to_string()));
        }
        let n = x.len() * to as usize / from as usize;
        Ok((0..n).map(|i| x[i * from as usize / to as usize]).collect())
    }
}

fn four() -> Vec<StemId> {
    vec![StemId::Drums, StemId::Bass, StemId::Other, StemId::Vocals]
}

fn engine<M>(models: Vec<M>, model_stems: Vec<StemId>, selected_stems: Vec<StemId>) -> Engine<M> {
    Engine {
        info: ModelInfo::htdemucs(),
        models: models.into_iter().map(|model| LoadedModel { sig: "x".to_string(), model }).collect(),
        model_stems,
        selected_stems,
        n_sources: 4,
        bottom_channels: 512,
    }
}

fn close(a: &[f32], b: &[f32], tol: f32) -> bool {
    a.len() == b.len() && a.iter().zip(b).all(|(x, y)| (x - y).abs() < tol)
}

fn tone(n: usize, f: f32) -> Vec<f32> {
    (0..n).map(|i| (i as f32 * f).sin()).collect()
}

/// A model on the device that gives stem `k` at `volume` times `k + 1`.
fn echo(volume: f32) -> CudaModel<f32> {
    let mut m = tiny_network();
    m.encoders[0].conv.data[0] = volume;
    let mut weights = Uploads::new();
    let model = GpuHTDemucs::from_cpu(&mut weights, &m).expect("weights");
    CudaModel { weights, model }
}

fn average(x: &[f32]) -> f32 {
    (x.iter().map(|v| *v as f64).sum::<f64>() / x.len() as f64) as f32
}

/// What becomes of a segment at a volume: the waveform around its mean, which silence after its
/// end and the other channel have a part in.
fn louder(x: &[f32], other: &[f32], volume: f32) -> Vec<f32> {
    let m = (average(x) + average(other)) / 2.0 * x.len() as f32 / TRAINING_LENGTH as f32;
    x.iter().map(|v| (v - m) * volume + m).collect()
}

#[test]
fn short_audio_is_one_segment() {
    let e = engine(vec![echo(1.0)], vec![StemId::Drums], four());
    let left = tone(50_000, 0.01);
    let right = tone(50_000, 0.02);
    let out = e.separate(&Single, &left, &right, SAMPLE_RATE as u32).expect("stems");
    assert_eq!(out.iter().map(|s| s.id).collect::<Vec<StemId>>(), four());
    for (k, s) in out.iter().enumerate() {
        let v = k as f32 + 1.0;
        assert!(close(&s.left, &louder(&left, &right, v), 1e-3));
        assert!(close(&s.right, &louder(&right, &left, v), 1e-3));
    }
    let out = e.separate_single_segment(&Single, &[], &[]).expect("stems");
    assert!(out[0].left.is_empty());
}

#[test]
fn only_the_selected_stems_are_given() {
    let e = engine(vec![echo(1.0)], vec![StemId::Drums], vec![StemId::Vocals, StemId::Bass]);
    let x = tone(50_000, 0.1);
    let out = e.separate(&Single, &x, &x, SAMPLE_RATE as u32).expect("stems");
    // In the order of the model, not in that of the selection.
    assert_eq!(out.iter().map(|s| s.id).collect::<Vec<StemId>>(), vec![StemId::Bass, StemId::Vocals]);
    assert!(close(&out[1].left, &louder(&x, &x, 4.0), 1e-3));
}

#[test]
fn overlapping_chunks_add_up() {
    let e = engine(vec![echo(1.0)], vec![StemId::Drums], vec![StemId::Drums]);
    let n = TRAINING_LENGTH + 300_000;
    let left = tone(n, 0.001);
    let right = tone(n, 0.003);
    let out = e.separate(&Single, &left, &right, SAMPLE_RATE as u32).expect("stems");
    assert_eq!(out.len(), 1);
    // Whatever the windows weigh, a network that gives its input back leaves it as it is, but
    // for the very ends, where the window is zero.
    assert!(close(&out[0].left[5..n - 5], &left[5..n - 5], 1e-3));
    assert!(close(&out[0].right[5..n - 5], &right[5..n - 5], 1e-3));
    assert_eq!((out[0].left.len(), out[0].left[0]), (n, 0.0));
}

#[test]
fn of_tuned_models_each_gives_its_stem() {
    let e = engine(
        vec![echo(1.0), echo(10.0)],
        vec![StemId::Bass, StemId::Vocals],
        vec![StemId::Bass, StemId::Vocals],
    );
    let x = tone(50_000, 0.1);
    let out = e.separate(&Single, &x, &x, SAMPLE_RATE as u32).expect("stems");
    assert_eq!(out.iter().map(|s| s.id).collect::<Vec<StemId>>(), vec![StemId::Bass, StemId::Vocals]);
    assert!(close(&out[0].left, &louder(&x, &x, 2.0), 1e-3));
    assert!(close(&out[1].left, &louder(&x, &x, 40.0), 1e-2));
}

#[test]
fn other_rates_are_resampled_both_ways() {
    let e = engine(vec![echo(1.0)], vec![StemId::Drums], vec![StemId::Drums]);
    // Half of the samples are lost on the way, and doubled on the way back.
    let y = tone(50_000, 0.001);
    let out = e.separate(&Single, &y, &y, 2 * SAMPLE_RATE as u32).expect("stems");
    let expected: Vec<f32> = (0..y.len()).map(|i| y[i / 2 * 2]).collect();
    assert!(close(&out[0].left, &expected, 1e-3));
    assert!(close(&out[0].right, &expected, 1e-3));
    // Channels of different lengths are found out after resampling.
    match e.separate(&Single, &y, &y[..50], 2 * SAMPLE_RATE as u32) {
        Err(err) => assert_eq!(err.message(), "DSP error: resample: the channels differ in length"),
        Ok(_) => panic!("separated"),
    }
}

#[test]
fn another_rate_is_resampling_around_the_networks_own() {
    let e = engine(vec![echo(1.0)], vec![StemId::Drums], vec![StemId::Drums, StemId::Other]);
    let rate = 2 * SAMPLE_RATE as u32;
    let native = SAMPLE_RATE as u32;
    let (x, y) = (tone(9_000, 0.01), tone(9_000, 0.02));
    let out = e.separate(&Single, &x, &y, rate).expect("stems");
    let l = Single.resample(&x, rate, native).expect("left");
    let r = Single.resample(&y, rate, native).expect("right");
    let mid = e.separate(&Single, &l, &r, native).expect("stems");
    assert_eq!(out.len(), mid.len());
    for (s, m) in out.iter().zip(&mid) {
        assert_eq!(s.id, m.id);
        assert_eq!(s.left, Single.resample(&m.left, native, rate).expect("left"));
        assert_eq!(s.right, Single.resample(&m.right, native, rate).expect("right"));
    }
}

#[test]
fn zeros_after_a_segment_change_nothing() {
    let e = engine(vec![echo(1.0), echo(3.0)], vec![StemId::Bass, StemId::Vocals], four());
    let (x, y) = (tone(3_000, 0.01), tone(3_000, 0.02));
    let out = e.separate_single_segment(&Single, &x, &y).expect("stems");
    let fill = |v: &[f32]| [v, &[0.0; 500]].concat();
    let more = e.separate_single_segment(&Single, &fill(&x), &fill(&y)).expect("stems");
    assert_eq!((out.len(), more.len()), (2, 2));
    for (s, m) in out.iter().zip(&more) {
        assert_eq!(s.id, m.id);
        assert_eq!(m.left.len(), 3_500);
        assert_eq!(s.left, m.left[..3_000]);
        assert_eq!(s.right, m.right[..3_000]);
    }
}

#[test]
fn failures_come_through() {
    let e = engine(vec![echo(-1.0)], vec![StemId::Drums], four());
    let x = tone(10, 0.1);
    match e.separate(&Single, &x, &x, SAMPLE_RATE as u32) {
        Err(err) => assert_eq!(err.message(), "CUDA error: out of order"),
        Ok(_) => panic!("separated"),
    }
    match e.separate(&Single, &x, &x, 0) {
        Err(err) => assert_eq!(err.message(), "DSP error: resample: no rate"),
        Ok(_) => panic!("separated"),
    }
}

#[test]
fn stems_that_the_model_is_not_known_for_are_refused() {
    let mut m = tiny_network();
    m.decoders[3].conv_tr = conv2d_of(24, 1, 8, 1, 1);
    m.decoders[3].conv_tr_bias = bias_of(24, 2);
    m.tdecoders[3].conv_tr = conv1d_of(12, 1, 8, 3);
    m.tdecoders[3].conv_tr_bias = bias_of(12, 4);
    m.n_sources = 6;
    m.encoders[0].conv.data[0] = 1.0;
    let mut weights = Uploads::new();
    let model = GpuHTDemucs::from_cpu(&mut weights, &m).expect("weights");
    let e = engine(vec![CudaModel { weights, model }], vec![StemId::Drums], four());
    let x = tone(TRAINING_LENGTH + 1, 0.1);
    match e.separate(&Single, &x, &x, SAMPLE_RATE as u32) {
        Err(err) => assert_eq!(err.message(), "internal: a model gave a stem that it should not have"),
        Ok(_) => panic!("separated"),
    }
}

#[test]
fn windows_rise_and_fall() {
    let w = triangular_window(&Single, 5);
    assert_eq!(w, vec![0.0, 0.5, 1.0, 0.5, 0.0]);
    assert_eq!(triangular_window(&Single, 1), vec![1.0]);
    let mut sum = vec![0.0f32; 7];
    let mut weight = vec![0.0f32; 7];
    add_windowed(&Single, &mut sum, 1, &w, &[8.0; 5]);
    add_weight(&Single, &mut weight, 1, &w);
    assert_eq!(sum, vec![0.0, 0.0, 4.0, 8.0, 4.0, 0.0, 0.0]);
    assert_eq!(weight, vec![0.0, 0.0, 0.5, 1.0, 0.5, 0.0, 0.0]);
    // Where nothing was added, nothing is divided.
    assert_eq!(unweight(&Single, &sum, &weight), vec![0.0, 0.0, 8.0, 8.0, 8.0, 0.0, 0.0]);
}

#[test]
fn inputs_are_laid_out_for_the_network() {
    let l: Vec<f32> = (0..8).map(|i| i as f32).collect();
    let r: Vec<f32> = (8..16).map(|i| i as f32).collect();
    let freq = build_freq_tensor(&l, &r, 2, 2);
    assert_eq!(freq, (0..16).map(|i| i as f32).collect::<Vec<f32>>());
    let time = build_time_tensor(&Single, &[1.0, 2.0], &[3.0, 4.0], 3);
    assert_eq!(time, vec![1.0, 2.0, 0.0, 3.0, 4.0, 0.0]);
}

fn waves(n: usize, seed: usize) -> Vec<f32> {
    (0..n).map(|i| ((i * 37 + seed * 101) as f32 * 0.37).sin() * 0.5).collect()
}

fn bias_of(n: usize, seed: usize) -> Bias<f32> {
    Bias { data: waves(n, seed), len: n }
}

fn conv1d_of(out_ch: usize, in_ch: usize, k: usize, seed: usize) -> Conv1dWeight<f32> {
    Conv1dWeight { data: waves(out_ch * in_ch * k, seed), out_ch, in_ch, k }
}

fn conv2d_of(out_ch: usize, in_ch: usize, kh: usize, kw: usize, seed: usize) -> Conv2dWeight<f32> {
    Conv2dWeight { data: waves(out_ch * in_ch * kh * kw, seed), out_ch, in_ch, kh, kw }
}

fn group_norm(n: usize, seed: usize) -> GroupNorm1<f32> {
    GroupNorm1 { gamma: waves(n, seed), beta: waves(n, seed + 1), num_channels: n }
}

fn residual(c: usize, seed: usize) -> DConv<f32> {
    DConv {
        layers: vec![DConvLayer {
            conv1: conv1d_of(1, c, 3, seed),
            conv1_bias: bias_of(1, seed + 1),
            norm1: group_norm(1, seed + 2),
            conv2: conv1d_of(2 * c, 1, 1, seed + 3),
            conv2_bias: bias_of(2 * c, seed + 4),
            norm2: group_norm(2 * c, seed + 5),
            scale: LayerScale { scale: waves(c, seed + 6) },
        }],
    }
}

fn attends(d: usize, seed: usize) -> TransformerLayerWeights<f32> {
    TransformerLayerWeights {
        self_attn: Some(SelfAttnLayer {
            norm1: LayerNorm1 { gamma: waves(d, seed), beta: waves(d, seed + 1), dim: d },
            attn: MhaWeights {
                in_proj_weight: waves(3 * d * d, seed + 2),
                in_proj_bias: waves(3 * d, seed + 3),
                out_proj_weight: waves(d * d, seed + 4),
                out_proj_bias: waves(d, seed + 5),
                d_model: d,
                n_heads: 1,
            },
            gamma_1: LayerScale { scale: waves(d, seed + 6) },
            norm2: LayerNorm1 { gamma: waves(d, seed + 7), beta: waves(d, seed + 8), dim: d },
            linear1: Weight2D { data: waves(d, seed + 9), rows: 1, cols: d },
            linear1_bias: waves(1, seed + 10),
            linear2: Weight2D { data: waves(d, seed + 11), rows: d, cols: 1 },
            linear2_bias: waves(d, seed + 12),
            gamma_2: LayerScale { scale: waves(d, seed + 13) },
            norm_out: group_norm(d, seed + 14),
        }),
        cross_attn: None,
    }
}

/// A network of four sources with as few channels as possible, and of the full depth.
fn tiny_network() -> HTDemucs<f32> {
    let henc = |c_in: usize, seed: usize| HEncLayer {
        conv: conv2d_of(1, c_in, 8, 1, seed),
        conv_bias: bias_of(1, seed + 1),
        dconv: residual(1, seed + 2),
        rewrite: conv2d_of(2, 1, 1, 1, seed + 3),
        rewrite_bias: bias_of(2, seed + 4),
    };
    let tenc = |c_in: usize, seed: usize| TEncLayer {
        conv: conv1d_of(1, c_in, 8, seed),
        conv_bias: bias_of(1, seed + 1),
        dconv: residual(1, seed + 2),
        rewrite: conv1d_of(2, 1, 1, seed + 3),
        rewrite_bias: bias_of(2, seed + 4),
    };
    let hdec = |c_out: usize, last: bool, seed: usize| HDecLayer {
        rewrite: conv2d_of(2, 1, 3, 3, seed),
        rewrite_bias: bias_of(2, seed + 1),
        dconv: residual(1, seed + 2),
        conv_tr: conv2d_of(c_out, 1, 8, 1, seed + 3),
        conv_tr_bias: bias_of(c_out, seed + 4),
        last,
    };
    let tdec = |c_out: usize, last: bool, seed: usize| TDecLayer {
        rewrite: conv1d_of(2, 1, 3, seed),
        rewrite_bias: bias_of(2, seed + 1),
        dconv: residual(1, seed + 2),
        conv_tr: conv1d_of(c_out, 1, 8, seed + 3),
        conv_tr_bias: bias_of(c_out, seed + 4),
        last,
    };
    let d = 1;
    HTDemucs {
        encoders: vec![henc(4, 1), henc(1, 20), henc(1, 40), henc(1, 60)],
        tencoders: vec![tenc(2, 80), tenc(1, 100), tenc(1, 120), tenc(1, 140)],
        crosstransformer: CrossDomainTransformer {
            norm_in: LayerNorm1 { gamma: waves(d, 1), beta: waves(d, 2), dim: d },
            norm_in_t: LayerNorm1 { gamma: waves(d, 3), beta: waves(d, 4), dim: d },
            channel_upsampler: None,
            channel_upsampler_bias: None,
            channel_downsampler: None,
            channel_downsampler_bias: None,
            channel_upsampler_t: None,
            channel_upsampler_t_bias: None,
            channel_downsampler_t: None,
            channel_downsampler_t_bias: None,
            layers: (0..5).map(|i| attends(d, 10 + 20 * i)).collect(),
            layers_t: (0..5).map(|i| attends(d, 20 + 20 * i)).collect(),
        },
        decoders: vec![hdec(1, false, 200), hdec(1, false, 220), hdec(1, false, 240), hdec(16, true, 260)],
        tdecoders: vec![tdec(1, false, 300), tdec(1, false, 320), tdec(1, false, 340), tdec(8, true, 360)],
        freq_emb: FreqEmb { data: waves(512, 400), n_bins: 512, dim: 1 },
        n_sources: 4,
        bottom_channels: d,
    }
}

/// A device that gives the waveform back, stem `k` at the first weight times `k + 1`.
impl Device for Single {
    fn run(&self, job: Job<'_, f32>) -> Result<(Vec<f32>, Vec<f32>), DemucsError> {
        assert_eq!(job.freq.len(), 4 * 2048 * 336);
        assert_eq!(job.time.len(), 2 * TRAINING_LENGTH);
        let stems = job.freq_out.d1 / 4;
        assert_eq!(job.freq_out.shape(), vec![1, 4 * stems, 2048, 336]);
        assert_eq!(job.time_out.shape(), vec![1, 2 * stems, TRAINING_LENGTH]);
        assert!(job.freq_out.data.id < job.program.steps.len());
        assert!(job.time_out.data.id < job.program.steps.len());
        let volume = job.weights.arrays[0][0];
        if volume < 0.0 {
            return Err(DemucsError::Cuda("out of order".to_string()));
        }
        let mut time = Vec::new();
        for k in 0..stems {
            time.extend(job.time.iter().map(|v| v * volume * (k as f32 + 1.0)));
        }
        Ok((vec![0.0; job.freq_out.data.len], time))
    }
}

#[test]
fn a_network_separates_on_the_processor() {
    let e = engine(vec![tiny_network()], vec![StemId::Drums], vec![StemId::Other]);
    let d = Demucs { inner: DemucsInner::Cpu(e) };
    let x = tone(5000, 0.05);
    let out = d.separate(&Single, &x, &x, SAMPLE_RATE as u32).expect("stems");
    assert_eq!(out.len(), 1);
    assert_eq!(out[0].id, StemId::Other);
    assert_eq!((out[0].left.len(), out[0].right.len()), (5000, 5000));
    assert!(out[0].left.iter().all(|v| v.is_finite()));
    assert!(out[0].left.iter().any(|v| *v != 0.0));
}

#[test]
fn weights_that_do_not_fit_are_refused() {
    let mut m = tiny_network();
    m.encoders[1].conv = conv2d_of(1, 3, 8, 1, 1);
    let e = engine(vec![m], vec![StemId::Drums], vec![StemId::Other]);
    let d = Demucs { inner: DemucsInner::Cpu(e) };
    let x = tone(100, 0.05);
    match d.separate(&Single, &x, &x, SAMPLE_RATE as u32) {
        Err(err) => assert_eq!(err.message(), "shape mismatch: the weights do not fit the network"),
        Ok(_) => panic!("separated"),
    }
}
