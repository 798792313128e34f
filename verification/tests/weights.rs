//! Files of weights, and the loading of models from them.
use demucs_native::arith::{Arith, Gemm, HalfArith};
use demucs_native::error::DemucsError;
use demucs_native::file_header::holds_huge_offset;
use demucs_native::json::{exceeds, find_value_end, list_items, list_members, skip_space};
use demucs_native::model::{CrossDomainTransformer, FreqEmb, FreqEncoder, HDecLayer, HTDemucs};
use demucs_native::ops_cpu::encoder::add_freq_emb;
use demucs_native::raw_tensor::{Dtype, RawTensor};
use demucs_native::weights::WeightStore;
use demucs_native::{Backend, Demucs, DemucsInner, LoadOptions, ModelVariant, StemId, StemSelection};

/// Single precision.
struct Single;

impl Arith for Single {
    type T = f32;

    type Product = (usize, Vec<f32>);

    fn zero(&self) -> f32 {
        0.0
    }

    fn lowest(&self) -> f32 {
        f32::NEG_INFINITY
    }

    fn ratio(&self, num: u64, den: u64) -> f32 {
        (num as f64 / den as f64) as f32
    }

    fn count(&self, n: usize) -> f32 {
        n as f32
    }

    fn from_bits(&self, bits: u32) -> f32 {
        f32::from_bits(bits)
    }

    fn from_half_bits(&self, bits: u16) -> f32 {
        half::f16::from_bits(bits).to_f32()
    }

    fn greater(&self, x: f32, y: f32) -> bool {
        x > y
    }

    fn neg(&self, x: f32) -> f32 {
        -x
    }

    fn abs(&self, x: f32) -> f32 {
        x.abs()
    }

    fn exp(&self, x: f32) -> f32 {
        x.exp()
    }

    fn ln(&self, x: f32) -> f32 {
        x.ln()
    }

    fn sqrt(&self, x: f32) -> f32 {
        x.sqrt()
    }

    fn recip(&self, x: f32) -> f32 {
        x.recip()
    }

    fn sin(&self, x: f32) -> f32 {
        x.sin()
    }

    fn cos(&self, x: f32) -> f32 {
        x.cos()
    }

    fn add(&self, x: f32, y: f32) -> f32 {
        x + y
    }

    fn sub(&self, x: f32, y: f32) -> f32 {
        x - y
    }

    fn mul(&self, x: f32, y: f32) -> f32 {
        x * y
    }

    fn div(&self, x: f32, y: f32) -> f32 {
        x / y
    }

    fn pow(&self, x: f32, y: f32) -> f32 {
        x.powf(y)
    }

    fn erf_scaled(&self, x: f32, y: f32) -> f32 {
        libm::erf(x as f64 * y as f64) as f32
    }

    fn gemm(&self, g: Gemm, lhs: &[f32], rhs: &[f32], scale: f32) -> (usize, Vec<f32>) {
        let mut out = vec![0.0f32; g.m * g.n];
        for i in 0..g.m {
            for l in 0..g.k {
                let x = scale * lhs[i * g.lhs_rs + l * g.lhs_cs];
                for j in 0..g.n {
                    out[i * g.n + j] += x * rhs[l * g.rhs_rs + j * g.rhs_cs];
                }
            }
        }
        (g.n, out)
    }

    fn entry(&self, product: &(usize, Vec<f32>), i: usize, j: usize) -> f32 {
        product.1[i * product.0 + j]
    }
}

/// A tensor of a file: its name, its shape, and its numbers in half precision.
struct Named {
    name: String,
    shape: Vec<usize>,
    bytes: Vec<u8>,
}

struct Builder {
    sig: &'static str,
    tensors: Vec<Named>,
}

impl Builder {
    /// Adds a tensor of small numbers.
    fn add(&mut self, key: &str, shape: &[usize]) {
        let n: usize = shape.iter().product();
        let mut bytes = Vec::new();
        for i in 0..n {
            let v = half::f16::from_f32((i % 7) as f32 * 0.125 - 0.25);
            bytes.extend_from_slice(&v.to_le_bytes());
        }
        self.tensors.push(Named { name: format!("{}.{}", self.sig, key), shape: shape.to_vec(), bytes });
    }

    fn pair(&mut self, key: &str, shape: &[usize], bias: usize) {
        self.add(&format!("{key}.weight"), shape);
        self.add(&format!("{key}.bias"), &[bias]);
    }

    fn residual(&mut self, key: &str, c: usize) {
        for j in 0..2 {
            let k = format!("{key}.dconv.layers.{j}");
            self.pair(&format!("{k}.0"), &[2, c, 3], 2);
            self.pair(&format!("{k}.1"), &[2], 2);
            self.pair(&format!("{k}.3"), &[2 * c, 2, 1], 2 * c);
            self.pair(&format!("{k}.4"), &[2 * c], 2 * c);
            self.add(&format!("{k}.6.scale"), &[c]);
        }
    }

    fn attention(&mut self, key: &str, d: usize, cross: bool) {
        let kind = if cross { "cross_attn" } else { "self_attn" };
        self.pair(&format!("{key}.norm1"), &[d], d);
        self.pair(&format!("{key}.norm2"), &[d], d);
        if cross {
            self.pair(&format!("{key}.norm3"), &[d], d);
        }
        self.add(&format!("{key}.{kind}.in_proj_weight"), &[3 * d, d]);
        self.add(&format!("{key}.{kind}.in_proj_bias"), &[3 * d]);
        self.pair(&format!("{key}.{kind}.out_proj"), &[d, d], d);
        self.add(&format!("{key}.gamma_1.scale"), &[d]);
        self.pair(&format!("{key}.linear1"), &[2, d], 2);
        self.pair(&format!("{key}.linear2"), &[d, 2], d);
        self.add(&format!("{key}.gamma_2.scale"), &[d]);
        self.pair(&format!("{key}.norm_out"), &[d], d);
    }

    /// All tensors of the model with six stems, with few channels.
    fn six_stems() -> Builder {
        let mut b = Builder { sig: "5c90dfd2", tensors: Vec::new() };
        for i in 0..4 {
            let (f, t) = if i == 0 { (4, 2) } else { (3, 3) };
            b.pair(&format!("encoder.{i}.conv"), &[3, f, 8, 1], 3);
            b.residual(&format!("encoder.{i}"), 3);
            b.pair(&format!("encoder.{i}.rewrite"), &[6, 3, 1, 1], 6);
            b.pair(&format!("tencoder.{i}.conv"), &[3, t, 8], 3);
            b.residual(&format!("tencoder.{i}"), 3);
            b.pair(&format!("tencoder.{i}.rewrite"), &[6, 3, 1], 6);
            b.pair(&format!("decoder.{i}.rewrite"), &[6, 3, 3, 3], 6);
            b.residual(&format!("decoder.{i}"), 3);
            b.pair(&format!("decoder.{i}.conv_tr"), &[3, 5, 8, 1], 5);
            b.pair(&format!("tdecoder.{i}.rewrite"), &[6, 3, 3], 6);
            b.residual(&format!("tdecoder.{i}"), 3);
            b.pair(&format!("tdecoder.{i}.conv_tr"), &[3, 5, 8], 5);
        }
        b.pair("crosstransformer.norm_in", &[384], 384);
        b.pair("crosstransformer.norm_in_t", &[384], 384);
        for i in 0..5 {
            b.attention(&format!("crosstransformer.layers.{i}"), 384, i % 2 == 1);
            b.attention(&format!("crosstransformer.layers_t.{i}"), 384, i % 2 == 1);
        }
        b.add("freq_emb.embedding.weight", &[2, 48]);
        b
    }

    /// The bytes of the file.
    fn bytes(&self) -> Vec<u8> {
        let views: Vec<(String, safetensors::tensor::TensorView)> = self
            .tensors
            .iter()
            .map(|t| {
                let view = safetensors::tensor::TensorView::new(safetensors::Dtype::F16, t.shape.clone(), &t.bytes);
                (t.name.clone(), view.expect("tensor"))
            })
            .collect();
        safetensors::serialize(views, &None).expect("file")
    }

    fn without(mut self, key: &str) -> Builder {
        let name = format!("{}.{}", self.sig, key);
        let before = self.tensors.len();
        self.tensors.retain(|t| t.name != name);
        assert_eq!(self.tensors.len() + 1, before);
        self
    }

    /// Replaces the shape of a tensor by one with as many elements.
    fn reshaped(mut self, key: &str, shape: &[usize]) -> Builder {
        let name = format!("{}.{}", self.sig, key);
        for t in self.tensors.iter_mut() {
            if t.name == name {
                t.shape = shape.to_vec();
            }
        }
        self
    }
}

impl HalfArith for Single {
    type H = u16;

    fn half(&self, bits: u16) -> u16 {
        bits
    }

    fn narrow(&self, x: f32) -> u16 {
        half::f16::from_f32(x).to_bits()
    }
}

fn raw(dtype: Dtype, data: &[u8]) -> RawTensor {
    RawTensor { data: data.to_vec(), shape: vec![data.len()], dtype }
}

#[test]
fn numbers_are_decoded() {
    // 1.5 and -2.0 in three encodings, the lower byte first.
    let single = raw(Dtype::F32, &[0, 0, 0xC0, 0x3F, 0, 0, 0, 0xC0, 9, 9]);
    assert_eq!(single.to_f32_vec(&Single), vec![1.5, -2.0]);
    let short = raw(Dtype::F16, &[0x00, 0x3E, 0x00, 0xC0]);
    assert_eq!(short.to_f32_vec(&Single), vec![1.5, -2.0]);
    let brain = raw(Dtype::BF16, &[0xC0, 0x3F, 0x00, 0xC0, 1]);
    assert_eq!(brain.to_f32_vec(&Single), vec![1.5, -2.0]);
    assert_eq!(raw(Dtype::Other, &[1, 2, 3, 4]).to_f32_vec(&Single), Vec::<f32>::new());
    assert_eq!(short.to_f16_vec(&Single), vec![0x3E00, 0xC000]);
    assert_eq!(single.to_f16_vec(&Single), vec![0x3E00, 0xC000]);
    let (v, shape) = short.as_f32(&Single);
    assert_eq!(v, vec![1.5, -2.0]);
    assert_eq!(shape, vec![4]);
    assert_eq!(short.clone().data, short.data);
}

fn tiny_file() -> Vec<u8> {
    let a: Vec<u8> = [1.0f32, 2.0].iter().flat_map(|v| v.to_le_bytes()).collect();
    let b = vec![0x00u8, 0x3E];
    let c = vec![7u8];
    let view = |d, s: Vec<usize>, x| safetensors::tensor::TensorView::new(d, s, x).expect("tensor");
    let views = vec![
        ("one.layer.weight".to_string(), view(safetensors::Dtype::F32, vec![1, 2], &a[..])),
        ("two.bias".to_string(), view(safetensors::Dtype::F16, vec![1], &b[..])),
        ("stray".to_string(), view(safetensors::Dtype::U8, vec![1], &c[..])),
    ];
    safetensors::serialize(views, &None).expect("file")
}

#[test]
fn files_are_grouped_by_signature() {
    let store = WeightStore::from_bytes(&tiny_file()).expect("store");
    let mut signatures = store.signatures();
    signatures.sort();
    assert_eq!(signatures, vec!["one", "two"]);
    let t = store.take("one", "layer.weight").expect("tensor");
    assert_eq!(t.shape, vec![1, 2]);
    assert_eq!(t.dtype, Dtype::F32);
    assert_eq!(t.to_f32_vec(&Single), vec![1.0, 2.0]);
    assert_eq!(store.take("two", "bias").expect("tensor").to_f32_vec(&Single), vec![1.5]);
    assert!(store.try_take("one", "bias").is_none());
    match store.take("one", "bias") {
        Err(e) => assert_eq!(e.message(), "weight loading failed: missing weight: one.bias"),
        Ok(_) => panic!("found"),
    }
    assert_eq!(store.signature("one").expect("signature").len(), 1);
    assert_eq!(store.signature("one").expect("signature")[0].key, "layer.weight");
    assert!(store.signature("stray").is_none());
}

#[test]
fn other_bytes_are_refused() {
    match WeightStore::from_bytes(&[1, 2, 3]) {
        Err(DemucsError::Weight(m)) => assert!(m.starts_with("safetensors: ")),
        _ => panic!("accepted"),
    }
}

/// A file with the given header and `data` bytes after it.
fn file_of(header: &str, data: usize) -> Vec<u8> {
    let mut bytes = (header.len() as u64).to_le_bytes().to_vec();
    bytes.extend(header.as_bytes());
    bytes.extend(vec![1u8; data]);
    bytes
}

#[test]
fn offsets_beyond_a_machine_word_are_refused() {
    let huge = "{\"a.b\":{\"dtype\":\"U8\",\"shape\":[18446744073709551615],\"data_offsets\":[0,18446744073709551615]}}";
    let bytes = file_of(huge, 0);
    assert!(holds_huge_offset(&bytes));
    assert_eq!(message(WeightStore::from_bytes(&bytes)), "weight loading failed: safetensors: MetadataIncompleteBuffer");
    // The end of the header counts too.
    let near = huge.replace("18446744073709551615", "18446744073709551520");
    assert_eq!(near.len(), huge.len());
    assert!(holds_huge_offset(&file_of(&near, 0)));
    let far = huge.replace("18446744073709551615", "18446744073709551400");
    assert!(!holds_huge_offset(&file_of(&far, 0)));
    assert!(message(WeightStore::from_bytes(&file_of(&far, 0))).contains("safetensors: "));
    // A header that is not all there is not looked at.
    assert!(!holds_huge_offset(&bytes[..bytes.len() - 1]));
    assert!(!holds_huge_offset(&[255; 7]));
}

#[test]
fn digits_in_names_are_no_numbers() {
    let name = "a.99999999999999999999999\\\"88888888888888888888888";
    let header = format!("{{\"{name}\":{{\"dtype\":\"U8\",\"shape\":[3],\"data_offsets\":[0,3]}}}}");
    let bytes = file_of(&header, 3);
    assert!(!holds_huge_offset(&bytes));
    let store = WeightStore::from_bytes(&bytes).expect("store");
    let t = store.take("a", "99999999999999999999999\"88888888888888888888888").expect("tensor");
    assert_eq!(t.data, vec![1, 1, 1]);
    assert_eq!(t.dtype, Dtype::U8);
}

#[test]
fn large_numbers_that_are_no_offsets_are_read() {
    let empty = r#"{"a.b":{"dtype":"F32","shape":[0,18446744073709551615],"data_offsets":[0,0]}}"#;
    assert!(!holds_huge_offset(&file_of(empty, 0)));
    let t = WeightStore::from_bytes(&file_of(empty, 0)).expect("store").take("a", "b").expect("tensor");
    assert_eq!((t.shape, t.data, t.dtype), (vec![0, 18446744073709551615], vec![], Dtype::F32));
    let extra = r#"{"a.b":{"dtype":"U8","shape":[2],"extra":{"data_offsets":[0,18446744073709551615]},
        "data_offsets":[0,2],"more":99999999999999999999999}}"#;
    assert!(!holds_huge_offset(&file_of(extra, 2)));
    let t = WeightStore::from_bytes(&file_of(extra, 2)).expect("store").take("a", "b").expect("tensor");
    assert_eq!((t.shape, t.data, t.dtype), (vec![2], vec![1, 1], Dtype::U8));
}

#[test]
fn an_entry_may_be_an_array() {
    let plain = r#" { "a.b" : [ "U8" , [ 2 ] , [ 0 , 2 ] ] } "#;
    let t = WeightStore::from_bytes(&file_of(plain, 2)).expect("store").take("a", "b").expect("tensor");
    assert_eq!((t.shape, t.data, t.dtype), (vec![2], vec![1, 1], Dtype::U8));
    let huge = r#"{"a.b":["U8",[18446744073709551615],[0,18446744073709551615]]}"#;
    assert!(holds_huge_offset(&file_of(huge, 0)));
    assert!(message(WeightStore::from_bytes(&file_of(huge, 0))).contains("safetensors: "));
    let empty = r#"{"a.b":["U8",[0,18446744073709551615],[0,0]]}"#;
    assert!(!holds_huge_offset(&file_of(empty, 0)));
    assert!(WeightStore::from_bytes(&file_of(empty, 0)).is_ok());
}

#[test]
fn of_entries_of_one_name_the_last_counts() {
    let huge = r#"{"dtype":"U8","shape":[18446744073709551615],"data_offsets":[0,18446744073709551615]}"#;
    let small = r#"{"dtype":"U8","shape":[1],"data_offsets":[0,1]}"#;
    // The two names differ in how they are written only.
    let replaced = format!(r#"{{"a.\u00e9":{huge},"a.é":{small}}}"#);
    assert!(!holds_huge_offset(&file_of(&replaced, 1)));
    let store = WeightStore::from_bytes(&file_of(&replaced, 1)).expect("store");
    assert_eq!(store.take("a", "é").expect("tensor").data, vec![1]);
    assert_eq!(store.entries.len(), 1);
    let last = format!(r#"{{"a.b":{small},"a.b":{huge}}}"#);
    assert!(holds_huge_offset(&file_of(&last, 1)));
    assert!(message(WeightStore::from_bytes(&file_of(&last, 1))).contains("safetensors: "));
}

#[test]
fn offsets_are_found_however_their_name_is_written() {
    let huge = r#"{"a":{"dtype":"U8","shape":[9],"data\u005Foffsets":[0,18446744073709551615]}}"#;
    assert!(holds_huge_offset(&file_of(huge, 0)));
    let other = r#"{"a":{"dtype":"U8","shape":[9],"data_offsets ":[0,18446744073709551615]}}"#;
    assert!(!holds_huge_offset(&file_of(other, 0)));
}

#[test]
fn json_text_is_taken_apart() {
    let h = br#"  {"a" : [1, {"b":"]}\"" } ,"x"], "n": 12 ,"\u00e9\n\uD83D\uDE00\/": null}"#;
    assert_eq!(skip_space(h, 0), 2);
    assert_eq!(find_value_end(h, 2), h.len());
    let found = list_members(h, 3);
    let names: Vec<String> = found.iter().map(|m| String::from_utf8(m.name.clone()).expect("name")).collect();
    assert_eq!(names, vec!["a", "n", "é\n😀/"]);
    assert_eq!(&h[found[2].value..find_value_end(h, found[2].value)], b"null");
    let list = list_items(h, found[0].value + 1);
    let parts: Vec<&[u8]> = list.iter().map(|&i| &h[i..find_value_end(h, i)]).collect();
    assert_eq!(parts, vec![&b"1"[..], &br#"{"b":"]}\"" }"#[..], &b"\"x\""[..]]);
    assert!(exceeds(h, found[1].value, 11));
    assert!(!exceeds(h, found[1].value, 12));
    assert!(list_items(b"[ ]", 1).is_empty());
    assert!(list_members(b"{}", 1).is_empty());
}

#[test]
fn every_encoding_is_recognized() {
    let known = [
        ("BOOL", 1, Dtype::Bool),
        ("U8", 1, Dtype::U8),
        ("I8", 1, Dtype::I8),
        ("F8_E5M2", 1, Dtype::F8E5M2),
        ("F8_E4M3", 1, Dtype::F8E4M3),
        ("I16", 2, Dtype::I16),
        ("U16", 2, Dtype::U16),
        ("F16", 2, Dtype::F16),
        ("BF16", 2, Dtype::BF16),
        ("I32", 4, Dtype::I32),
        ("U32", 4, Dtype::U32),
        ("F32", 4, Dtype::F32),
        ("F64", 8, Dtype::F64),
        ("I64", 8, Dtype::I64),
        ("U64", 8, Dtype::U64),
    ];
    for (name, size, dtype) in known {
        assert_eq!(Dtype::named(name), dtype);
        let header =
            format!("{{\"a.b\":{{\"dtype\":\"{name}\",\"shape\":[2],\"data_offsets\":[0,{}]}}}}", 2 * size);
        let store = WeightStore::from_bytes(&file_of(&header, 2 * size)).expect("store");
        assert_eq!(store.take("a", "b").expect("tensor").dtype, dtype);
    }
    assert_eq!(Dtype::named("F4"), Dtype::Other);
}

#[test]
fn a_name_is_split_at_its_first_dot() {
    let store = WeightStore::from_tensors(vec![
        ("a.b.c".to_string(), raw(Dtype::Other, &[1])),
        ("plain".to_string(), raw(Dtype::Other, &[2])),
        (".x".to_string(), raw(Dtype::Other, &[3])),
    ]);
    assert_eq!(store.take("a", "b.c").expect("tensor").data, vec![1]);
    assert!(store.try_take("a.b", "c").is_none());
    assert_eq!(store.take("", "x").expect("tensor").data, vec![3]);
    assert_eq!(store.entries.len(), 2);
}

fn message<T>(r: Result<T, DemucsError>) -> String {
    match r {
        Ok(_) => panic!("loaded"),
        Err(e) => e.message(),
    }
}

#[test]
fn a_model_is_loaded_for_the_processor() {
    let opts = LoadOptions { variant: ModelVariant::SixStem, stems: StemSelection::All };
    let d = Demucs::from_bytes(&Single, &Builder::six_stems().bytes(), opts, Backend::Cpu, Ok(())).expect("model");
    match d.inner {
        DemucsInner::Cpu(e) => {
            assert_eq!(e.models.len(), 1);
            assert_eq!(e.models[0].sig, "5c90dfd2");
            assert_eq!((e.n_sources, e.bottom_channels), (6, 384));
            assert_eq!(e.selected_stems.len(), 6);
            let m = &e.models[0].model;
            assert_eq!((m.encoders.len(), m.tencoders.len(), m.decoders.len(), m.tdecoders.len()), (4, 4, 4, 4));
            assert!(m.decoders[3].last);
            assert!(!m.decoders[2].last);
            let ct = &m.crosstransformer;
            assert_eq!((ct.layers.len(), ct.layers_t.len()), (5, 5));
            assert!(ct.channel_upsampler.is_none());
            assert!(ct.layers[0].self_attn.is_some());
            assert!(ct.layers[1].cross_attn.is_some());
            assert_eq!(ct.layers[1].cross_attn.as_ref().map(|l| l.attn.n_heads), Some(8));
            // The weights of a transposed convolution are brought into another order: by input
            // channel and tap first, then by output channel.
            let w = &m.decoders[0].conv_tr;
            assert_eq!((w.in_ch, w.out_ch, w.kh, w.kw), (3, 5, 8, 1));
            let at = |i: usize| (i % 7) as f32 * 0.125 - 0.25;
            assert_eq!(w.data[(1 * 8 + 2) * 5 + 3], at((1 * 5 + 3) * 8 + 2));
            assert_eq!(m.tdecoders[0].conv_tr.data[(2 * 8 + 7) * 5 + 4], at((2 * 5 + 4) * 8 + 7));
        },
        _ => panic!("wrong device"),
    }
}

#[test]
fn a_model_is_loaded_for_the_device() {
    let opts = LoadOptions { variant: ModelVariant::SixStem, stems: StemSelection::Only(vec![StemId::Piano]) };
    let contents = Ok(Builder::six_stems().bytes());
    let d = Demucs::load(&Single, contents, opts, Backend::Auto, Ok(())).expect("model");
    match d.inner {
        DemucsInner::Cuda(e) => {
            assert_eq!(e.models.len(), 1);
            assert_eq!(e.selected_stems, vec![StemId::Piano]);
            let m = &e.models[0].model;
            assert_eq!(m.model.encoders.len(), 4);
            // A convolution's weights go to the device with the output channel last.
            let w = &m.model.encoders[0].conv;
            let at = |i: usize| (i % 7) as f32 * 0.125 - 0.25;
            assert_eq!(m.weights.arrays[w.data.id][5 * 3 + 2], at(2 * 32 + 5));
        },
        _ => panic!("wrong device"),
    }
}

#[test]
fn loading_twice_gives_the_same_weights() {
    let opts = || LoadOptions { variant: ModelVariant::SixStem, stems: StemSelection::All };
    let bytes = Builder::six_stems().bytes();
    let read = Demucs::load(&Single, Ok(bytes.clone()), opts(), Backend::Cpu, Ok(())).expect("model");
    let given = Demucs::from_bytes(&Single, &bytes, opts(), Backend::Cpu, Ok(())).expect("model");
    match (read.inner, given.inner) {
        (DemucsInner::Cpu(x), DemucsInner::Cpu(y)) => {
            assert_eq!(x.models[0].sig, y.models[0].sig);
            let (l, k) = (&x.models[0].model, &y.models[0].model);
            assert_eq!(l.encoders[3].conv.data, k.encoders[3].conv.data);
            assert_eq!(l.tdecoders[1].conv_tr.data, k.tdecoders[1].conv_tr.data);
            assert_eq!(l.freq_emb.data, k.freq_emb.data);
            assert_eq!(l.crosstransformer.norm_in.gamma, k.crosstransformer.norm_in.gamma);
        },
        _ => panic!("wrong device"),
    }
    let read = Demucs::load(&Single, Ok(bytes.clone()), opts(), Backend::Cuda, Ok(())).expect("model");
    let given = Demucs::from_bytes(&Single, &bytes, opts(), Backend::Cuda, Ok(())).expect("model");
    match (read.inner, given.inner) {
        (DemucsInner::Cuda(x), DemucsInner::Cuda(y)) => {
            assert!(!x.models[0].model.weights.arrays.is_empty());
            assert_eq!(x.models[0].model.weights.arrays, y.models[0].model.weights.arrays);
            assert_eq!(x.models[0].model.model.freq_emb, y.models[0].model.model.freq_emb);
        },
        _ => panic!("wrong device"),
    }
}

#[test]
fn the_choice_of_device_decides() {
    let no_device = || Err(DemucsError::Cuda("none".to_string()));
    let opts = || LoadOptions { variant: ModelVariant::SixStem, stems: StemSelection::All };
    let store = || WeightStore::from_tensors(Vec::new());
    let r: Result<Demucs<f32>, DemucsError> =
        Demucs::from_weights(&Single, store(), opts(), Backend::Cuda, no_device());
    assert_eq!(message(r), "CUDA error: none");
    let r: Result<Demucs<f32>, DemucsError> =
        Demucs::from_weights(&Single, store(), opts(), Backend::Auto, no_device());
    assert!(message(r).contains("signature 5c90dfd2 not found in weight store"));
    let r: Result<Demucs<f32>, DemucsError> = Demucs::from_weights(&Single, store(), opts(), Backend::Cuda, Ok(()));
    assert!(message(r).contains("signature 5c90dfd2 not found in weight store"));
    let unread = Err(DemucsError::Weight("cannot read".to_string()));
    let r: Result<Demucs<f32>, DemucsError> = Demucs::load(&Single, unread, opts(), Backend::Cpu, Ok(()));
    assert_eq!(message(r), "weight loading failed: cannot read");
}

#[test]
fn what_is_missing_is_named() {
    let opts = || LoadOptions { variant: ModelVariant::SixStem, stems: StemSelection::All };
    let bytes = Builder::six_stems().without("tencoder.2.conv.bias").bytes();
    let r: Result<Demucs<f32>, DemucsError> = Demucs::from_bytes(&Single, &bytes, opts(), Backend::Cpu, Ok(()));
    assert!(message(r).contains("missing weight: 5c90dfd2.tencoder.2.conv.bias"));
    let r: Result<Demucs<f32>, DemucsError> = Demucs::from_bytes(&Single, &bytes, opts(), Backend::Cuda, Ok(()));
    let text = message(r);
    assert!(
        text.contains(
            "weight loading failed: HTDemucs::from_store(5c90dfd2): missing weight: 5c90dfd2.tencoder.2.conv.bias"
        ),
        "{text}"
    );
    let bytes = Builder::six_stems().without("crosstransformer.layers.1.cross_attn.in_proj_weight").bytes();
    let store = WeightStore::from_bytes(&bytes).expect("store");
    assert!(message(HTDemucs::from_store(&Single, &store, "5c90dfd2", 6, 384))
        .contains("transformer layer crosstransformer.layers.1: neither self_attn nor cross_attn found"));
}

#[test]
fn wrong_shapes_are_named() {
    let load = |b: Builder| {
        let store = WeightStore::from_bytes(&b.bytes()).expect("store");
        message(HTDemucs::from_store(&Single, &store, "5c90dfd2", 6, 384))
    };
    assert!(load(Builder::six_stems().reshaped("encoder.0.conv.weight", &[3, 4, 8]))
        .contains("expected 4D conv weight, got [3, 4, 8]"));
    assert!(load(Builder::six_stems().reshaped("tencoder.0.conv.weight", &[6, 8]))
        .contains("expected 3D conv weight, got [6, 8]"));
    assert!(load(Builder::six_stems().reshaped("decoder.0.conv_tr.weight", &[15, 8]))
        .contains("expected 4D conv_transpose weight, got [15, 8]"));
    assert!(load(Builder::six_stems().reshaped("tdecoder.0.conv_tr.weight", &[15, 8]))
        .contains("expected 3D conv_transpose weight, got [15, 8]"));
    assert!(load(Builder::six_stems().reshaped("crosstransformer.layers.0.linear1.weight", &[768]))
        .contains("expected 2D weight, got [768]"));
    assert!(load(Builder::six_stems().reshaped("crosstransformer.layers.0.self_attn.in_proj_weight", &[384, 1152]))
        .contains("in_proj shape [384, 1152] mismatch (expected [3*384, 384])"));
    assert!(load(Builder::six_stems().reshaped("freq_emb.embedding.weight", &[96]))
        .contains("freq_emb shape [96]"));
    let small = |width: usize| {
        let mut b = Builder { sig: "x", tensors: Vec::new() };
        b.add("freq_emb.embedding.weight", &[2, width]);
        b.add("crosstransformer.norm_in.weight", &[3]);
        b.add("crosstransformer.norm_in.bias", &[2]);
        WeightStore::from_bytes(&b.bytes()).expect("store")
    };
    assert!(message(FreqEmb::from_store(&Single, &small(40), "x", 48)).contains("freq_emb dim 40 != first_chout 48"));
    assert_eq!(FreqEmb::from_store(&Single, &small(48), "x", 48).expect("embedding").n_bins, 2);
    assert!(message(CrossDomainTransformer::from_store(&Single, &small(48), "x", 8, 8))
        .contains("layernorm dim mismatch (2 vs 3)"));
    // Where the widths differ, there have to be layers that change them.
    assert!(message(CrossDomainTransformer::from_store(&Single, &small(48), "x", 4, 8))
        .contains("missing weight: x.channel_upsampler.weight"));
}

#[test]
fn a_norm_has_to_be_as_wide_as_the_transformer() {
    let mut b = Builder::six_stems().without("crosstransformer.layers.0.norm_out.weight");
    b.add("crosstransformer.layers.0.norm_out.weight", &[5]);
    let store = WeightStore::from_bytes(&b.bytes()).expect("store");
    assert!(message(HTDemucs::from_store(&Single, &store, "5c90dfd2", 6, 384))
        .contains("crosstransformer.layers.0.norm_out.num_channels=5 but expected 384"));
}

#[test]
fn parts_of_a_model_are_loaded_alone() {
    let store = WeightStore::from_bytes(&Builder::six_stems().bytes()).expect("store");
    let enc = FreqEncoder::from_store(&Single, &store, "5c90dfd2").expect("encoder");
    assert_eq!(enc.layers.len(), 4);
    assert_eq!((enc.layers[0].conv.out_ch, enc.layers[0].conv.in_ch, enc.layers[0].conv.kh), (3, 4, 8));
    assert_eq!((enc.freq_emb.n_bins, enc.freq_emb.dim), (2, 48));
    // The table is stored at a tenth of its scale.
    assert_eq!(enc.freq_emb.data[3], 1.25);
    // A fifth of it is added, so that it counts twice.
    let mut x = vec![0.0f32; 48 * 2];
    add_freq_emb(&Single, &mut x, [1, 48, 2, 1], &enc.freq_emb);
    assert_eq!(x[3 * 2], 0.25);
    let dec = HDecLayer::from_store(&Single, &store, "5c90dfd2", "decoder.1", 3, 5, true).expect("decoder");
    assert!(dec.last);
    assert_eq!(dec.dconv.layers.len(), 2);
}
