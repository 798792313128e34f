//! Models, stems, devices and errors.
use demucs_native::backend::ResolvedBackend;
use demucs_native::{
    Backend, DemucsError, ModelInfo, ModelVariant, StemId, CHANNELS, DEPTH, GROWTH, HOP_LENGTH, N_FFT, SAMPLE_RATE,
    TRAINING_LENGTH, T_HEADS, T_LAYERS,
};

#[test]
fn stem_names_are_read_back() {
    let all = [StemId::Drums, StemId::Bass, StemId::Other, StemId::Vocals, StemId::Guitar, StemId::Piano];
    let names = ["drums", "bass", "other", "vocals", "guitar", "piano"];
    for (id, name) in all.iter().zip(names.iter()) {
        assert_eq!(id.as_str(), *name);
        assert_eq!(StemId::parse(name), Some(*id));
    }
    assert_eq!(StemId::parse("banjo"), None);
    assert_eq!(StemId::parse(""), None);
}

#[test]
fn models_are_known() {
    let four = ModelVariant::FourStem.info();
    let six = ModelVariant::SixStem.info();
    let tuned = ModelVariant::FineTuned.info();
    assert_eq!((four.id, six.id, tuned.id), ("htdemucs", "htdemucs_6s", "htdemucs_ft"));
    assert_eq!(four.stems, vec![StemId::Drums, StemId::Bass, StemId::Other, StemId::Vocals]);
    assert_eq!(tuned.stems, four.stems);
    assert_eq!(six.stems.len(), 6);
    assert_eq!(six.stems[4..], [StemId::Guitar, StemId::Piano]);
    assert_eq!(four.signatures, vec!["955717e8"]);
    assert_eq!(four.signatures, ModelInfo::htdemucs().signatures);
    // One fine-tuned model for each stem, that of the vocals last.
    assert_eq!(tuned.signatures.len(), 4);
    assert_eq!(tuned.signatures[3], "04573f0d");
    assert_eq!(six.signatures.len(), 1);
}

#[test]
fn constants_of_the_network() {
    assert_eq!((N_FFT, HOP_LENGTH), (4096, 1024));
    assert_eq!((CHANNELS, GROWTH, DEPTH), (48, 2, 4));
    assert_eq!((T_LAYERS, T_HEADS), (5, 8));
    // 7.8 seconds.
    assert_eq!(TRAINING_LENGTH * 5, SAMPLE_RATE * 39);
}

fn failed() -> Result<u8, DemucsError> {
    Err(DemucsError::Cuda("no device".to_string()))
}

#[test]
fn devices_are_resolved() {
    assert!(matches!(Backend::Cpu.resolve(Ok(1)), Ok(ResolvedBackend::Cpu)));
    assert!(matches!(Backend::Cpu.resolve(failed()), Ok(ResolvedBackend::Cpu)));
    assert!(matches!(Backend::Auto.resolve(Ok(7)), Ok(ResolvedBackend::Cuda(7))));
    assert!(matches!(Backend::Auto.resolve(failed()), Ok(ResolvedBackend::Cpu)));
    assert!(matches!(Backend::Cuda.resolve(Ok(7)), Ok(ResolvedBackend::Cuda(7))));
    match Backend::Cuda.resolve(failed()) {
        Err(e) => assert_eq!(e.message(), "CUDA error: no device"),
        Ok(_) => panic!("resolved"),
    }
    assert!(!Backend::Cpu.wants_device());
    assert!(Backend::Auto.wants_device());
    assert!(Backend::Cuda.wants_device());
    assert_eq!(
        (Backend::Auto.tag(), Backend::Cpu.tag(), Backend::Cuda.tag()),
        ("auto", "cpu", "cuda:0")
    );
}

#[test]
fn errors_describe_themselves() {
    let m = || "x".to_string();
    assert_eq!(DemucsError::Weight(m()).message(), "weight loading failed: x");
    assert_eq!(DemucsError::Cuda(m()).message(), "CUDA error: x");
    assert_eq!(DemucsError::Dsp(m()).message(), "DSP error: x");
    assert_eq!(DemucsError::Shape(m()).message(), "shape mismatch: x");
    assert_eq!(DemucsError::Internal(m()).message(), "internal: x");
}
