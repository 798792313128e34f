//! The command line.
use demucs_native::cli::{
    deinterleave, find_model, interleave, no_input, parse_arguments, parse_backend, select_stems, split_list,
    stem_file, usage, Arguments, Parsed,
};
use demucs_native::{Backend, ModelVariant, Stem, StemId, StemSelection};

fn words(v: &[&str]) -> Vec<String> {
    v.iter().map(|s| s.to_string()).collect()
}

fn separate(v: &[&str]) -> Arguments {
    match parse_arguments(&words(v)) {
        Parsed::Separate(a) => a,
        _ => panic!("not a separation"),
    }
}

#[test]
fn arguments_have_defaults() {
    let a = separate(&["demucs-native"]);
    assert_eq!(a.input, None);
    assert_eq!(a.output, "./stems/");
    assert_eq!(a.model_dir, "./models");
    assert_eq!(a.variant, "htdemucs");
    assert_eq!(a.device, "auto");
    assert!(a.stems.is_empty());
    assert!(a.unknown.is_empty());
    assert_eq!(no_input(), "-i <input.wav> required (try --help)");
}

#[test]
fn arguments_are_read_in_order() {
    let a = separate(&[
        "demucs-native",
        "-i",
        "a.wav",
        "--output",
        "out",
        "-m",
        "htdemucs_ft",
        "--model-dir",
        "weights",
        "--device",
        "cpu",
        "-s",
        "vocals,drums",
        "--quiet",
        "--input",
        "b.wav",
    ]);
    assert_eq!(a.input, Some("b.wav".to_string()));
    assert_eq!(a.output, "out");
    assert_eq!(a.variant, "htdemucs_ft");
    assert_eq!(a.model_dir, "weights");
    assert_eq!(a.device, "cpu");
    assert_eq!(a.stems, words(&["vocals", "drums"]));
    assert_eq!(a.unknown, words(&["--quiet"]));
}

#[test]
fn help_stops_the_reading() {
    match parse_arguments(&words(&["demucs-native", "--odd", "-h", "-i"])) {
        Parsed::Help(a) => assert_eq!(a.unknown, words(&["--odd"])),
        _ => panic!("no help"),
    }
    assert!(matches!(parse_arguments(&words(&["demucs-native", "--help"])), Parsed::Help(_)));
    assert!(usage().contains("Usage:\n  demucs-native -i <input.wav> [options]"));
}

#[test]
fn an_option_needs_its_value() {
    match parse_arguments(&words(&["demucs-native", "-i", "a.wav", "--device"])) {
        Parsed::MissingValue(s) => assert_eq!(s, "--device"),
        _ => panic!("accepted"),
    }
}

#[test]
fn lists_are_split_at_commas() {
    assert_eq!(split_list("a,b"), words(&["a", "b"]));
    assert_eq!(split_list(""), words(&[""]));
    assert_eq!(split_list("a,,b,"), words(&["a", "", "b", ""]));
}

#[test]
fn models_have_names_and_files() {
    assert_eq!(find_model("htdemucs"), Ok((ModelVariant::FourStem, "htdemucs.safetensors")));
    assert_eq!(find_model("htdemucs_6s"), Ok((ModelVariant::SixStem, "htdemucs_6s.safetensors")));
    assert_eq!(find_model("htdemucs_ft"), Ok((ModelVariant::FineTuned, "htdemucs_ft.safetensors")));
    assert_eq!(find_model("mdx"), Err("unknown model variant: mdx".to_string()));
}

#[test]
fn devices_have_names() {
    assert_eq!(parse_backend("cpu"), Ok(Backend::Cpu));
    assert_eq!(parse_backend("auto"), Ok(Backend::Auto));
    assert_eq!(parse_backend("cuda"), Ok(Backend::Cuda));
    assert_eq!(
        parse_backend("tpu"),
        Err("unsupported device: tpu (supported: auto, cpu, cuda)".to_string())
    );
}

#[test]
fn stems_are_selected_by_name() {
    assert!(matches!(select_stems(&words(&[])), Ok(StemSelection::All)));
    match select_stems(&words(&["vocals", "bass"])) {
        Ok(StemSelection::Only(v)) => assert_eq!(v, vec![StemId::Vocals, StemId::Bass]),
        _ => panic!("no selection"),
    }
    match select_stems(&words(&["vocals", "banjo"])) {
        Err(s) => assert_eq!(s, "unknown stem: banjo"),
        _ => panic!("accepted"),
    }
    let stem = Stem { id: StemId::Vocals, left: vec![0u8], right: vec![0u8] };
    assert_eq!(stem_file(&stem), "vocals.wav");
}

#[test]
fn frames_are_taken_apart_and_put_together() {
    // The first and the last channel count; samples that make up no frame are left out.
    let (l, r) = deinterleave(&[1, 2, 3, 4, 5, 6, 7], 3);
    assert_eq!(l, vec![1, 4]);
    assert_eq!(r, vec![3, 6]);
    let (l, r) = deinterleave(&[1, 2], 1);
    assert_eq!(l, vec![1, 2]);
    assert_eq!(r, vec![1, 2]);
    assert_eq!(interleave(&[1, 2], &[3, 4, 5]), vec![1, 3, 2, 4]);
    let (l, r) = deinterleave(&interleave(&[1, 2], &[3, 4]), 2);
    assert_eq!((l, r), (vec![1, 2], vec![3, 4]));
}
