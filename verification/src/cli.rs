//! The command line: what the arguments ask for, and the order of samples in audio files.
use vstd::prelude::*;
use crate::backend::Backend;
use crate::index;
use crate::metadata;
use crate::metadata::StemId;
use crate::text;
use crate::ModelVariant;
use crate::Stem;
use crate::StemSelection;

verus! {

/// What the arguments say. `unknown` are those that mean nothing, which are skipped.
pub struct Arguments {
    pub input: Option<String>,
    pub output: String,
    pub model_dir: String,
    pub variant: String,
    pub device: String,
    pub stems: Vec<String>,
    pub unknown: Vec<String>,
}

/// The same with all texts as sequences of characters.
pub struct ArgumentsView {
    pub input: Option<Seq<char>>,
    pub output: Seq<char>,
    pub model_dir: Seq<char>,
    pub variant: Seq<char>,
    pub device: Seq<char>,
    pub stems: Seq<Seq<char>>,
    pub unknown: Seq<Seq<char>>,
}

/// The texts of a list.
pub open spec fn texts(v: Seq<String>) -> Seq<Seq<char>> {
    Seq::new(v.len(), |i: int| v[i]@)
}

impl View for Arguments {
    type V = ArgumentsView;

    open spec fn view(&self) -> ArgumentsView {
        ArgumentsView {
            input: match self.input {
                Some(s) => Some(s@),
                None => None,
            },
            output: self.output@,
            model_dir: self.model_dir@,
            variant: self.variant@,
            device: self.device@,
            stems: texts(self.stems@),
            unknown: texts(self.unknown@),
        }
    }
}

/// What the arguments come to.
pub enum Parsed {
    /// Audio is to be separated.
    Separate(Arguments),
    /// Help is asked for.
    Help(Arguments),
    /// An option that takes a value is the last argument.
    MissingValue(String),
}

/// What is done where the arguments say nothing.
pub open spec fn default_arguments() -> ArgumentsView {
    ArgumentsView {
        input: None,
        output: "./stems/"@,
        model_dir: "./models"@,
        variant: "htdemucs"@,
        device: "auto"@,
        stems: seq![],
        unknown: seq![],
    }
}

/// The parts of `s` between commas, from character `i` on, the first of them after `part`.
pub open spec fn parts_from(s: Seq<char>, i: int, part: Seq<char>) -> Seq<Seq<char>>
    decreases s.len() - i,
{
    if i < 0 || i >= s.len() {
        seq![part]
    } else if s[i] == ',' {
        seq![part] + parts_from(s, i + 1, seq![])
    } else {
        parts_from(s, i + 1, part.push(s[i]))
    }
}

/// The parts of `s` between commas.
pub open spec fn parts(s: Seq<char>) -> Seq<Seq<char>> {
    parts_from(s, 0, seq![])
}

/// The parts of `s` between commas.
pub fn split_list(s: &str) -> (r: Vec<String>)
    ensures
        texts(r@) == parts(s@),
{
    let n: usize = s.unicode_len();
    let mut out: Vec<String> = Vec::new();
    let mut start: usize = 0;
    let mut i: usize = 0;
    proof {
        assert(s@.subrange(0, 0) =~= seq![]);
        assert(texts(out@) + parts(s@) =~= parts(s@));
    }
    while i < n
        invariant
            start <= i <= n,
            n == s@.len(),
            texts(out@) + parts_from(
                s@,
                i as int,
                s@.subrange(start as int, i as int),
            ) == parts(s@),
        decreases n - i,
    {
        let ghost before = texts(out@);
        let ghost part = s@.subrange(start as int, i as int);
        if s.get_char(i) == ',' {
            let t: String = s.substring_char(start, i).to_owned();
            out.push(t);
            start = i + 1;
            proof {
                assert(texts(out@) =~= before.push(part));
                assert(s@.subrange(start as int, i + 1) =~= seq![]);
                assert(before.push(part) + parts_from(s@, i + 1, seq![]) =~= before + (seq![part]
                    + parts_from(s@, i + 1, seq![])));
            }
        } else {
            proof {
                assert(s@.subrange(start as int, i + 1) =~= part.push(s@[i as int]));
            }
        }
        i = i + 1;
    }
    let ghost before = texts(out@);
    let t: String = s.substring_char(start, n).to_owned();
    out.push(t);
    proof {
        assert(texts(out@) =~= before.push(s@.subrange(start as int, n as int)));
        assert(texts(out@) =~= before + seq![s@.subrange(start as int, n as int)]);
    }
    out
}

/// An option that takes a value.
#[derive(Clone, Copy, Debug, PartialEq, Eq, Structural)]
pub enum Flag {
    Input,
    Output,
    Model,
    ModelDir,
    Device,
    Stems,
}

/// The option with the text `s`, if it is one that takes a value.
pub open spec fn flag_of(s: Seq<char>) -> Option<Flag> {
    if s == "-i"@ || s == "--input"@ {
        Some(Flag::Input)
    } else if s == "-o"@ || s == "--output"@ {
        Some(Flag::Output)
    } else if s == "-m"@ || s == "--model"@ {
        Some(Flag::Model)
    } else if s == "--model-dir"@ {
        Some(Flag::ModelDir)
    } else if s == "--device"@ {
        Some(Flag::Device)
    } else if s == "-s"@ || s == "--stems"@ {
        Some(Flag::Stems)
    } else {
        None
    }
}

/// The option with the text `s`, if it is one that takes a value.
fn find_flag(s: &str) -> (r: Option<Flag>)
    ensures
        r == flag_of(s@),
{
    if text::same(s, "-i") || text::same(s, "--input") {
        Some(Flag::Input)
    } else if text::same(s, "-o") || text::same(s, "--output") {
        Some(Flag::Output)
    } else if text::same(s, "-m") || text::same(s, "--model") {
        Some(Flag::Model)
    } else if text::same(s, "--model-dir") {
        Some(Flag::ModelDir)
    } else if text::same(s, "--device") {
        Some(Flag::Device)
    } else if text::same(s, "-s") || text::same(s, "--stems") {
        Some(Flag::Stems)
    } else {
        None
    }
}

/// The arguments `a` after an option with the value `v`.
pub open spec fn with_value(a: ArgumentsView, f: Flag, v: Seq<char>) -> ArgumentsView {
    match f {
        Flag::Input => ArgumentsView { input: Some(v), ..a },
        Flag::Output => ArgumentsView { output: v, ..a },
        Flag::Model => ArgumentsView { variant: v, ..a },
        Flag::ModelDir => ArgumentsView { model_dir: v, ..a },
        Flag::Device => ArgumentsView { device: v, ..a },
        Flag::Stems => ArgumentsView { stems: parts(v), ..a },
    }
}

/// `r` is what the arguments from `i` on come to, after those before came to `a`. A later value
/// of an option replaces an earlier one.
pub open spec fn is_parsed_from(args: Seq<Seq<char>>, i: int, a: ArgumentsView, r: Parsed) -> bool
    decreases args.len() - i,
{
    if i < 0 || i >= args.len() {
        r is Separate && r->Separate_0@ == a
    } else {
        match flag_of(args[i]) {
            Some(f) => if i + 1 < args.len() {
                is_parsed_from(args, i + 2, with_value(a, f, args[i + 1]), r)
            } else {
                r is MissingValue && r->MissingValue_0@ == args[i]
            },
            None => if args[i] == "-h"@ || args[i] == "--help"@ {
                r is Help && r->Help_0@ == a
            } else {
                is_parsed_from(
                    args,
                    i + 1,
                    ArgumentsView { unknown: a.unknown.push(args[i]), ..a },
                    r,
                )
            },
        }
    }
}

/// Reads the arguments, the first of which is the name of the program.
pub fn parse_arguments(args: &Vec<String>) -> (r: Parsed)
    ensures
        is_parsed_from(texts(args@), 1, default_arguments(), r),
{
    let n: usize = args.len();
    let mut a: Arguments = Arguments {
        input: None,
        output: "./stems/".to_owned(),
        model_dir: "./models".to_owned(),
        variant: "htdemucs".to_owned(),
        device: "auto".to_owned(),
        stems: Vec::new(),
        unknown: Vec::new(),
    };
    let ghost t = texts(args@);
    let ghost d = default_arguments();
    proof {
        assert(texts(a.stems@) =~= seq![]);
        assert(texts(a.unknown@) =~= seq![]);
        assert(a@ == d);
    }
    let mut i: usize = 1;
    while i < n
        invariant
            1 <= i,
            n == args@.len(),
            t == texts(args@),
            d == default_arguments(),
            forall|r: Parsed| #[trigger]
                is_parsed_from(t, i as int, a@, r) ==> is_parsed_from(t, 1, d, r),
        decreases n - i,
    {
        let s: &str = args[i].as_str();
        assert(s@ == t[i as int]);
        let ghost before = a@;
        match find_flag(s) {
            Some(f) => {
                if n - i < 2 {
                    let r = Parsed::MissingValue(s.to_owned());
                    assert(is_parsed_from(t, i as int, a@, r));
                    return r;
                }
                let v: &str = args[i + 1].as_str();
                assert(v@ == t[i + 1]);
                match f {
                    Flag::Input => {
                        a.input = Some(v.to_owned());
                    },
                    Flag::Output => {
                        a.output = v.to_owned();
                    },
                    Flag::Model => {
                        a.variant = v.to_owned();
                    },
                    Flag::ModelDir => {
                        a.model_dir = v.to_owned();
                    },
                    Flag::Device => {
                        a.device = v.to_owned();
                    },
                    Flag::Stems => {
                        a.stems = split_list(v);
                    },
                }
                proof {
                    assert(a@ == with_value(before, f, t[i + 1]));
                    assert forall|r: Parsed| #[trigger]
                        is_parsed_from(t, i + 2, a@, r) implies is_parsed_from(t, 1, d, r) by {
                        assert(is_parsed_from(t, i as int, before, r));
                    }
                }
                i = i + 2;
            },
            None => {
                if text::same(s, "-h") || text::same(s, "--help") {
                    let r = Parsed::Help(a);
                    assert(is_parsed_from(t, i as int, before, r));
                    return r;
                }
                let ghost was = a.unknown@;
                a.unknown.push(s.to_owned());
                proof {
                    assert(texts(a.unknown@) =~= texts(was).push(t[i as int]));
                    assert forall|r: Parsed| #[trigger]
                        is_parsed_from(t, i + 1, a@, r) implies is_parsed_from(t, 1, d, r) by {
                        assert(is_parsed_from(t, i as int, before, r));
                    }
                }
                i = i + 1;
            },
        }
    }
    let ghost last = a@;
    let r = Parsed::Separate(a);
    assert(is_parsed_from(t, i as int, last, r));
    r
}

/// The text of the error where no input is given.
pub fn no_input() -> (r: &'static str)
    ensures
        r@ == "-i <input.wav> required (try --help)"@,
{
    "-i <input.wav> required (try --help)"
}

/// The model with a name, and the file that its weights are in.
pub open spec fn named_model(s: Seq<char>) -> Option<(ModelVariant, Seq<char>)> {
    if s == "htdemucs"@ {
        Some((ModelVariant::FourStem, "htdemucs.safetensors"@))
    } else if s == "htdemucs_6s"@ {
        Some((ModelVariant::SixStem, "htdemucs_6s.safetensors"@))
    } else if s == "htdemucs_ft"@ {
        Some((ModelVariant::FineTuned, "htdemucs_ft.safetensors"@))
    } else {
        None
    }
}

/// The model with a name, and the file that its weights are in.
pub fn find_model(s: &str) -> (r: Result<(ModelVariant, &'static str), String>)
    ensures
        match named_model(s@) {
            Some((v, file)) => r is Ok && r->Ok_0.0 == v && r->Ok_0.1@ == file,
            None => r is Err && r->Err_0@ == "unknown model variant: "@ + s@,
        },
{
    if text::same(s, "htdemucs") {
        Ok((ModelVariant::FourStem, "htdemucs.safetensors"))
    } else if text::same(s, "htdemucs_6s") {
        Ok((ModelVariant::SixStem, "htdemucs_6s.safetensors"))
    } else if text::same(s, "htdemucs_ft") {
        Ok((ModelVariant::FineTuned, "htdemucs_ft.safetensors"))
    } else {
        Err(text::join("unknown model variant: ", s))
    }
}

/// The selection with a name.
pub open spec fn named_backend(s: Seq<char>) -> Option<Backend> {
    if s == "cpu"@ {
        Some(Backend::Cpu)
    } else if s == "auto"@ {
        Some(Backend::Auto)
    } else if s == "cuda"@ {
        Some(Backend::Cuda)
    } else {
        None
    }
}

/// The selection with a name.
pub fn parse_backend(device: &str) -> (r: Result<Backend, String>)
    ensures
        match named_backend(device@) {
            Some(b) => r == Ok::<Backend, String>(b),
            None => r is Err && r->Err_0@ == "unsupported device: "@ + device@
                + " (supported: auto, cpu, cuda)"@,
        },
{
    if text::same(device, "cpu") {
        Ok(Backend::Cpu)
    } else if text::same(device, "auto") {
        Ok(Backend::Auto)
    } else if text::same(device, "cuda") {
        Ok(Backend::Cuda)
    } else {
        Err(text::join3("unsupported device: ", device, " (supported: auto, cpu, cuda)"))
    }
}

/// The stems with the names `names`, in order.
pub open spec fn are_named_stems(names: Seq<Seq<char>>, ids: Seq<StemId>) -> bool {
    &&& ids.len() == names.len()
    &&& forall|i: int|
        0 <= i < ids.len() ==> metadata::stem_text(#[trigger] ids[i]) == names[i]
}

/// `s` is no name of a stem.
pub open spec fn is_no_stem(s: Seq<char>) -> bool {
    forall|id: StemId| s != #[trigger] metadata::stem_text(id)
}

/// Selects the stems with the given names; all where none is given.
pub fn select_stems(names: &Vec<String>) -> (r: Result<StemSelection, String>)
    ensures
        match r {
            Ok(StemSelection::All) => names@.len() == 0,
            Ok(StemSelection::Only(ids)) => names@.len() > 0 && are_named_stems(
                texts(names@),
                ids@,
            ),
            Err(m) => exists|i: int|
                {
                    &&& 0 <= i < names@.len()
                    &&& is_no_stem(#[trigger] texts(names@)[i])
                    &&& forall|j: int| 0 <= j < i ==> !is_no_stem(#[trigger] texts(names@)[j])
                    &&& m@ == "unknown stem: "@ + names@[i]@
                },
        },
{
    let n: usize = names.len();
    if n == 0 {
        return Ok(StemSelection::All);
    }
    let ghost t = texts(names@);
    let mut ids: Vec<StemId> = Vec::new();
    let mut i: usize = 0;
    while i < n
        invariant
            i <= n,
            n == names@.len(),
            t == texts(names@),
            ids@.len() == i,
            forall|j: int|
                0 <= j < i ==> metadata::stem_text(#[trigger] ids@[j]) == t[j],
        decreases n - i,
    {
        let s: &str = names[i].as_str();
        assert(s@ == t[i as int]);
        match StemId::parse(s) {
            Some(id) => {
                ids.push(id);
            },
            None => {
                proof {
                    assert(is_no_stem(t[i as int]));
                    assert forall|j: int| 0 <= j < i implies !is_no_stem(#[trigger] t[j]) by {
                        assert(metadata::stem_text(ids@[j]) == t[j]);
                    }
                }
                return Err(text::join("unknown stem: ", s));
            },
        }
        i = i + 1;
    }
    Ok(StemSelection::Only(ids))
}

/// The name of the file for a stem.
pub fn stem_file<T>(stem: &Stem<T>) -> (r: String)
    ensures
        r@ == metadata::stem_text(stem.id) + ".wav"@,
{
    text::join(stem.id.as_str(), ".wav")
}

/// The samples of channel `c` of `channels`, which take turns in `x`. What is left over at the
/// end is no frame.
pub open spec fn channel_of<T>(x: Seq<T>, channels: int, c: int) -> Seq<T> {
    Seq::new((x.len() as int / channels) as nat, |i: int| x[index::pos2(i, c, channels)])
}

/// The first and the last channel of audio whose channels take turns.
pub fn deinterleave<T: Copy>(samples: &[T], channels: usize) -> (r: (Vec<T>, Vec<T>))
    requires
        channels > 0,
    ensures
        r.0@ == channel_of(samples@, channels as int, 0),
        r.1@ == channel_of(samples@, channels as int, channels - 1),
{
    let n: usize = samples.len() / channels;
    let mut left: Vec<T> = Vec::new();
    let mut right: Vec<T> = Vec::new();
    proof {
        assert(n * channels <= samples@.len()) by (nonlinear_arith)
            requires
                n == samples@.len() as int / channels as int,
                channels > 0,
        ;
    }
    let mut i: usize = 0;
    while i < n
        invariant
            i <= n,
            n == samples@.len() as int / channels as int,
            n * channels <= samples@.len(),
            channels > 0,
            left@.len() == i,
            right@.len() == i,
            forall|j: int|
                0 <= j < i ==> #[trigger] left@[j] == channel_of(samples@, channels as int, 0)[j],
            forall|j: int|
                0 <= j < i ==> #[trigger] right@[j] == channel_of(
                    samples@,
                    channels as int,
                    channels - 1,
                )[j],
        decreases n - i,
    {
        let len: usize = samples.len();
        proof {
            index::lemma_pair(i as int, 0, n as int, channels as int);
            index::lemma_pair(i as int, channels - 1, n as int, channels as int);
        }
        let at: usize = i * channels;
        left.push(samples[at]);
        right.push(samples[at + (channels - 1)]);
        i = i + 1;
    }
    proof {
        assert(left@ =~= channel_of(samples@, channels as int, 0));
        assert(right@ =~= channel_of(samples@, channels as int, channels - 1));
    }
    (left, right)
}

/// The samples of two channels taking turns, as long as there are samples of both.
pub open spec fn interleaved<T>(left: Seq<T>, right: Seq<T>) -> Seq<T> {
    Seq::new(
        (2 * if left.len() <= right.len() {
            left.len()
        } else {
            right.len()
        }) as nat,
        |p: int|
            if p % 2 == 0 {
                left[p / 2]
            } else {
                right[p / 2]
            },
    )
}

/// Puts the samples of two channels in turns.
pub fn interleave<T: Copy>(left: &[T], right: &[T]) -> (r: Vec<T>)
    ensures
        r@ == interleaved(left@, right@),
{
    let n: usize = if left.len() <= right.len() {
        left.len()
    } else {
        right.len()
    };
    let mut out: Vec<T> = Vec::new();
    let mut i: usize = 0;
    while i < n
        invariant
            i <= n,
            n <= left@.len(),
            n <= right@.len(),
            n == left@.len() || n == right@.len(),
            out@.len() == 2 * i,
            forall|p: int|
                0 <= p < 2 * i ==> #[trigger] out@[p] == interleaved(left@, right@)[p],
        decreases n - i,
    {
        out.push(left[i]);
        out.push(right[i]);
        i = i + 1;
    }
    assert(out@ =~= interleaved(left@, right@));
    out
}

/// Stereo audio that was put in turns comes apart as it was.
pub proof fn interleaved_comes_apart<T>(left: Seq<T>, right: Seq<T>)
    requires
        left.len() == right.len(),
    ensures
        channel_of(interleaved(left, right), 2, 0) == left,
        channel_of(interleaved(left, right), 2, 1) == right,
{
    let x = interleaved(left, right);
    assert(channel_of(x, 2, 0) =~= left);
    assert(channel_of(x, 2, 1) =~= right);
}

/// What the program says of itself.
pub fn usage() -> (r: &'static str)
    ensures
        r@ == "\
demucs-native — HTDemucs v4 hand-written CPU/CUDA inference

Usage:
  demucs-native -i <input.wav> [options]

Options:
  -i, --input <path>       Input WAV (required)
  -o, --output <dir>       Output directory for stem WAVs (default: ./stems/)
  -m, --model <name>       Model: htdemucs | htdemucs_6s | htdemucs_ft (default: htdemucs)
      --model-dir <dir>    Directory containing *.safetensors (default: ./models)
      --device <name>       auto | cpu | cuda  (default: auto; cuda needs --features cuda)
  -s, --stems <list>       Comma-separated stems (default: all)
  -h, --help               Show this help

Models are NOT bundled. Download .safetensors into --model-dir first
(see README for download instructions)."@,
{
    "\
demucs-native — HTDemucs v4 hand-written CPU/CUDA inference

Usage:
  demucs-native -i <input.wav> [options]

Options:
  -i, --input <path>       Input WAV (required)
  -o, --output <dir>       Output directory for stem WAVs (default: ./stems/)
  -m, --model <name>       Model: htdemucs | htdemucs_6s | htdemucs_ft (default: htdemucs)
      --model-dir <dir>    Directory containing *.safetensors (default: ./models)
      --device <name>       auto | cpu | cuda  (default: auto; cuda needs --features cuda)
  -s, --stems <list>       Comma-separated stems (default: all)
  -h, --help               Show this help

Models are NOT bundled. Download .safetensors into --model-dir first
(see README for download instructions)."
}

} // verus!
