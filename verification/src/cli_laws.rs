//! What the command line promises.
use vstd::prelude::*;
use crate::backend;
use crate::backend::Backend;
use crate::cli;
use crate::cli::ArgumentsView;
use crate::cli::Parsed;
use crate::index;
use crate::metadata::ModelInfo;
use crate::ModelVariant;

verus! {

/// The parts of a list, with commas between them.
pub open spec fn joined(v: Seq<Seq<char>>) -> Seq<char>
    decreases v.len(),
{
    if v.len() == 0 {
        seq![]
    } else if v.len() == 1 {
        v[0]
    } else {
        v[0] + seq![','] + joined(v.drop_first())
    }
}

/// Splitting the rest of a list.
proof fn lemma_joined(s: Seq<char>, i: int, part: Seq<char>)
    requires
        0 <= i <= s.len(),
        !part.contains(','),
    ensures
        cli::parts_from(s, i, part).len() >= 1,
        joined(cli::parts_from(s, i, part)) == part + s.skip(i),
        forall|k: int|
            0 <= k < cli::parts_from(s, i, part).len() ==> !(#[trigger] cli::parts_from(
                s,
                i,
                part,
            )[k]).contains(','),
    decreases s.len() - i,
{
    let v = cli::parts_from(s, i, part);
    if i >= s.len() {
        assert(part + s.skip(i) =~= part);
    } else if s[i] == ',' {
        let none: Seq<char> = seq![];
        lemma_joined(s, i + 1, none);
        let w = cli::parts_from(s, i + 1, none);
        assert(v.drop_first() =~= w);
        assert(part + seq![','] + (none + s.skip(i + 1)) =~= part + s.skip(i));
        assert forall|k: int| 0 <= k < v.len() implies !(#[trigger] v[k]).contains(',') by {
            if k > 0 {
                assert(v[k] == w[k - 1]);
            }
        }
    } else {
        let more = part.push(s[i]);
        assert(!more.contains(',')) by {
            assert forall|k: int| 0 <= k < more.len() implies more[k] != ',' by {
                if k < part.len() {
                    assert(part[k] != ',') by {
                        assert(part.contains(part[k]));
                    }
                }
            }
        }
        lemma_joined(s, i + 1, more);
        assert(more + s.skip(i + 1) =~= part + s.skip(i));
    }
}

/// A list is split at its commas, at all of them, and nothing is lost.
pub proof fn lists_can_be_joined_again(s: Seq<char>)
    ensures
        cli::parts(s).len() >= 1,
        joined(cli::parts(s)) == s,
        forall|k: int|
            0 <= k < cli::parts(s).len() ==> !(#[trigger] cli::parts(s)[k]).contains(','),
{
    let none: Seq<char> = seq![];
    lemma_joined(s, 0, none);
    assert(none + s.skip(0) =~= s);
}

/// What the option `name` with the value `v` changes.
pub open spec fn is_set(a: ArgumentsView, name: Seq<char>, v: Seq<char>, b: ArgumentsView) -> bool {
    &&& (name == "-i"@ || name == "--input"@) ==> b == (ArgumentsView { input: Some(v), ..a })
    &&& (name == "-o"@ || name == "--output"@) ==> b == (ArgumentsView { output: v, ..a })
    &&& (name == "-m"@ || name == "--model"@) ==> b == (ArgumentsView { variant: v, ..a })
    &&& name == "--model-dir"@ ==> b == (ArgumentsView { model_dir: v, ..a })
    &&& name == "--device"@ ==> b == (ArgumentsView { device: v, ..a })
    &&& (name == "-s"@ || name == "--stems"@) ==> b.stems.len() >= 1 && joined(b.stems) == v && b
        == (ArgumentsView { stems: b.stems, ..a })
}

/// `name` is one of the options that take a value.
pub open spec fn takes_value(name: Seq<char>) -> bool {
    ||| name == "-i"@ || name == "--input"@
    ||| name == "-o"@ || name == "--output"@
    ||| name == "-m"@ || name == "--model"@
    ||| name == "--model-dir"@
    ||| name == "--device"@
    ||| name == "-s"@ || name == "--stems"@
}

/// The names of the options differ.
proof fn lemma_names()
    ensures
        "-i"@.len() == 2 && "-i"@[1] == 'i',
        "-o"@.len() == 2 && "-o"@[1] == 'o',
        "-m"@.len() == 2 && "-m"@[1] == 'm',
        "-s"@.len() == 2 && "-s"@[1] == 's',
        "--input"@.len() == 7 && "--input"@[2] == 'i',
        "--output"@.len() == 8 && "--output"@[2] == 'o',
        "--model"@.len() == 7 && "--model"@[2] == 'm',
        "--model-dir"@.len() == 11,
        "--device"@.len() == 8 && "--device"@[2] == 'd',
        "--stems"@.len() == 7 && "--stems"@[2] == 's',
{
    reveal_strlit("-i");
    reveal_strlit("-o");
    reveal_strlit("-m");
    reveal_strlit("-s");
    reveal_strlit("--input");
    reveal_strlit("--output");
    reveal_strlit("--model");
    reveal_strlit("--model-dir");
    reveal_strlit("--device");
    reveal_strlit("--stems");
}

/// An option sets what it is named after, under its short name and under its long one, and nothing
/// else; given again, the last value counts.
pub proof fn options_set_what_they_name(
    args: Seq<Seq<char>>,
    i: int,
    a: ArgumentsView,
    name: Seq<char>,
    v: Seq<char>,
    r: Parsed,
    s: Parsed,
)
    requires
        0 <= i <= args.len(),
        takes_value(name),
        cli::is_parsed_from(args, i, a, r),
        r is Separate,
        cli::is_parsed_from(args.push(name).push(v), i, a, s),
    ensures
        s is Separate,
        is_set(r->Separate_0@, name, v, s->Separate_0@),
    decreases args.len() - i,
{
    let more = args.push(name).push(v);
    lemma_names();
    if i >= args.len() {
        assert(more[i] == name && more[i + 1] == v);
        lists_can_be_joined_again(v);
        reveal_with_fuel(cli::is_parsed_from, 2);
    } else {
        assert(more[i] == args[i]);
        match cli::flag_of(args[i]) {
            Some(f) => {
                assert(i + 1 < args.len());
                assert(more[i + 1] == args[i + 1]);
                options_set_what_they_name(
                    args,
                    i + 2,
                    cli::with_value(a, f, args[i + 1]),
                    name,
                    v,
                    r,
                    s,
                );
            },
            None => {
                options_set_what_they_name(
                    args,
                    i + 1,
                    ArgumentsView { unknown: a.unknown.push(args[i]), ..a },
                    name,
                    v,
                    r,
                    s,
                );
            },
        }
    }
}

/// A model is asked for by the name that the catalogue has for it, and its weights are in the file
/// of that name.
pub proof fn models_are_asked_for_by_name(s: Seq<char>, v: ModelVariant, info: ModelInfo)
    requires
        crate::is_info(v, info),
    ensures
        s == info.id@ <==> (cli::named_model(s) matches Some(m) && m.0 == v),
        cli::named_model(s) matches Some(m) ==> m.1 == s + ".safetensors"@,
{
    reveal_strlit("htdemucs");
    reveal_strlit("htdemucs_6s");
    reveal_strlit("htdemucs_ft");
    reveal_strlit(".safetensors");
    reveal_strlit("htdemucs.safetensors");
    reveal_strlit("htdemucs_6s.safetensors");
    reveal_strlit("htdemucs_ft.safetensors");
    assert("htdemucs"@ + ".safetensors"@ =~= "htdemucs.safetensors"@);
    assert("htdemucs_6s"@ + ".safetensors"@ =~= "htdemucs_6s.safetensors"@);
    assert("htdemucs_ft"@ + ".safetensors"@ =~= "htdemucs_ft.safetensors"@);
    assert("htdemucs_6s"@[9] != "htdemucs_ft"@[9]);
}

/// A device is asked for by the beginning of its own name.
pub proof fn devices_are_asked_for_by_name(s: Seq<char>, b: Backend)
    requires
        cli::named_backend(s) == Some(b),
    ensures
        s.len() >= 3,
        s.is_prefix_of(backend::tag_text(b)),
{
    reveal_strlit("cpu");
    reveal_strlit("auto");
    reveal_strlit("cuda");
    reveal_strlit("cuda:0");
}

/// Of audio that takes turns, sample `i` of channel `c` is the `c`-th of frame `i`; the left channel
/// is the first of a frame and the right one the second.
pub proof fn channels_take_turns<T>(
    x: Seq<T>,
    channels: int,
    c: int,
    left: Seq<T>,
    right: Seq<T>,
    i: int,
)
    requires
        0 <= c < channels,
        0 <= i,
    ensures
        (i + 1) * channels <= x.len() <==> i < cli::channel_of(x, channels, c).len(),
        (i + 1) * channels <= x.len() ==> cli::channel_of(x, channels, c)[i] == x[channels * i + c],
        i < left.len() && i < right.len() <==> 2 * i + 1 < cli::interleaved(left, right).len(),
        i < left.len() && i < right.len() ==> cli::interleaved(left, right)[2 * i] == left[i]
            && cli::interleaved(left, right)[2 * i + 1] == right[i],
{
    let n = x.len() as int;
    assert((i + 1) * channels <= n <==> i < n / channels) by (nonlinear_arith)
        requires
            channels > 0,
            n >= 0,
            i >= 0,
    ;
    assert(index::pos2(i, c, channels) == channels * i + c) by (nonlinear_arith)
        requires
            index::pos2(i, c, channels) == i * channels + c,
    ;
}

} // verus!
