//! What a separation lists is what the catalogue promises: which stems, in which order, and from
//! which of the models.
use vstd::prelude::*;
use crate::arith::Arith;
use crate::backend::Backend;
use crate::cpu_engine;
use crate::cpu_engine::CpuEngine;
use crate::cuda_engine;
use crate::cuda_engine::CudaEngine;
use crate::cuda_engine::CudaModel;
use crate::cuda_engine::Device;
use crate::dsp::Dsp;
use crate::engine;
use crate::engine::Engine;
use crate::engine::Network;
use crate::error::DemucsError;
use crate::gpu_loading;
use crate::loading;
use crate::metadata;
use crate::metadata::ModelInfo;
use crate::metadata::StemId;
use crate::model::HTDemucs;
use crate::ops_cpu::decoder;
use crate::ops_cpu::forward;
use crate::ops_cpu::stems;
use crate::weights;
use crate::Demucs;
use crate::DemucsInner;
use crate::LoadOptions;
use crate::ModelVariant;
use crate::Stem;
use crate::StemSelection;
use crate::SAMPLE_RATE;
use crate::TRAINING_LENGTH;

verus! {

/// The labels of stems.
pub open spec fn ids_of<T>(v: Seq<Stem<T>>) -> Seq<StemId> {
    Seq::new(v.len(), |k: int| v[k].id)
}

/// The stems of `all` that are among `wanted`, in the order of `all`.
pub open spec fn among(all: Seq<StemId>, wanted: Seq<StemId>) -> Seq<StemId> {
    all.filter(|id: StemId| wanted.contains(id))
}

/// The stems that `opts` asks of a model with the stems `all`.
pub open spec fn asked(all: Seq<StemId>, opts: &LoadOptions) -> Seq<StemId> {
    match opts.stems {
        StemSelection::All => all,
        StemSelection::Only(s) => among(all, s@),
    }
}

/// Every model has the six stems, or the first four of them, each once.
pub proof fn catalogues_agree(v: ModelVariant, w: ModelVariant, x: ModelInfo, y: ModelInfo)
    requires
        crate::is_info(v, x),
        crate::is_info(w, y),
    ensures
        forall|k: int| 0 <= k < x.stems@.len() && k < y.stems@.len() ==> x.stems@[k] == y.stems@[k],
        x.stems@.no_duplicates(),
        x.stems@.len() == 6 <==> v is SixStem,
        x.stems@.len() == 4 <==> !(v is SixStem),
        x.stems@.contains(StemId::Guitar) <==> v is SixStem,
        x.stems@.contains(StemId::Piano) <==> v is SixStem,
        x.signatures@.len() == 1 || x.signatures@.len() == x.stems@.len(),
        x.signatures@.len() > 1 <==> v is FineTuned,
{
    let six = metadata::six_stems();
    assert(six[4] == StemId::Guitar && six[5] == StemId::Piano);
}

/// Filtering everything away that is not there keeps all.
proof fn lemma_among_all(all: Seq<StemId>, wanted: Seq<StemId>)
    requires
        forall|k: int| 0 <= k < all.len() ==> wanted.contains(#[trigger] all[k]),
    ensures
        among(all, wanted) == all,
    decreases all.len(),
{
    reveal(Seq::filter);
    if all.len() > 0 {
        let rest = all.drop_last();
        assert forall|k: int| 0 <= k < rest.len() implies wanted.contains(#[trigger] rest[k]) by {
            assert(rest[k] == all[k]);
        }
        lemma_among_all(rest, wanted);
        assert(wanted.contains(all[all.len() - 1]));
        assert(rest.push(all.last()) =~= all);
    }
}

/// What is asked for is what is among the selection.
proof fn lemma_asked(info: &ModelInfo, opts: &LoadOptions)
    ensures
        asked(info.stems@, opts) == among(info.stems@, engine::selection(info, opts)),
{
    if opts.stems is All {
        lemma_among_all(info.stems@, info.stems@);
    }
}

/// Labels of what is kept.
proof fn lemma_kept<T>(v: Seq<Stem<T>>, selected: Seq<StemId>)
    ensures
        ids_of(engine::kept(v, selected)) == among(ids_of(v), selected),
    decreases v.len(),
{
    reveal(Seq::filter);
    if v.len() > 0 {
        lemma_kept(v.drop_last(), selected);
        assert(ids_of(v).drop_last() =~= ids_of(v.drop_last()));
        assert(ids_of(v).last() == v.last().id);
        assert(ids_of(engine::kept(v.drop_last(), selected).push(v.last())) =~= ids_of(
            engine::kept(v.drop_last(), selected),
        ).push(v.last().id));
    } else {
        assert(ids_of(engine::kept(v, selected)) =~= among(ids_of(v), selected));
    }
}

/// The stems at the positions `at`.
spec fn stems_at(info: &ModelInfo, at: Seq<int>) -> Seq<StemId> {
    Seq::new(at.len(), |k: int| info.stems@[at[k]])
}

/// The stems at the chosen positions are those among the selection.
proof fn lemma_chosen_stems(info: &ModelInfo, selected: Seq<StemId>, n: int)
    requires
        info.signatures@.len() > 1,
        0 <= n <= info.stems@.len(),
    ensures
        stems_at(info, engine::chosen(info, selected, n)) == among(info.stems@.take(n), selected),
    decreases n,
{
    reveal(Seq::filter);
    let c = engine::chosen(info, selected, n);
    let f = stems_at(info, c);
    if n > 0 {
        lemma_chosen_stems(info, selected, n - 1);
        let b = engine::chosen(info, selected, n - 1);
        let g = stems_at(info, b);
        assert(info.stems@.take(n).drop_last() =~= info.stems@.take(n - 1));
        assert(info.stems@.take(n).last() == info.stems@[n - 1]);
        if selected.contains(info.stems@[n - 1]) {
            assert(f =~= g.push(info.stems@[n - 1]));
        } else {
            assert(f =~= g);
        }
    } else {
        assert(f =~= among(info.stems@.take(n), selected));
    }
}

/// The catalogue has the signature `sig` and the stem `id` at position `p`.
pub open spec fn stands_at(info: &ModelInfo, p: int, sig: Seq<char>, id: StemId) -> bool {
    &&& 0 <= p < info.signatures@.len()
    &&& 0 <= p < info.stems@.len()
    &&& info.signatures@[p]@ == sig
    &&& info.stems@[p] == id
}

/// The catalogue has the signature `sig` and the stem `id` at the same position.
pub open spec fn stand_together(info: &ModelInfo, sig: Seq<char>, id: StemId) -> bool {
    exists|p: int| #[trigger] stands_at(info, p, sig, id)
}

/// Each model stands under a signature of the catalogue, and the stem that is taken from it is
/// the one that the catalogue lists at the position of that signature.
pub open spec fn is_paired<M>(e: &Engine<M>) -> bool {
    &&& e.models@.len() == e.model_stems@.len()
    &&& forall|k: int|
        #![trigger e.models@[k]]
        #![trigger e.model_stems@[k]]
        0 <= k < e.models@.len() ==> stand_together(
            &e.info,
            e.models@[k].sig@,
            e.model_stems@[k],
        )
}

/// The models of an engine are those that `opts` calls for: the only one, or one for each stem
/// that is asked for, in the order of the catalogue, and each paired with its stem. The transformer
/// of a model with six stems is as wide as the deepest layer, that of the others wider.
pub open spec fn is_outfit<M>(e: &Engine<M>, opts: &LoadOptions) -> bool {
    &&& is_paired(e)
    &&& e.info.signatures@.len() == 1 ==> e.models@.len() == 1
    &&& e.info.signatures@.len() > 1 ==> e.model_stems@ == asked(e.info.stems@, opts)
    &&& among(e.info.stems@, e.selected_stems@) == asked(e.info.stems@, opts)
    &&& e.n_sources == e.info.stems@.len()
    &&& e.bottom_channels == if e.info.stems@.len() == 6 {
        384usize
    } else {
        512usize
    }
}

/// One signature gives one model.
proof fn lemma_single(info: &ModelInfo, selected: Seq<StemId>)
    requires
        info.signatures@.len() == 1,
    ensures
        engine::all_chosen(info, selected) == seq![0int],
{
    reveal_with_fuel(engine::chosen, 2);
    assert(engine::all_chosen(info, selected) =~= seq![0int]);
}

/// An engine that was loaded for the processor has the models that were called for, each with its
/// own stem.
pub proof fn loaded_for_the_processor_is_paired<A: Arith>(
    a: &A,
    m: loading::Weights,
    info: ModelInfo,
    opts: &LoadOptions,
    e: CpuEngine<A::T>,
)
    requires
        metadata::info_ok(&info),
        cpu_engine::is_loaded(a, m, info, opts, Ok(e)),
    ensures
        is_outfit(&e, opts),
{
    let selected = engine::selection(&info, opts);
    let picked = engine::all_chosen(&info, selected);
    let n = info.signatures@.len() as int;
    lemma_asked(&info, opts);
    if n == 1 {
        lemma_single(&info, selected);
    } else {
        lemma_chosen_stems(&info, selected, n);
        assert(info.stems@.take(n) =~= info.stems@);
        assert(e.model_stems@ =~= stems_at(&info, picked));
    }
    assert forall|k: int|
        #![trigger e.models@[k]]
        #![trigger e.model_stems@[k]]
        0 <= k < e.models@.len() implies stand_together(
        &e.info,
        e.models@[k].sig@,
        e.model_stems@[k],
    ) by {
        engine::chosen_in_range(&info, selected, n, k);
        let (l, i) = (e.models@[k], e.model_stems@[k]);
        assert(stands_at(&e.info, picked[k], l.sig@, i));
    }
}

/// An engine that was loaded for the device has the models that were called for, each with its
/// own stem.
pub proof fn loaded_for_the_device_is_paired<A: Arith>(
    a: &A,
    m: loading::Weights,
    info: ModelInfo,
    opts: &LoadOptions,
    e: CudaEngine<A::T>,
)
    requires
        metadata::info_ok(&info),
        cuda_engine::is_loaded(a, m, info, opts, Ok(e)),
    ensures
        is_outfit(&e, opts),
{
    let selected = engine::selection(&info, opts);
    let picked = engine::all_chosen(&info, selected);
    let n = info.signatures@.len() as int;
    lemma_asked(&info, opts);
    if n == 1 {
        lemma_single(&info, selected);
    } else {
        lemma_chosen_stems(&info, selected, n);
        assert(info.stems@.take(n) =~= info.stems@);
        assert(e.model_stems@ =~= stems_at(&info, picked));
    }
    assert forall|k: int|
        #![trigger e.models@[k]]
        #![trigger e.model_stems@[k]]
        0 <= k < e.models@.len() implies stand_together(
        &e.info,
        e.models@[k].sig@,
        e.model_stems@[k],
    ) by {
        engine::chosen_in_range(&info, selected, n, k);
        let (l, i) = (e.models@[k], e.model_stems@[k]);
        assert(stands_at(&e.info, picked[k], l.sig@, i));
    }
}

/// The signature of the model that is tuned for a stem.
pub open spec fn tuned_for(id: StemId) -> Seq<char> {
    match id {
        StemId::Drums => "f7e0c4bc"@,
        StemId::Bass => "d12395a8"@,
        StemId::Other => "92cfc3b6"@,
        StemId::Vocals => "04573f0d"@,
        _ => ""@,
    }
}

/// Of the tuned models, each stem is taken from the model that is tuned for it.
pub proof fn tuned_models_give_their_stems<M>(e: &Engine<M>, k: int)
    requires
        crate::is_info(ModelVariant::FineTuned, e.info),
        is_paired(e),
        0 <= k < e.models@.len(),
    ensures
        e.models@[k].sig@ == tuned_for(e.model_stems@[k]),
{
    let m = e.models@[k];
}

/// The network labels what it gives as the catalogue lists it: where it gives as many stems as a
/// model of the catalogue has, those of that model, in its order.
pub open spec fn labels_as_listed<D: Dsp, M: Network<D>>(d: &D, m: &M) -> bool {
    forall|
        freq: Seq<D::T>,
        frames: int,
        time: Seq<D::T>,
        n: int,
        out: Seq<Stem<D::T>>,
        v: ModelVariant,
        info: ModelInfo,
    |
        #[trigger] m.gives(d, freq, frames, time, n, out) && #[trigger] crate::is_info(v, info)
            && out.len() == info.stems@.len() ==> ids_of(out) == info.stems@
}

/// The label of an extracted stem is the one that the catalogue lists at its position, for every
/// model with as many stems.
pub proof fn stems_are_labelled_as_listed<D: Dsp>(
    d: &D,
    x: Seq<D::T>,
    s: [usize; 4],
    frames: int,
    padded_len: usize,
    time: Seq<D::T>,
    time_len: int,
    n: int,
    k: int,
    stem: Stem<D::T>,
    v: ModelVariant,
    info: ModelInfo,
)
    requires
        stems::is_stem(d, x, s, frames, padded_len, time, time_len, n, k, stem),
        crate::is_info(v, info),
        s[1] == 4 * info.stems@.len(),
        0 <= k < info.stems@.len(),
    ensures
        stem.id == info.stems@[k],
{
}

/// The network on the processor labels what it gives as the catalogue lists it.
pub proof fn processor_labels_as_listed<D: Dsp>(d: &D, m: &HTDemucs<D::T>)
    ensures
        labels_as_listed(d, m),
{
    assert forall|
        freq: Seq<D::T>,
        frames: int,
        time: Seq<D::T>,
        n: int,
        out: Seq<Stem<D::T>>,
        v: ModelVariant,
        info: ModelInfo,
    |
        #[trigger] m.gives(d, freq, frames, time, n, out) && #[trigger] crate::is_info(v, info)
            && out.len() == info.stems@.len() implies ids_of(out) == info.stems@ by {
        let fs = forward::forward_freq_shape(cpu_engine::freq_shape(frames), m);
        assert(fs[1] == 16 || fs[1] == 24);
        assert forall|k: int| 0 <= k < out.len() implies ids_of(out)[k] == info.stems@[k] by {
            let stem = out[k];
        }
        assert(ids_of(out) =~= info.stems@);
    }
}

/// The network on the device labels what it gives as the catalogue lists it.
pub proof fn device_labels_as_listed<D: Device>(d: &D, m: &CudaModel<D::T>)
    ensures
        labels_as_listed(d, m),
{
    assert forall|
        freq: Seq<D::T>,
        frames: int,
        time: Seq<D::T>,
        n: int,
        out: Seq<Stem<D::T>>,
        v: ModelVariant,
        info: ModelInfo,
    |
        #[trigger] m.gives(d, freq, frames, time, n, out) && #[trigger] crate::is_info(v, info)
            && out.len() == info.stems@.len() implies ids_of(out) == info.stems@ by {
        assert forall|k: int| 0 <= k < out.len() implies ids_of(out)[k] == info.stems@[k] by {
            let stem = out[k];
        }
        assert(ids_of(out) =~= info.stems@);
    }
}

/// Every model of the engine gives as many stems as the catalogue lists, and labels them so.
pub open spec fn is_in_order<D: Dsp, M: Network<D>>(d: &D, e: &Engine<M>) -> bool {
    &&& forall|i: int|
        0 <= i < e.models@.len() ==> labels_as_listed(d, &(#[trigger] e.models@[i]).model)
    &&& forall|
        i: int,
        freq: Seq<D::T>,
        frames: int,
        time: Seq<D::T>,
        n: int,
        out: Seq<Stem<D::T>>,
    |
        0 <= i < e.models@.len() && #[trigger] e.models@[i].model.gives(
            d,
            freq,
            frames,
            time,
            n,
            out,
        ) ==> out.len() == e.info.stems@.len()
}

/// The first stem with a label that is there.
proof fn lemma_find<T>(v: Seq<Stem<T>>, id: StemId, from: int, k: int)
    requires
        0 <= from <= k < v.len(),
        v[k].id == id,
    ensures
        engine::find_from(v, id, from) < v.len(),
        v[engine::find_from(v, id, from)].id == id,
        0 <= engine::find_from(v, id, from),
    decreases k - from,
{
    if v[from].id != id {
        lemma_find(v, id, from + 1, k);
    }
}

/// The first stem with a label, where it lies.
proof fn lemma_found<T>(v: Seq<Stem<T>>, id: StemId, from: int)
    requires
        0 <= from <= v.len(),
    ensures
        from <= engine::find_from(v, id, from) <= v.len(),
        engine::find_from(v, id, from) < v.len() ==> v[engine::find_from(v, id, from)].id == id,
    decreases v.len() - from,
{
    if from < v.len() && v[from].id != id {
        lemma_found(v, id, from + 1);
    }
}

/// Labels of what is picked from several models.
proof fn lemma_picks<T>(alls: Seq<Seq<Stem<T>>>, ids: Seq<StemId>, all: Seq<StemId>, i: int)
    requires
        0 <= i <= alls.len(),
        i <= ids.len(),
        forall|k: int| 0 <= k < i ==> ids_of(#[trigger] alls[k]) == all,
        forall|k: int| 0 <= k < i ==> all.contains(#[trigger] ids[k]),
    ensures
        ids_of(engine::picks(alls, ids, i)) == ids.take(i),
    decreases i,
{
    if i > 0 {
        lemma_picks(alls, ids, all, i - 1);
        let (v, id) = (alls[i - 1], ids[i - 1]);
        let k = choose|k: int| 0 <= k < all.len() && all[k] == id;
        assert(ids_of(v)[k] == id);
        lemma_find(v, id, 0, k);
        let before = engine::picks(alls, ids, i - 1);
        let one = engine::pick(v, id);
        assert(ids_of(before + one) =~= ids_of(before) + seq![id]);
        assert(ids.take(i - 1) + seq![id] =~= ids.take(i));
    } else {
        assert(ids_of(engine::picks(alls, ids, i)) =~= ids.take(i));
    }
}

/// The stems of a segment, by their labels.
proof fn lemma_segment_ids<D: Dsp, M: Network<D>>(
    d: &D,
    v: ModelVariant,
    e: &Engine<M>,
    opts: &LoadOptions,
    left: Seq<D::T>,
    right: Seq<D::T>,
    out: Seq<Stem<D::T>>,
)
    requires
        crate::is_info(v, e.info),
        is_outfit(e, opts),
        is_in_order(d, e),
        engine::is_segment(d, e, left, right, out),
    ensures
        ids_of(engine::kept(out, e.selected_stems@)) == asked(e.info.stems@, opts),
{
    let all = e.info.stems@;
    assert forall|freq: Seq<D::T>, frames: int, time: Seq<D::T>, n: int| #[trigger]
        engine::are_engine_stems(d, e, freq, frames, time, n, out) implies ids_of(
        engine::kept(out, e.selected_stems@),
    ) == asked(all, opts) by {
        lemma_kept(out, e.selected_stems@);
        if e.models@.len() == 1 {
            let model = e.models@[0];
            assert(model.model.gives(d, freq, frames, time, n, out));
            assert(ids_of(out) == all);
        } else {
            let alls = choose|alls: Seq<Seq<Stem<D::T>>>| #[trigger]
                engine::are_all_model_stems(d, e, freq, frames, time, n, alls) && alls.len()
                    == e.models@.len() && out == engine::picks(
                    alls,
                    e.model_stems@,
                    alls.len() as int,
                );
            assert forall|k: int| 0 <= k < alls.len() implies ids_of(#[trigger] alls[k]) == all by {
                let model = e.models@[k];
                assert(model.model.gives(d, freq, frames, time, n, alls[k]));
            }
            assert forall|k: int| 0 <= k < alls.len() implies all.contains(
                #[trigger] e.model_stems@[k],
            ) by {
                let model = e.models@[k];
            }
            lemma_picks(alls, e.model_stems@, all, alls.len() as int);
            assert(e.model_stems@.take(alls.len() as int) =~= e.model_stems@);
            assert forall|k: int| 0 <= k < e.model_stems@.len() implies e.selected_stems@.contains(
                #[trigger] e.model_stems@[k],
            ) by {
                broadcast use vstd::seq_lib::group_filter_ensures;

                assert(among(all, e.selected_stems@)[k] == e.model_stems@[k]);
            }
            lemma_among_all(e.model_stems@, e.selected_stems@);
        }
    }
}

/// A separation gives the stems that were asked for, in the order of the catalogue, each once:
/// at any sample rate, for audio of any length, from one model or from several.
pub proof fn separation_lists_what_was_asked<D: Dsp, M: Network<D>>(
    d: &D,
    v: ModelVariant,
    e: &Engine<M>,
    opts: &LoadOptions,
    left: Seq<D::T>,
    right: Seq<D::T>,
    rate: u32,
    out: Seq<Stem<D::T>>,
)
    requires
        crate::is_info(v, e.info),
        is_outfit(e, opts),
        is_in_order(d, e),
        engine::is_separated(d, e, left, right, rate, out),
    ensures
        ids_of(out) == asked(e.info.stems@, opts),
{
    assert forall|l: Seq<D::T>, r: Seq<D::T>, all: Seq<Stem<D::T>>| #[trigger]
        engine::is_native(d, e, l, r, all) implies ids_of(engine::kept(all, e.selected_stems@))
        == asked(e.info.stems@, opts) by {
        if l.len() <= TRAINING_LENGTH {
            lemma_segment_ids(d, v, e, opts, l, r, all);
        } else {
            lemma_kept(all, e.selected_stems@);
            assert(all.len() == e.info.stems@.len());
            assert forall|s: int| 0 <= s < all.len() implies ids_of(all)[s] == e.info.stems@[s] by {
                let stem = all[s];
            }
            assert(ids_of(all) =~= e.info.stems@);
        }
    }
    if rate != SAMPLE_RATE {
        let (l, r, all) = choose|l: Vec<D::T>, r: Vec<D::T>, all: Seq<Stem<D::T>>|
            {
                &&& #[trigger] crate::dsp::is_resample(d, left, rate, SAMPLE_RATE as u32, Ok(l))
                &&& #[trigger] crate::dsp::is_resample(d, right, rate, SAMPLE_RATE as u32, Ok(r))
                &&& engine::channels_ok(l@.len() as int, r@.len() as int)
                &&& #[trigger] engine::is_native(d, e, l@, r@, all)
                &&& engine::are_resampled_stems(
                    d,
                    engine::kept(all, e.selected_stems@),
                    rate,
                    out,
                )
            };
        let kept = engine::kept(all, e.selected_stems@);
        assert forall|k: int| 0 <= k < out.len() implies ids_of(out)[k] == ids_of(kept)[k] by {
            let stem = out[k];
        }
        assert(ids_of(out) =~= ids_of(kept));
    }
}

/// A model of `n` stems: its last layer in frequency has four channels for each.
pub open spec fn has_stems<T>(m: &HTDemucs<T>, n: int) -> bool {
    m.decoders@.last().conv_tr.out_ch == 4 * n
}

/// A model gives as many stems as its last layer has channels for.
proof fn lemma_channels<T>(m: &HTDemucs<T>, fs: [usize; 4], n: int)
    requires
        has_stems(m, n),
        m.encoders@.len() == m.decoders@.len(),
        m.decoders@.len() > 0,
    ensures
        forward::forward_freq_shape(fs, m)[1] == 4 * n,
{
    let k = m.encoders@.len() as int;
    assert(m.decoders@[k - 1] == m.decoders@.last());
    reveal(decoder::hdec_shape);
}

/// The models of an engine that was loaded for the processor are in order.
proof fn lemma_processor_in_order<A: Arith, D: Dsp<T = A::T>>(
    a: &A,
    m: loading::Weights,
    info: ModelInfo,
    opts: &LoadOptions,
    d: &D,
    e: &CpuEngine<A::T>,
)
    requires
        cpu_engine::is_loaded(a, m, info, opts, Ok(*e)),
        forall|k: int|
            0 <= k < e.models@.len() ==> has_stems(
                &(#[trigger] e.models@[k]).model,
                info.stems@.len() as int,
            ),
    ensures
        is_in_order(d, e),
{
    assert forall|i: int| 0 <= i < e.models@.len() implies labels_as_listed(
        d,
        &(#[trigger] e.models@[i]).model,
    ) by {
        processor_labels_as_listed(d, &e.models@[i].model);
    }
    assert forall|
        i: int,
        freq: Seq<D::T>,
        frames: int,
        time: Seq<D::T>,
        n: int,
        out: Seq<Stem<D::T>>,
    |
        0 <= i < e.models@.len() && #[trigger] e.models@[i].model.gives(
            d,
            freq,
            frames,
            time,
            n,
            out,
        ) implies out.len() == e.info.stems@.len() by {
        let l = e.models@[i].model;
        reveal(loading::is_htdemucs);
        reveal(loading::are_encoders);
        reveal(loading::are_decoders);
        lemma_channels(&l, cpu_engine::freq_shape(frames), info.stems@.len() as int);
    }
}

/// The models of an engine that was loaded for the device are in order.
proof fn lemma_device_in_order<A: Arith, D: Device<T = A::T>>(
    a: &A,
    m: loading::Weights,
    info: ModelInfo,
    opts: &LoadOptions,
    d: &D,
    e: &CudaEngine<A::T>,
)
    requires
        metadata::info_ok(&info),
        cuda_engine::is_loaded(a, m, info, opts, Ok(*e)),
    ensures
        is_in_order(d, e),
{
    assert forall|i: int| 0 <= i < e.models@.len() implies labels_as_listed(
        d,
        &(#[trigger] e.models@[i]).model,
    ) by {
        device_labels_as_listed(d, &e.models@[i].model);
    }
    assert forall|
        i: int,
        freq: Seq<D::T>,
        frames: int,
        time: Seq<D::T>,
        n: int,
        out: Seq<Stem<D::T>>,
    |
        0 <= i < e.models@.len() && #[trigger] e.models@[i].model.gives(
            d,
            freq,
            frames,
            time,
            n,
            out,
        ) implies out.len() == e.info.stems@.len() by {
        let g = e.models@[i];
        reveal(gpu_loading::is_model_at);
        reveal(loading::is_htdemucs);
    }
}

/// A loaded model gives the stems that were asked for when it was loaded, in the order of the
/// catalogue, each once, whatever the audio, its length and its sample rate. On the processor the
/// last layer of a model decides how many stems there are; it is to have four channels for each.
pub proof fn loaded_models_list_what_was_asked<A: Arith, D: Device<T = A::T>>(
    a: &A,
    bytes: Seq<u8>,
    opts: &LoadOptions,
    backend: Backend,
    opened: core::result::Result<(), DemucsError>,
    x: Demucs<A::T>,
    info: ModelInfo,
    d: &D,
    left: Seq<A::T>,
    right: Seq<A::T>,
    rate: u32,
    v: Vec<Stem<A::T>>,
)
    requires
        crate::is_info(opts.variant, info),
        crate::is_loaded_from(a, bytes, opts, backend, opened, Ok(x)),
        x.inner matches DemucsInner::Cpu(e) ==> forall|k: int|
            0 <= k < e.models@.len() ==> has_stems(
                &(#[trigger] e.models@[k]).model,
                info.stems@.len() as int,
            ),
        crate::is_separation(d, &x, left, right, rate, Ok(v)),
    ensures
        ids_of(v@) == asked(info.stems@, opts),
{
    let r = Ok::<Demucs<A::T>, DemucsError>(x);
    let m = choose|m: loading::Weights| #[trigger]
        weights::is_store_of(bytes, m) && crate::is_loaded_on(a, m, opts, backend, opened, r);
    match x.inner {
        DemucsInner::Cpu(e) => {
            let i = choose|i: ModelInfo| #[trigger]
                crate::is_info(opts.variant, i) && cpu_engine::is_loaded(a, m, i, opts, Ok(e));
            catalogues_agree(opts.variant, opts.variant, info, i);
            assert(info.stems@ =~= i.stems@);
            lemma_processor_in_order(a, m, i, opts, d, &e);
            loaded_for_the_processor_is_paired(a, m, i, opts, e);
            separation_lists_what_was_asked(d, opts.variant, &e, opts, left, right, rate, v@);
        },
        DemucsInner::Cuda(e) => {
            let i = choose|i: ModelInfo| #[trigger]
                crate::is_info(opts.variant, i) && cuda_engine::is_loaded(a, m, i, opts, Ok(e));
            catalogues_agree(opts.variant, opts.variant, info, i);
            assert(info.stems@ =~= i.stems@);
            lemma_device_in_order(a, m, i, opts, d, &e);
            loaded_for_the_device_is_paired(a, m, i, opts, e);
            separation_lists_what_was_asked(d, opts.variant, &e, opts, left, right, rate, v@);
        },
    }
}

/// The stem that is taken for the audio of a segment is one that its own model gave, under its
/// own label: of several models, the stem of the catalogue's position `p` comes from the model
/// with the signature at `p`.
pub proof fn stems_come_from_their_models<D: Dsp, M: Network<D>>(
    d: &D,
    e: &Engine<M>,
    freq: Seq<D::T>,
    frames: int,
    time: Seq<D::T>,
    n: int,
    out: Seq<Stem<D::T>>,
    j: int,
) -> (k: int)
    requires
        is_paired(e),
        e.models@.len() != 1,
        engine::are_engine_stems(d, e, freq, frames, time, n, out),
        0 <= j < out.len(),
    ensures
        0 <= k < e.models@.len(),
        stand_together(&e.info, e.models@[k].sig@, out[j].id),
        exists|v: Seq<Stem<D::T>>| #[trigger]
            e.models@[k].model.gives(d, freq, frames, time, n, v) && v.contains(out[j]),
{
    let alls = choose|alls: Seq<Seq<Stem<D::T>>>| #[trigger]
        engine::are_all_model_stems(d, e, freq, frames, time, n, alls) && alls.len()
            == e.models@.len() && out == engine::picks(alls, e.model_stems@, alls.len() as int);
    let k = lemma_picked_from(alls, e.model_stems@, alls.len() as int, j);
    let v = alls[k];
    assert(e.models@[k].model.gives(d, freq, frames, time, n, v));
    let m = e.models@[k];
    k
}

/// Every stem that is picked was given under the label that it is picked by.
proof fn lemma_picked_from<T>(
    alls: Seq<Seq<Stem<T>>>,
    ids: Seq<StemId>,
    i: int,
    j: int,
) -> (k: int)
    requires
        0 <= i <= alls.len(),
        i <= ids.len(),
        0 <= j < engine::picks(alls, ids, i).len(),
    ensures
        0 <= k < i,
        alls[k].contains(engine::picks(alls, ids, i)[j]),
        engine::picks(alls, ids, i)[j].id == ids[k],
    decreases i,
{
    let before = engine::picks(alls, ids, i - 1);
    if i <= 0 {
        0
    } else if j < before.len() {
        lemma_picked_from(alls, ids, i - 1, j)
    } else {
        lemma_found(alls[i - 1], ids[i - 1], 0);
        i - 1
    }
}

} // verus!
