//! Loading a model twice.
use vstd::prelude::*;
use crate::arith::Arith;
use crate::backend;
use crate::backend::Backend;
use crate::cpu_engine;
use crate::cpu_engine::CpuEngine;
use crate::cuda_engine;
use crate::cuda_engine::CudaEngine;
use crate::cuda_engine::CudaModel;
use crate::engine;
use crate::error::DemucsError;
use crate::gpu_loading;
use crate::loading;
use crate::metadata::ModelInfo;
use crate::metadata::StemId;
use crate::model::HTDemucs;
use crate::same_weights;
use crate::weights;
use crate::Demucs;
use crate::DemucsInner;
use crate::LoadOptions;
use crate::ModelVariant;

verus! {

/// The same is known of two models.
pub open spec fn same_info(x: &ModelInfo, y: &ModelInfo) -> bool {
    &&& x.id@ == y.id@
    &&& x.stems@ == y.stems@
    &&& x.signatures@.len() == y.signatures@.len()
    &&& forall|i: int|
        0 <= i < x.signatures@.len() ==> (#[trigger] x.signatures@[i])@ == y.signatures@[i]@
}

/// What is known of a variant is determined.
proof fn lemma_info(v: ModelVariant, x: ModelInfo, y: ModelInfo)
    requires
        crate::is_info(v, x),
        crate::is_info(v, y),
    ensures
        same_info(&x, &y),
{
}

/// The choice of models is determined.
proof fn lemma_chosen(x: &ModelInfo, y: &ModelInfo, selected: Seq<StemId>, n: int)
    requires
        same_info(x, y),
    ensures
        engine::chosen(x, selected, n) == engine::chosen(y, selected, n),
    decreases n,
{
    if n > 0 {
        lemma_chosen(x, y, selected, n - 1);
    }
}

/// Whether the processor's models can be loaded is determined.
proof fn lemma_engine_error(
    m: loading::Weights,
    x: &ModelInfo,
    y: &ModelInfo,
    picked: Seq<int>,
    width: usize,
    from: int,
)
    requires
        same_info(x, y),
        0 <= from,
        forall|k: int| 0 <= k < picked.len() ==> 0 <= #[trigger] picked[k] < x.signatures@.len(),
    ensures
        cpu_engine::engine_error_from(m, x, picked, width, from) == cpu_engine::engine_error_from(
            m,
            y,
            picked,
            width,
            from,
        ),
    decreases picked.len() - from,
{
    if from < picked.len() {
        lemma_engine_error(m, x, y, picked, width, from + 1);
        let i = picked[from];
        assert(x.signatures@[i]@ == y.signatures@[i]@);
    }
}

/// Two engines on the processor hold the same.
pub open spec fn same_cpu_engine<T>(x: CpuEngine<T>, y: CpuEngine<T>, exact: bool) -> bool {
    &&& same_info(&x.info, &y.info)
    &&& x.selected_stems@ == y.selected_stems@
    &&& x.model_stems@ == y.model_stems@
    &&& x.n_sources == y.n_sources
    &&& x.bottom_channels == y.bottom_channels
    &&& x.models@.len() == y.models@.len()
    &&& forall|k: int|
        #![trigger x.models@[k]]
        0 <= k < x.models@.len() ==> x.models@[k].sig@ == y.models@[k].sig@
            && same_weights::same_model(x.models@[k].model, y.models@[k].model, exact)
}

/// The model on the device is `l`.
pub open spec fn is_on_device<T>(g: CudaModel<T>, l: HTDemucs<T>) -> bool {
    &&& gpu_loading::model_error(l) is None
    &&& g.weights@ == gpu_loading::model_arrays(l)
    &&& gpu_loading::is_model_at(g.model, l, 0)
}

/// Two models on the device hold the same.
pub open spec fn same_cuda_model<T>(x: CudaModel<T>, y: CudaModel<T>, exact: bool) -> bool {
    exists|l: HTDemucs<T>, k: HTDemucs<T>|
        {
            &&& #[trigger] is_on_device(x, l)
            &&& #[trigger] is_on_device(y, k)
            &&& same_weights::same_model(l, k, exact)
        }
}

/// Two engines on the device hold the same.
pub open spec fn same_cuda_engine<T>(x: CudaEngine<T>, y: CudaEngine<T>, exact: bool) -> bool {
    &&& same_info(&x.info, &y.info)
    &&& x.selected_stems@ == y.selected_stems@
    &&& x.model_stems@ == y.model_stems@
    &&& x.n_sources == y.n_sources
    &&& x.bottom_channels == y.bottom_channels
    &&& x.models@.len() == y.models@.len()
    &&& forall|k: int|
        #![trigger x.models@[k]]
        0 <= k < x.models@.len() ==> x.models@[k].sig@ == y.models@[k].sig@ && same_cuda_model(
            x.models@[k].model,
            y.models@[k].model,
            exact,
        )
}

/// Two loaded models compute on the same device and hold the same weights: of the same sizes,
/// and, where `exact` is asked for, the same numbers.
pub open spec fn same_demucs<T>(x: Demucs<T>, y: Demucs<T>, exact: bool) -> bool {
    match x.inner {
        DemucsInner::Cpu(e) => y.inner matches DemucsInner::Cpu(f) && same_cpu_engine(e, f, exact),
        DemucsInner::Cuda(e) => y.inner matches DemucsInner::Cuda(f) && same_cuda_engine(
            e,
            f,
            exact,
        ),
    }
}

/// Two engines for the processor that are loaded from the same weights.
proof fn lemma_cpu<A: Arith>(
    a: &A,
    m: loading::Weights,
    i: ModelInfo,
    j: ModelInfo,
    opts: &LoadOptions,
    x: Result<CpuEngine<A::T>, DemucsError>,
    y: Result<CpuEngine<A::T>, DemucsError>,
    exact: bool,
)
    requires
        exact ==> same_weights::decodes_once(a),
        same_info(&i, &j),
        cpu_engine::is_loaded(a, m, i, opts, x),
        cpu_engine::is_loaded(a, m, j, opts, y),
    ensures
        x is Ok <==> y is Ok,
        x is Ok ==> same_cpu_engine(x->Ok_0, y->Ok_0, exact),
{
    let selected = engine::selection(&i, opts);
    let n = i.signatures@.len() as int;
    lemma_chosen(&i, &j, selected, n);
    let picked = engine::all_chosen(&i, selected);
    assert forall|k: int| 0 <= k < picked.len() implies 0 <= #[trigger] picked[k] < n by {
        engine::chosen_in_range(&i, selected, n, k);
    }
    let width = engine::transformer_width(i.stems@.len() as int);
    lemma_engine_error(m, &i, &j, picked, width, 0);
    if x is Ok {
        let (e, f) = (x->Ok_0, y->Ok_0);
        assert(e.model_stems@ =~= f.model_stems@);
        assert forall|k: int|
            #![trigger e.models@[k]]
            0 <= k < e.models@.len() implies e.models@[k].sig@ == f.models@[k].sig@
            && same_weights::same_model(e.models@[k].model, f.models@[k].model, exact) by {
            let at = picked[k];
            assert(i.signatures@[at]@ == j.signatures@[at]@);
            let g = f.models@[k];
            same_weights::weights_determine_models(
                a,
                m,
                i.signatures@[at]@,
                e.n_sources,
                width,
                e.models@[k].model,
                f.models@[k].model,
                exact,
            );
        }
    }
}

/// Two engines for the device of which the first is loaded and the second is loaded or not.
proof fn lemma_cuda<A: Arith>(
    a: &A,
    m: loading::Weights,
    i: ModelInfo,
    j: ModelInfo,
    opts: &LoadOptions,
    e: CudaEngine<A::T>,
    y: Result<CudaEngine<A::T>, DemucsError>,
    exact: bool,
)
    requires
        exact ==> same_weights::decodes_once(a),
        same_info(&i, &j),
        cuda_engine::is_loaded(a, m, i, opts, Ok(e)),
        cuda_engine::is_loaded(a, m, j, opts, y),
    ensures
        y is Ok,
        same_cuda_engine(e, y->Ok_0, exact),
{
    let selected = engine::selection(&i, opts);
    let n = i.signatures@.len() as int;
    lemma_chosen(&i, &j, selected, n);
    let picked = engine::all_chosen(&i, selected);
    assert forall|k: int| 0 <= k < picked.len() implies 0 <= #[trigger] picked[k] < n by {
        engine::chosen_in_range(&i, selected, n, k);
    }
    let width = engine::transformer_width(i.stems@.len() as int);
    let sources = i.stems@.len() as usize;
    if y is Err {
        let x = y->Err_0;
        let k = choose|k: int|
            {
                &&& 0 <= k < picked.len()
                &&& cuda_engine::is_model_load_failure(
                    a,
                    m,
                    j.signatures@[#[trigger] picked[k]]@,
                    sources,
                    width,
                    x,
                )
            };
        let at = picked[k];
        let sig = i.signatures@[at]@;
        assert(sig == j.signatures@[at]@);
        let g = e.models@[k].model;
        let l = choose|l: HTDemucs<A::T>|
            {
                &&& #[trigger] loading::is_htdemucs(a, m, sig, sources, width, l)
                &&& gpu_loading::model_error(l) is None
                &&& g.weights@ == gpu_loading::model_arrays(l)
                &&& gpu_loading::is_model_at(g.model, l, 0)
            };
        let q = choose|q: HTDemucs<A::T>|
            {
                &&& #[trigger] loading::is_htdemucs(a, m, sig, sources, width, q)
                &&& gpu_loading::model_error(q) == Some(x->Shape_0@)
            };
        same_weights::weights_determine_models(a, m, sig, sources, width, l, q, false);
        same_weights::same_models_same_error(l, q, false);
    }
    let f = y->Ok_0;
    assert(e.model_stems@ =~= f.model_stems@);
    assert forall|k: int|
        #![trigger e.models@[k]]
        0 <= k < e.models@.len() implies e.models@[k].sig@ == f.models@[k].sig@ && same_cuda_model(
        e.models@[k].model,
        f.models@[k].model,
        exact,
    ) by {
        let at = picked[k];
        let sig = i.signatures@[at]@;
        assert(sig == j.signatures@[at]@);
        let (g, h) = (e.models@[k].model, f.models@[k].model);
        let l = choose|l: HTDemucs<A::T>|
            {
                &&& #[trigger] loading::is_htdemucs(a, m, sig, sources, width, l)
                &&& gpu_loading::model_error(l) is None
                &&& g.weights@ == gpu_loading::model_arrays(l)
                &&& gpu_loading::is_model_at(g.model, l, 0)
            };
        let q = choose|q: HTDemucs<A::T>|
            {
                &&& #[trigger] loading::is_htdemucs(a, m, sig, sources, width, q)
                &&& gpu_loading::model_error(q) is None
                &&& h.weights@ == gpu_loading::model_arrays(q)
                &&& gpu_loading::is_model_at(h.model, q, 0)
            };
        same_weights::weights_determine_models(a, m, sig, sources, width, l, q, exact);
        assert(is_on_device(g, l) && is_on_device(h, q));
    }
}

/// Loading twice from the same bytes, whether they were read from a file or handed over, succeeds
/// or fails alike, and gives the same weights.
pub proof fn loaded_twice<A: Arith>(
    a: &A,
    bytes: Seq<u8>,
    opts: &LoadOptions,
    backend: Backend,
    opened: core::result::Result<(), DemucsError>,
    x: core::result::Result<Demucs<A::T>, DemucsError>,
    y: core::result::Result<Demucs<A::T>, DemucsError>,
    exact: bool,
)
    requires
        exact ==> same_weights::decodes_once(a),
        crate::is_loaded_from(a, bytes, opts, backend, opened, x),
        crate::is_loaded_from(a, bytes, opts, backend, opened, y),
    ensures
        x is Ok <==> y is Ok,
        x is Ok ==> same_demucs(x->Ok_0, y->Ok_0, exact),
{
    if x is Ok {
        lemma_loaded_again(a, bytes, opts, backend, opened, x->Ok_0, y, exact);
    } else if y is Ok {
        lemma_loaded_again(a, bytes, opts, backend, opened, y->Ok_0, x, exact);
    }
}

/// Where loading succeeds once it succeeds again.
proof fn lemma_loaded_again<A: Arith>(
    a: &A,
    bytes: Seq<u8>,
    opts: &LoadOptions,
    backend: Backend,
    opened: core::result::Result<(), DemucsError>,
    d: Demucs<A::T>,
    y: core::result::Result<Demucs<A::T>, DemucsError>,
    exact: bool,
)
    requires
        exact ==> same_weights::decodes_once(a),
        crate::is_loaded_from(a, bytes, opts, backend, opened, Ok(d)),
        crate::is_loaded_from(a, bytes, opts, backend, opened, y),
    ensures
        y is Ok,
        same_demucs(d, y->Ok_0, exact),
{
    let x = Ok::<Demucs<A::T>, DemucsError>(d);
    let m = choose|m: loading::Weights| #[trigger]
        weights::is_store_of(bytes, m) && crate::is_loaded_on(a, m, opts, backend, opened, x);
    let k = choose|k: loading::Weights| #[trigger]
        weights::is_store_of(bytes, k) && crate::is_loaded_on(a, k, opts, backend, opened, y);
    assert(weights::is_store_of(bytes, k));
    weights::bytes_determine_weights(bytes, m, k);
    let on_device = backend::resolved(backend, opened)->Ok_0 is Cuda;
    assert(crate::is_loaded(a, m, opts, on_device, x));
    assert(crate::is_loaded(a, m, opts, on_device, y));
    if on_device {
        let e = d.inner->Cuda_0;
        let i = choose|i: ModelInfo| #[trigger]
            crate::is_info(opts.variant, i) && cuda_engine::is_loaded(a, m, i, opts, Ok(e));
        if y is Ok {
            let f = y->Ok_0.inner->Cuda_0;
            let j = choose|j: ModelInfo| #[trigger]
                crate::is_info(opts.variant, j) && cuda_engine::is_loaded(a, m, j, opts, Ok(f));
            lemma_info(opts.variant, i, j);
            lemma_cuda(a, m, i, j, opts, e, Ok(f), exact);
        } else {
            let f = y->Err_0;
            let j = choose|j: ModelInfo| #[trigger]
                crate::is_info(opts.variant, j) && cuda_engine::is_loaded(a, m, j, opts, Err(f));
            lemma_info(opts.variant, i, j);
            lemma_cuda(a, m, i, j, opts, e, Err(f), exact);
        }
    } else {
        let e = d.inner->Cpu_0;
        let i = choose|i: ModelInfo| #[trigger]
            crate::is_info(opts.variant, i) && cpu_engine::is_loaded(a, m, i, opts, Ok(e));
        if y is Ok {
            let f = y->Ok_0.inner->Cpu_0;
            let j = choose|j: ModelInfo| #[trigger]
                crate::is_info(opts.variant, j) && cpu_engine::is_loaded(a, m, j, opts, Ok(f));
            lemma_info(opts.variant, i, j);
            lemma_cpu(a, m, i, j, opts, Ok(e), Ok(f), exact);
        } else {
            let f = y->Err_0;
            let j = choose|j: ModelInfo| #[trigger]
                crate::is_info(opts.variant, j) && cpu_engine::is_loaded(a, m, j, opts, Err(f));
            lemma_info(opts.variant, i, j);
            lemma_cpu(a, m, i, j, opts, Ok(e), Err(f), exact);
        }
    }
}

} // verus!
