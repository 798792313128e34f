use vstd::prelude::*;
use crate::arith::Arith;
use crate::backend::ResolvedBackend;
use crate::cpu_engine::CpuEngine;
use crate::cuda_engine::CudaEngine;
use crate::cuda_engine::CudaModel;
use crate::cuda_engine::Device;
use crate::engine::Engine;
use crate::model::HTDemucs;
use crate::weights::WeightStore;

pub mod arith;
pub mod backend;
pub mod catalogue_laws;
pub mod chunk;
pub mod cli;
pub mod cli_laws;
pub mod cpu_engine;
pub mod cuda_engine;
pub mod cuda_ops;
pub mod dsp;
pub mod engine;
pub mod engine_laws;
pub mod error;
pub mod exact;
pub mod file_header;
pub mod gpu_loading;
pub mod gpu_model;
pub mod gpu_tensor;
pub mod index;
pub mod json;
pub mod json_laws;
pub mod launch;
pub mod launch_laws;
pub mod loading;
pub mod loading_laws;
pub mod meaning;
pub mod metadata;
pub mod model;
pub mod ops_cpu;
pub mod overlap_laws;
pub mod program;
pub mod raw_tensor;
pub mod same_programs;
pub mod same_results;
pub mod same_weights;
pub mod separating_laws;
pub mod signal_laws;
pub mod text;
pub mod text_laws;
pub mod weight_names;
pub mod weights;

pub use backend::Backend;
pub use chunk::num_chunks;
pub use error::DemucsError;
pub use error::Result;
pub use metadata::ModelInfo;
pub use metadata::StemId;

verus! {

pub const AUDIO_CHANNELS: usize = 2;

pub const N_FFT: usize = 4096;

pub const HOP_LENGTH: usize = 1024;

pub const CHANNELS: usize = 48;

pub const GROWTH: usize = 2;

pub const DEPTH: u32 = 4;

pub const KERNEL_SIZE: usize = 8;

pub const STRIDE: usize = 4;

pub const T_LAYERS: usize = 5;

pub const T_HEADS: usize = 8;

pub const DCONV_COMP: usize = 8;

pub const DCONV_DEPTH: usize = 2;

pub const SAMPLE_RATE: usize = 44100;

/// Length in samples of the segments that the network works on: 39/5 seconds.
pub const TRAINING_LENGTH: usize = 343980;

/// One separated stem, as stereo audio.
pub struct Stem<T> {
    pub id: StemId,
    pub left: Vec<T>,
    pub right: Vec<T>,
}

/// Which model to use.
#[derive(Debug, Clone, Copy, PartialEq, Eq, Structural)]
pub enum ModelVariant {
    /// One model, four stems.
    FourStem,
    /// One model, six stems.
    SixStem,
    /// Four models, each tuned for one of four stems.
    FineTuned,
}

/// `r` is what is known of the model.
pub open spec fn is_info(v: ModelVariant, r: ModelInfo) -> bool {
    match v {
        ModelVariant::FourStem => metadata::is_htdemucs(&r),
        ModelVariant::SixStem => metadata::is_htdemucs_6s(&r),
        ModelVariant::FineTuned => metadata::is_htdemucs_ft(&r),
    }
}

impl ModelVariant {
    /// What is known of the model.
    pub fn info(&self) -> (r: ModelInfo)
        ensures
            metadata::info_ok(&r),
            is_info(*self, r),
    {
        match self {
            ModelVariant::FourStem => ModelInfo::htdemucs(),
            ModelVariant::SixStem => ModelInfo::htdemucs_6s(),
            ModelVariant::FineTuned => ModelInfo::htdemucs_ft(),
        }
    }
}

/// Which stems to give.
pub enum StemSelection {
    /// All that the model has.
    All,
    /// Those listed.
    Only(Vec<StemId>),
}

/// What to load.
pub struct LoadOptions {
    pub variant: ModelVariant,
    pub stems: StemSelection,
}

/// A loaded model, ready to separate audio.
pub struct Demucs<T> {
    pub inner: DemucsInner<T>,
}

/// The engine, by the device that it computes on.
pub enum DemucsInner<T> {
    Cuda(CudaEngine<T>),
    Cpu(CpuEngine<T>),
}

/// The engine is ready.
pub open spec fn demucs_ok<T>(d: &Demucs<T>) -> bool {
    match d.inner {
        DemucsInner::Cuda(e) => engine::engine_ok(&e),
        DemucsInner::Cpu(e) => engine::engine_ok(&e),
    }
}

/// `r` is the outcome of loading a model from the weights `m`, for the processor or for the
/// graphics device.
pub open spec fn is_loaded<A: Arith>(
    a: &A,
    m: loading::Weights,
    opts: &LoadOptions,
    on_device: bool,
    r: core::result::Result<Demucs<A::T>, DemucsError>,
) -> bool {
    exists|info: ModelInfo|
        {
            &&& #[trigger] is_info(opts.variant, info)
            &&& match r {
                Ok(d) => match d.inner {
                    DemucsInner::Cuda(e) => on_device && cuda_engine::is_loaded(
                        a,
                        m,
                        info,
                        opts,
                        Ok(e),
                    ),
                    DemucsInner::Cpu(e) => !on_device && cpu_engine::is_loaded(
                        a,
                        m,
                        info,
                        opts,
                        Ok(e),
                    ),
                },
                Err(x) => if on_device {
                    cuda_engine::is_loaded(a, m, info, opts, Err(x))
                } else {
                    cpu_engine::is_loaded(a, m, info, opts, Err(x))
                },
            }
        }
}

/// `r` is the outcome of loading a model from the weights `m`, once it is settled what to
/// compute on.
pub open spec fn is_loaded_on<A: Arith>(
    a: &A,
    m: loading::Weights,
    opts: &LoadOptions,
    backend: Backend,
    opened: core::result::Result<(), DemucsError>,
    r: core::result::Result<Demucs<A::T>, DemucsError>,
) -> bool {
    match backend::resolved(backend, opened) {
        Ok(ResolvedBackend::Cpu) => is_loaded(a, m, opts, false, r),
        Ok(ResolvedBackend::Cuda(_)) => is_loaded(a, m, opts, true, r),
        Err(x) => r == Err::<Demucs<A::T>, DemucsError>(x),
    }
}

/// `r` is the result of [`Demucs::from_bytes`].
pub open spec fn is_loaded_from<A: Arith>(
    a: &A,
    bytes: Seq<u8>,
    opts: &LoadOptions,
    backend: Backend,
    opened: core::result::Result<(), DemucsError>,
    r: core::result::Result<Demucs<A::T>, DemucsError>,
) -> bool {
    ||| r is Err && weights::is_no_store(bytes, r->Err_0)
    ||| exists|m: loading::Weights| #[trigger]
        weights::is_store_of(bytes, m) && is_loaded_on(a, m, opts, backend, opened, r)
}

/// `r` is the result of [`Demucs::separate`].
pub open spec fn is_separation<D: Device>(
    d: &D,
    m: &Demucs<D::T>,
    left: Seq<D::T>,
    right: Seq<D::T>,
    rate: u32,
    r: core::result::Result<Vec<Stem<D::T>>, DemucsError>,
) -> bool {
    match m.inner {
        DemucsInner::Cuda(e) => match r {
            Ok(v) => engine::is_separated(d, &e, left, right, rate, v@),
            Err(x) => engine::is_separate_failure(d, &e, left, right, rate, x),
        },
        DemucsInner::Cpu(e) => match r {
            Ok(v) => engine::is_separated(d, &e, left, right, rate, v@),
            Err(x) => engine::is_separate_failure(d, &e, left, right, rate, x),
        },
    }
}

impl<T: Copy> Demucs<T> {
    /// Loads a model from a file. `contents` is what came of reading it, `opened` what came of
    /// opening the graphics device. The result is that of [`Demucs::from_bytes`] on what was
    /// read.
    pub fn load<A: Arith<T = T>>(
        a: &A,
        contents: core::result::Result<Vec<u8>, DemucsError>,
        opts: LoadOptions,
        backend: Backend,
        opened: core::result::Result<(), DemucsError>,
    ) -> (r: core::result::Result<Demucs<T>, DemucsError>)
        ensures
            match contents {
                Err(x) => r == Err::<Demucs<T>, DemucsError>(x),
                Ok(bytes) => is_loaded_from(a, bytes@, &opts, backend, opened, r),
            },
            r is Ok ==> demucs_ok(&r->Ok_0),
    {
        match contents {
            Ok(bytes) => Demucs::from_bytes(a, &bytes, opts, backend, opened),
            Err(x) => Err(x),
        }
    }

    /// Loads a model from the bytes of a file. `opened` is what came of opening the graphics
    /// device.
    pub fn from_bytes<A: Arith<T = T>>(
        a: &A,
        bytes: &[u8],
        opts: LoadOptions,
        backend: Backend,
        opened: core::result::Result<(), DemucsError>,
    ) -> (r: core::result::Result<Demucs<T>, DemucsError>)
        ensures
            is_loaded_from(a, bytes@, &opts, backend, opened, r),
            r is Ok ==> demucs_ok(&r->Ok_0),
    {
        match WeightStore::from_bytes(bytes) {
            Ok(store) => {
                let ghost m = store@;
                Demucs::from_weights(a, store, opts, backend, opened)
            },
            Err(x) => Err(x),
        }
    }

    /// Loads a model from weights.
    pub fn from_weights<A: Arith<T = T>>(
        a: &A,
        weights: WeightStore,
        opts: LoadOptions,
        backend: Backend,
        opened: core::result::Result<(), DemucsError>,
    ) -> (r: core::result::Result<Demucs<T>, DemucsError>)
        ensures
            is_loaded_on(a, weights@, &opts, backend, opened, r),
            r is Ok ==> demucs_ok(&r->Ok_0),
    {
        let resolved: ResolvedBackend<()> = match backend.resolve(opened) {
            Ok(b) => b,
            Err(x) => {
                return Err(x);
            },
        };
        let info: ModelInfo = opts.variant.info();
        let ghost known = info;
        match resolved {
            ResolvedBackend::Cuda(_) => {
                match Engine::<CudaModel<T>>::load(a, &weights, info, &opts) {
                    Ok(e) => Ok(Demucs { inner: DemucsInner::Cuda(e) }),
                    Err(x) => {
                        assert(is_info(opts.variant, known));
                        Err(x)
                    },
                }
            },
            ResolvedBackend::Cpu => {
                match Engine::<HTDemucs<T>>::load(a, &weights, info, &opts) {
                    Ok(e) => Ok(Demucs { inner: DemucsInner::Cpu(e) }),
                    Err(x) => {
                        assert(is_info(opts.variant, known));
                        Err(x)
                    },
                }
            },
        }
    }

    /// Separates stereo audio into the stems that were asked for.
    pub fn separate<D: Device<T = T>>(&self, d: &D, left: &[T], right: &[T], sample_rate: u32) -> (r: core::result::Result<
        Vec<Stem<T>>,
        DemucsError,
    >)
        requires
            demucs_ok(self),
            sample_rate == SAMPLE_RATE ==> engine::channels_ok(
                left@.len() as int,
                right@.len() as int,
            ),
        ensures
            is_separation(d, self, left@, right@, sample_rate, r),
            r is Ok && sample_rate == SAMPLE_RATE ==> engine::all_of_length(
                r->Ok_0@,
                left@.len() as int,
            ),
    {
        match &self.inner {
            DemucsInner::Cuda(e) => e.separate(d, left, right, sample_rate),
            DemucsInner::Cpu(e) => e.separate(d, left, right, sample_rate),
        }
    }
}

} // verus!
