//! Selection of the device to compute on.
use vstd::prelude::*;
use crate::error::DemucsError;

verus! {

/// What to compute on.
#[non_exhaustive]
#[derive(Debug, Clone, Copy, PartialEq, Eq, Structural)]
pub enum Backend {
    /// The graphics device where there is one, else the processor.
    Auto,
    /// The processor.
    Cpu,
    /// The first graphics device.
    Cuda,
}

/// The device that was chosen, with the state of the graphics device where it is that.
pub enum ResolvedBackend<S> {
    Cpu,
    Cuda(S),
}

/// The short name of a selection.
pub open spec fn tag_text(b: Backend) -> Seq<char> {
    match b {
        Backend::Auto => "auto"@,
        Backend::Cpu => "cpu"@,
        Backend::Cuda => "cuda:0"@,
    }
}

/// The device to compute on, where opening the graphics device gave `opened`.
pub open spec fn resolved<S>(b: Backend, opened: Result<S, DemucsError>) -> Result<
    ResolvedBackend<S>,
    DemucsError,
> {
    match b {
        Backend::Cpu => Ok(ResolvedBackend::Cpu),
        Backend::Cuda => match opened {
            Ok(s) => Ok(ResolvedBackend::Cuda(s)),
            Err(e) => Err(e),
        },
        Backend::Auto => match opened {
            Ok(s) => Ok(ResolvedBackend::Cuda(s)),
            Err(_) => Ok(ResolvedBackend::Cpu),
        },
    }
}

impl Backend {
    /// Whether the graphics device has to be opened to resolve the selection.
    pub fn wants_device(&self) -> (r: bool)
        ensures
            r == !(*self is Cpu),
    {
        match self {
            Backend::Cpu => false,
            _ => true,
        }
    }

    /// The device to compute on. `opened` is what came of opening the graphics device: its
    /// state, or why it cannot be used.
    pub fn resolve<S>(self, opened: Result<S, DemucsError>) -> (r: Result<
        ResolvedBackend<S>,
        DemucsError,
    >)
        ensures
            r == resolved(self, opened),
    {
        match self {
            Backend::Cpu => Ok(ResolvedBackend::Cpu),
            Backend::Cuda => {
                match opened {
                    Ok(s) => Ok(ResolvedBackend::Cuda(s)),
                    Err(e) => Err(e),
                }
            },
            Backend::Auto => {
                match opened {
                    Ok(s) => Ok(ResolvedBackend::Cuda(s)),
                    Err(_) => Ok(ResolvedBackend::Cpu),
                }
            },
        }
    }

    /// A short name for messages.
    pub fn tag(&self) -> (r: &'static str)
        ensures
            r@ == tag_text(*self),
    {
        match self {
            Backend::Auto => "auto",
            Backend::Cpu => "cpu",
            Backend::Cuda => "cuda:0",
        }
    }
}

/// Left to itself the choice always comes to a device: the processor where the graphics device
/// cannot be used.
pub proof fn automatic_choice_never_fails<S>(opened: Result<S, DemucsError>)
    ensures
        resolved(Backend::Auto, opened) is Ok,
        opened is Err ==> resolved(Backend::Auto, opened)->Ok_0 is Cpu,
        opened is Ok ==> resolved(Backend::Auto, opened)->Ok_0 is Cuda,
{
}

/// Where the processor is asked for, the graphics device plays no part.
pub proof fn processor_needs_no_device<S>(
    opened: Result<S, DemucsError>,
    other: Result<S, DemucsError>,
)
    ensures
        resolved(Backend::Cpu, opened) == resolved(Backend::Cpu, other),
{
}

/// The graphics device is the one that was opened; where it is asked for and cannot be opened, the
/// reason is given. The processor is taken where it is asked for.
pub proof fn device_is_taken_as_opened<S>(b: Backend, opened: Result<S, DemucsError>)
    ensures
        b is Cpu ==> resolved(b, opened) == Ok::<_, DemucsError>(ResolvedBackend::<S>::Cpu),
        !(b is Cpu) && opened is Ok ==> resolved(b, opened) is Ok && resolved(b, opened)->Ok_0
            == ResolvedBackend::Cuda(opened->Ok_0),
        b is Cuda && opened is Err ==> resolved(b, opened) is Err && resolved(b, opened)->Err_0
            == opened->Err_0,
{
}

} // verus!
