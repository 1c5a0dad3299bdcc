use vstd::prelude::*;

verus! {

/// The failure kinds that transport operations report.
///
/// Overflow outcomes under the drop policies are not errors: they are
/// policy-defined non-errors, observable only through the counters.
#[derive(Clone, Copy, Debug, PartialEq, Eq, Structural)]
pub enum TransportError {
    /// An unknown channel, session, or queue was referenced by id.
    NotFound,
    /// The channel count, queue depth, payload size, or id space is exhausted.
    CapacityExceeded,
    /// An unrecognized channel kind or backpressure-policy name was supplied.
    InvalidArgument,
    /// A registry was left in an inconsistent state by a prior abnormal exit.
    StateCorruption,
    /// The operation was attempted while the engine or session is not connected.
    Disconnected,
    /// A blocking send exceeded its wait budget.
    Timeout,
}

/// The failure kinds of the audio-capture collaborator.
#[derive(Clone, Debug)]
pub enum AudioError {
    /// The capture device could not be opened or used.
    DeviceError(String),
    /// The chunk ring buffer is full.
    BufferOverflow,
    /// The sample format is not usable.
    InvalidFormat,
}

} // verus!
