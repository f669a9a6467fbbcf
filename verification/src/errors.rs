use vstd::prelude::*;

verus! {

/// Every failure the library can report. All of them are fatal at the point
/// of occurrence: nothing in the library retries.
#[derive(Clone, Copy, Debug, PartialEq, Eq, Structural)]
pub enum RdmaError {
    /// No adapter matched the requested device name, or none was present.
    DeviceNotFound,
    /// An adapter resource (context, protection domain, completion queue,
    /// memory region, queue pair) could not be allocated.
    ResourceAllocationFailure,
    /// The driver refused a queue-pair state change; carries its return code.
    QpModifyError(i32),
    /// The side-channel exchange of connection descriptors failed.
    BootstrapIoError,
    /// The driver refused a posted work request; carries its return code.
    PostError(i32),
    /// A completion was observed with a non-success status.
    CompletionError { status: u32, vendor_syndrome: u32 },
    /// A message does not fit the buffer, or bytes do not form a message.
    EncodingError,
    /// A queue-pair step or bootstrap step was requested out of order.
    InvalidTransition,
}

} // verus!
