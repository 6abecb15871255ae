//! Error taxonomy: I/O failures (carrying the OS error code), protocol and
//! decode failures, and invariant violations.

use vstd::prelude::*;

verus! {

/// Everything that can go wrong in the watcher, the server, and the
/// components around them. I/O variants carry the OS error code reported by
/// the failing call.
#[derive(Clone, Copy, PartialEq, Eq, Structural, Debug)]
pub enum Error {
    /// A read, write, or other socket or file operation failed.
    Io(i32),
    /// The change-notification facility could not be initialized.
    InotifyInit(i32),
    /// A directory watch could not be registered.
    InotifyWatch(i32),
    /// Reading change-notification records failed.
    InotifyRead(i32),
    /// A notification record's declared length overruns the read buffer.
    TruncatedRecord,
    /// A notification names a watch descriptor that no registration tracked:
    /// an invariant violation, not a retryable failure.
    UnmappedWatch,
    /// A composed path does not fit the fixed-capacity path buffer.
    PathOverflow,
}

} // verus!
