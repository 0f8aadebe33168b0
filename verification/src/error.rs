//! Errors of the operating-system layer.
use vstd::prelude::*;

verus! {

/// Platform-level error of the OS abstractions.
#[derive(Debug, Clone, PartialEq, Eq)]
pub enum PlatformError {
    /// Creating the named shared memory segment failed.
    SharedMemoryCreate { name: String, reason: String },
    /// Opening the named shared memory segment failed.
    SharedMemoryOpen { name: String, reason: String },
    /// Unlinking the named shared memory segment failed.
    SharedMemoryUnlink { name: String, reason: String },
    /// Mapping memory failed.
    Mmap { reason: String },
    /// A file lock operation failed.
    FileLock { reason: String },
    /// An event notification operation failed.
    Event { reason: String },
    /// Installing a signal handler failed.
    Signal { reason: String },
    /// A process monitor operation failed.
    ProcessMonitor { reason: String },
}

} // verus!
