use vstd::prelude::*;

verus! {

/// Why an acquisition of the tool binary failed.
#[derive(Debug, Clone, Copy, PartialEq, Eq, Structural)]
pub enum AcquireError {
    DirectoryRead,
    NetworkFetch,
    ArchiveFormat,
    PayloadNotFound,
    BinaryNotFound,
    PermissionSet,
    SubprocessSpawn,
}

} // verus!
