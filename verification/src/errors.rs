//! The error taxonomy surfaced to the calling process, and the collapsing of
//! host-call failures onto it: directory creation failures surface as
//! `AlreadyExists`, symlink creation failures as `Unsupported`, and every
//! other failure — an unknown identifier or handle as much as a failed host
//! call — as `NotFound`.

use vstd::prelude::*;

verus! {

/// The errors a request can be answered with.
#[derive(Clone, Copy, PartialEq, Eq, Structural, Debug)]
pub enum FsError {
    /// Resolution of an identifier or handle failed, or a host call failed.
    NotFound,
    /// Directory creation where the target already exists.
    AlreadyExists,
    /// Symlink creation failure.
    Unsupported,
}

/// The operations whose host-call failures are collapsed onto the taxonomy.
#[derive(Clone, Copy, PartialEq, Eq, Structural, Debug)]
pub enum FsOp {
    Lookup,
    Getattr,
    Setattr,
    Read,
    Write,
    Readdir,
    Open,
    Create,
    Mkdir,
    Unlink,
    Rmdir,
    Rename,
    Readlink,
    Symlink,
    Access,
}

/// The error that a failed host call surfaces as for each operation.
pub open spec fn failure_spec(op: FsOp) -> FsError {
    match op {
        FsOp::Mkdir => FsError::AlreadyExists,
        FsOp::Symlink => FsError::Unsupported,
        _ => FsError::NotFound,
    }
}

/// Maps a failed host call to the error its operation replies with.
pub fn host_failure_error(op: FsOp) -> (e: FsError)
    ensures
        e == failure_spec(op),
{
    match op {
        FsOp::Mkdir => FsError::AlreadyExists,
        FsOp::Symlink => FsError::Unsupported,
        _ => FsError::NotFound,
    }
}

impl FsError {
    /// The POSIX error number of each taxonomy member: `ENOENT` for
    /// `NotFound`, `EEXIST` for `AlreadyExists`, `ENOSYS` for `Unsupported`.
    pub fn errno(&self) -> (e: i32)
        ensures
            e == match self {
                FsError::NotFound => 2int,
                FsError::AlreadyExists => 17int,
                FsError::Unsupported => 38int,
            },
    {
        match self {
            FsError::NotFound => 2,
            FsError::AlreadyExists => 17,
            FsError::Unsupported => 38,
        }
    }
}

} // verus!
