//! The Attribute Translator: a pure function from host filesystem metadata
//! and a node identifier to the protocol's attribute record.
//!
//! The entry kind is classified from the host's flags; numeric fields are
//! narrowed with truncation, never validated. Access and modify times map
//! directly; a change time is synthesized from the host's inode-change
//! seconds; the creation time defaults to the epoch.

use vstd::prelude::*;

verus! {

/// A point in time, as seconds and nanoseconds since the epoch.
#[derive(Clone, Copy, PartialEq, Eq, Structural, Debug)]
pub struct TimeSpec {
    pub secs: u64,
    pub nanos: u32,
}

/// The epoch itself, the default for times the host does not provide.
pub open spec fn epoch() -> TimeSpec {
    TimeSpec { secs: 0, nanos: 0 }
}

/// The protocol's classification of a directory entry.
#[derive(Clone, Copy, PartialEq, Eq, Structural, Debug)]
pub enum FileKind {
    Directory,
    Symlink,
    RegularFile,
}

/// What host metadata flags classify an entry as: a directory when the
/// directory flag is set, else a symlink when the symlink flag is set, else a
/// regular file.
pub open spec fn kind_spec(is_dir: bool, is_symlink: bool) -> FileKind {
    if is_dir {
        FileKind::Directory
    } else if is_symlink {
        FileKind::Symlink
    } else {
        FileKind::RegularFile
    }
}

/// Classifies an entry from its host metadata flags.
pub fn classify(is_dir: bool, is_symlink: bool) -> (k: FileKind)
    ensures
        k == kind_spec(is_dir, is_symlink),
{
    if is_dir {
        FileKind::Directory
    } else if is_symlink {
        FileKind::Symlink
    } else {
        FileKind::RegularFile
    }
}

/// Host filesystem metadata, as the plain values the translator reads.
#[derive(Clone, Copy, PartialEq, Eq, Structural, Debug)]
pub struct HostMetadata {
    pub is_dir: bool,
    pub is_symlink: bool,
    pub size: u64,
    pub blocks: u64,
    pub atime: TimeSpec,
    pub mtime: TimeSpec,
    pub ctime_secs: i64,
    pub mode: u32,
    pub nlink: u64,
    pub uid: u32,
    pub gid: u32,
    pub rdev: u64,
    pub blksize: u64,
}

/// The protocol's attribute record for one entry.
#[derive(Clone, Copy, PartialEq, Eq, Structural, Debug)]
pub struct Attributes {
    pub ino: u64,
    pub size: u64,
    pub blocks: u64,
    pub atime: TimeSpec,
    pub mtime: TimeSpec,
    pub ctime: TimeSpec,
    pub crtime: TimeSpec,
    pub kind: FileKind,
    pub perm: u16,
    pub nlink: u32,
    pub uid: u32,
    pub gid: u32,
    pub rdev: u32,
    pub blksize: u32,
    pub flags: u32,
}

/// The attribute record that host metadata translates to under a given node
/// identifier: sizes and owners copied, the kind classified from the flags,
/// the permission word cut to the low twelve mode bits, link count, device
/// number and block size narrowed with truncation, the change time
/// synthesized from the host's inode-change seconds, and the creation time
/// defaulted to the epoch.
pub open spec fn attr_spec(meta: HostMetadata, ino: u64) -> Attributes {
    Attributes {
        ino,
        size: meta.size,
        blocks: meta.blocks,
        atime: meta.atime,
        mtime: meta.mtime,
        ctime: TimeSpec { secs: meta.ctime_secs as u64, nanos: 0 },
        crtime: epoch(),
        kind: kind_spec(meta.is_dir, meta.is_symlink),
        perm: (meta.mode & 0o7777) as u16,
        nlink: meta.nlink as u32,
        uid: meta.uid,
        gid: meta.gid,
        rdev: meta.rdev as u32,
        blksize: meta.blksize as u32,
        flags: 0,
    }
}

/// Translates host metadata into the protocol attribute record for the entry
/// with node identifier `ino`.
pub fn translate(meta: &HostMetadata, ino: u64) -> (a: Attributes)
    ensures
        a == attr_spec(*meta, ino),
{
    let mode = meta.mode;
    proof {
        assert((mode & 0o7777) <= 0o7777) by (bit_vector);
    }
    Attributes {
        ino,
        size: meta.size,
        blocks: meta.blocks,
        atime: meta.atime,
        mtime: meta.mtime,
        ctime: TimeSpec { secs: #[verifier::truncate] (meta.ctime_secs as u64), nanos: 0 },
        crtime: TimeSpec { secs: 0, nanos: 0 },
        kind: classify(meta.is_dir, meta.is_symlink),
        perm: (mode & 0o7777) as u16,
        nlink: #[verifier::truncate] (meta.nlink as u32),
        uid: meta.uid,
        gid: meta.gid,
        rdev: #[verifier::truncate] (meta.rdev as u32),
        blksize: #[verifier::truncate] (meta.blksize as u32),
        flags: 0,
    }
}

} // verus!
