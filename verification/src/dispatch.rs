//! The Operation Dispatcher's per-request logic: resolving identifiers to
//! paths, registering entries after a host call succeeds, planning attribute
//! changes, bounding read replies, and the fixed statistics reply.
//!
//! Each request is a self-contained transaction: a mount layer resolves with
//! these functions, performs the host call, and commits the outcome to the
//! tables with them.

use vstd::prelude::*;

use crate::attrs::{attr_spec, translate, Attributes, HostMetadata};
use crate::errors::FsError;
use crate::identity::{has_path, IdentityTable};
use crate::path::{join, join_spec};

verus! {

/// Resolves a parent identifier and joins a child's name onto its path: the
/// relative path the child's host calls address. Fails with `NotFound`
/// exactly when the parent identifier is unknown.
pub fn child_path(t: &IdentityTable, parent: u64, name: &Vec<u8>) -> (r: Result<Vec<u8>, FsError>)
    requires
        t.wf(),
    ensures
        match r {
            Ok(p) => t@.contains_key(parent) && p@ == join_spec(t@[parent], name@),
            Err(e) => e == FsError::NotFound && !t@.contains_key(parent),
        },
{
    match t.resolve(parent) {
        Some(parent_path) => Ok(join(&parent_path, name)),
        None => Err(FsError::NotFound),
    }
}

/// Resolves both parents of a rename and joins the old and new names onto
/// them. Fails with `NotFound` exactly when either parent is unknown.
pub fn rename_paths(
    t: &IdentityTable,
    parent: u64,
    name: &Vec<u8>,
    newparent: u64,
    newname: &Vec<u8>,
) -> (r: Result<(Vec<u8>, Vec<u8>), FsError>)
    requires
        t.wf(),
    ensures
        match r {
            Ok(paths) => {
                &&& t@.contains_key(parent)
                &&& t@.contains_key(newparent)
                &&& paths.0@ == join_spec(t@[parent], name@)
                &&& paths.1@ == join_spec(t@[newparent], newname@)
            },
            Err(e) => e == FsError::NotFound && !(t@.contains_key(parent) && t@.contains_key(
                newparent,
            )),
        },
{
    let old_parent_path = match t.resolve(parent) {
        Some(p) => p,
        None => {
            return Err(FsError::NotFound);
        },
    };
    let new_parent_path = match t.resolve(newparent) {
        Some(p) => p,
        None => {
            return Err(FsError::NotFound);
        },
    };
    Ok((join(&old_parent_path, name), join(&new_parent_path, newname)))
}

/// Commits a successful host call on `path`: interns the path, idempotently,
/// and translates the host metadata the call returned into the attribute
/// record for the interned identifier.
pub fn register_entry(t: &mut IdentityTable, path: &Vec<u8>, meta: &HostMetadata) -> (r: (
    u64,
    Attributes,
))
    requires
        old(t).wf(),
        old(t).can_allocate(),
    ensures
        final(t).wf(),
        final(t)@.contains_key(r.0),
        final(t)@[r.0] == path@,
        r.1 == attr_spec(*meta, r.0),
        has_path(old(t)@, path@) ==> final(t)@ == old(t)@,
        !has_path(old(t)@, path@) ==> !old(t)@.contains_key(r.0) && final(t)@ == old(t)@.insert(
            r.0,
            path@,
        ),
{
    let id = t.intern(path);
    let a = translate(meta, id);
    (id, a)
}

/// Bounds a read reply to the requested size: what the host read is handed
/// back whole when it fits, and cut to the first `size` bytes otherwise, so
/// a read request never returns more bytes than it asked for.
pub fn read_reply(data: Vec<u8>, size: u32) -> (r: Vec<u8>)
    ensures
        r@.len() <= size,
        data@.len() <= size ==> r@ == data@,
        data@.len() > size ==> r@ == data@.subrange(0, size as int),
{
    let mut r = data;
    if r.len() > size as usize {
        r.truncate(size as usize);
    }
    r
}

/// The attribute changes one request asks for, each an independent
/// best-effort sub-step.
#[derive(Clone, Copy, PartialEq, Eq, Structural, Debug)]
pub struct SetattrPlan {
    pub do_truncate: bool,
    pub new_size: u64,
    pub do_chmod: bool,
    pub new_mode: u32,
    pub do_chown: bool,
    pub chown_uid: u32,
    pub chown_gid: u32,
}

/// Plans an attribute-change request: truncate when a size is given, change
/// the mode when one is given, and change ownership when an owner or group
/// is given, an absent owner or group passed through as the no-change value.
pub fn setattr_plan(mode: Option<u32>, uid: Option<u32>, gid: Option<u32>, size: Option<u64>) -> (r:
    SetattrPlan)
    ensures
        r.do_truncate == size is Some,
        size is Some ==> r.new_size == size->0,
        r.do_chmod == mode is Some,
        mode is Some ==> r.new_mode == mode->0,
        r.do_chown == (uid is Some || gid is Some),
        r.chown_uid == if uid is Some {
            uid->0
        } else {
            u32::MAX
        },
        r.chown_gid == if gid is Some {
            gid->0
        } else {
            u32::MAX
        },
{
    SetattrPlan {
        do_truncate: size.is_some(),
        new_size: match size {
            Some(s) => s,
            None => 0,
        },
        do_chmod: mode.is_some(),
        new_mode: match mode {
            Some(m) => m,
            None => 0,
        },
        do_chown: uid.is_some() || gid.is_some(),
        chown_uid: match uid {
            Some(u) => u,
            None => u32::MAX,
        },
        chown_gid: match gid {
            Some(g) => g,
            None => u32::MAX,
        },
    }
}

/// The fixed, non-informative statistics reply.
#[derive(Clone, Copy, PartialEq, Eq, Structural, Debug)]
pub struct StatfsReply {
    pub blocks: u64,
    pub bfree: u64,
    pub bavail: u64,
    pub files: u64,
    pub ffree: u64,
    pub bsize: u32,
    pub namelen: u32,
    pub frsize: u32,
}

/// The statistics every request is answered with: no real statistics are
/// gathered; only a block size of 512 and a name length limit of 255 are
/// reported.
pub fn statfs_reply() -> (r: StatfsReply)
    ensures
        r == (StatfsReply {
            blocks: 0,
            bfree: 0,
            bavail: 0,
            files: 0,
            ffree: 0,
            bsize: 512,
            namelen: 255,
            frsize: 0,
        }),
{
    StatfsReply {
        blocks: 0,
        bfree: 0,
        bavail: 0,
        files: 0,
        ffree: 0,
        bsize: 512,
        namelen: 255,
        frsize: 0,
    }
}

} // verus!
