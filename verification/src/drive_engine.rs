//! The rules of the mounted drive's file operations: when cached metadata
//! may be used, which files are staged for writing, when a flush uploads,
//! what may be deleted, and how creates and renames treat an existing
//! target.
use vstd::prelude::*;
use crate::path::RemotePath;
use crate::storage::{RemoteMetadata, StorageError};
use crate::winfsp::WinFspFilesystemError;

verus! {

/// How long listed or fetched metadata stays usable: five seconds, in
/// nanoseconds.
pub const METADATA_CACHE_TTL_NANOS: u128 = 5_000_000_000;

/// Whether cached metadata of age `age_nanos` may answer a lookup: it must
/// be fresh, and a file's size must be known.
pub fn metadata_cache_usable(age_nanos: u128, metadata: &RemoteMetadata) -> (r: bool)
    ensures
        r == (age_nanos < METADATA_CACHE_TTL_NANOS && (metadata.is_directory || metadata.size_bytes is Some)),
{
    age_nanos < METADATA_CACHE_TTL_NANOS && (metadata.is_directory || metadata.size_bytes.is_some())
}

/// Whether a cached listing of age `age_nanos` may answer a lookup.
pub fn listing_cache_usable(age_nanos: u128) -> (r: bool)
    ensures
        r == (age_nanos < METADATA_CACHE_TTL_NANOS),
{
    age_nanos < METADATA_CACHE_TTL_NANOS
}

/// Whether opening a file stages a local copy for writing: only files, and
/// only when opened for writing.
pub fn stages_on_open(writable: bool, is_directory: bool) -> (r: bool)
    ensures
        r == (writable && !is_directory),
{
    writable && !is_directory
}

/// What a flush does.
#[derive(Debug, Clone, Copy, PartialEq, Eq, Structural)]
pub enum FlushAction {
    /// Nothing to upload: answer with the remote metadata.
    Stat,
    /// Upload the staged copy.
    Upload,
}

/// Decides a flush: only a file with a staged copy that was changed is
/// uploaded.
pub fn flush_action(is_directory: bool, staged: bool, dirty: bool) -> (a: FlushAction)
    ensures
        a == if !is_directory && staged && dirty { FlushAction::Upload } else { FlushAction::Stat },
{
    if is_directory || !staged || !dirty {
        FlushAction::Stat
    } else {
        FlushAction::Upload
    }
}

/// Checks that a handle may take writes: it must have a staged copy.
pub fn ensure_writable(staged: bool, path: &RemotePath) -> (r: Result<(), WinFspFilesystemError>)
    ensures
        staged ==> r is Ok,
        !staged ==> (r matches Err(WinFspFilesystemError::NotWritable(p)) && p@ == path@),
{
    if staged {
        Ok(())
    } else {
        Err(WinFspFilesystemError::NotWritable(path.duplicate()))
    }
}

/// Checks that an item may be deleted: a directory must be empty.
pub fn can_delete(is_directory: bool, listing_empty: bool, path: &RemotePath) -> (r: Result<(), WinFspFilesystemError>)
    ensures
        !is_directory || listing_empty ==> r is Ok,
        is_directory && !listing_empty ==> (r matches Err(WinFspFilesystemError::DirectoryNotEmpty(p)) && p@ == path@),
{
    if is_directory && !listing_empty {
        Err(WinFspFilesystemError::DirectoryNotEmpty(path.duplicate()))
    } else {
        Ok(())
    }
}

/// Checks that nothing exists where an item is to be created, from what a
/// lookup of the path gave: only "not found" lets the create go on.
pub fn ensure_missing(lookup: Result<RemoteMetadata, WinFspFilesystemError>, path: &RemotePath) -> (r: Result<(), WinFspFilesystemError>)
    ensures
        match lookup {
            Ok(_) => r matches Err(WinFspFilesystemError::AlreadyExists(p)) && p@ == path@,
            Err(WinFspFilesystemError::Storage(StorageError::NotFound { .. })) => r is Ok,
            Err(e) => r == Err::<(), WinFspFilesystemError>(e),
        },
{
    match lookup {
        Ok(_) => Err(WinFspFilesystemError::AlreadyExists(path.duplicate())),
        Err(WinFspFilesystemError::Storage(StorageError::NotFound { path: missing })) => Ok(()),
        Err(e) => Err(e),
    }
}

/// How a rename is carried out.
#[derive(Debug, Clone, Copy, PartialEq, Eq, Structural)]
pub enum RenameKind {
    /// The destination is free: move the item.
    Move,
    /// The destination is a file the caller asked to replace.
    Replace,
}

/// Decides a rename from what a lookup of the destination gave: a free
/// destination is a move; an existing file is replaced only when asked;
/// an existing directory is never replaced.
pub fn rename_kind(lookup: Result<RemoteMetadata, WinFspFilesystemError>, replace_if_exists: bool, destination: &RemotePath) -> (r: Result<RenameKind, WinFspFilesystemError>)
    ensures
        match lookup {
            Ok(m) => if !replace_if_exists || m.is_directory {
                r matches Err(WinFspFilesystemError::AlreadyExists(p)) && p@ == destination@
            } else {
                r == Ok::<RenameKind, WinFspFilesystemError>(RenameKind::Replace)
            },
            Err(WinFspFilesystemError::Storage(StorageError::NotFound { .. })) => r == Ok::<RenameKind, WinFspFilesystemError>(RenameKind::Move),
            Err(e) => r == Err::<RenameKind, WinFspFilesystemError>(e),
        },
{
    match lookup {
        Ok(m) => {
            if !replace_if_exists || m.is_directory {
                Err(WinFspFilesystemError::AlreadyExists(destination.duplicate()))
            } else {
                Ok(RenameKind::Replace)
            }
        },
        Err(WinFspFilesystemError::Storage(StorageError::NotFound { path: missing })) => Ok(RenameKind::Move),
        Err(e) => Err(e),
    }
}

} // verus!
