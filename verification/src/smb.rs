//! SMB shares: how a directory listing becomes entries, how a ranged read
//! is cut into requests, and which SFTP status codes name a file-system
//! condition.
use vstd::prelude::*;
use crate::path::{parse_outcome, RemotePath};
use crate::storage::{RemoteEntry, RemoteMetadata, StorageError};
use crate::sync_run::opt_text;
use crate::text::str_eq;
use crate::timestamps::utc_timestamp_text;

verus! {

broadcast use vstd::string::group_string_axioms;

/// An entry of an SMB directory listing: its name, whether it is a
/// directory, its size, and when it was last written (seconds and
/// nanoseconds since the Unix epoch).
#[derive(Debug)]
pub struct SmbDirEntry {
    pub name: String,
    pub is_directory: bool,
    pub size: u64,
    pub modified: Option<(i64, u32)>,
}

/// Whether a listed name is the directory itself or its parent.
pub open spec fn is_dot_entry(name: Seq<char>) -> bool {
    name == "."@ || name == ".."@
}

/// The path of a listed name below `prefix`, where it is a valid path.
pub open spec fn smb_entry_path(prefix: Seq<char>, name: Seq<char>) -> Option<Seq<char>> {
    let candidate = if prefix.len() == 0 { name } else { prefix + seq!['/'] + name };
    match parse_outcome(candidate) {
        Ok(p) => Some(p),
        Err(_) => None,
    }
}

/// Whether an entry is what a listed name gives at `path`.
pub open spec fn is_smb_entry(e: RemoteEntry, d: SmbDirEntry, path: Seq<char>) -> bool {
    &&& e.metadata.path@ == path
    &&& e.metadata.is_directory == d.is_directory
    &&& e.metadata.size_bytes == Some(d.size)
    &&& e.metadata.etag is None
    &&& opt_text(e.metadata.modified_at) == match d.modified {
        Some((s, n)) => utc_timestamp_text(s, n),
        None => None,
    }
}

/// The entries that a listing gives, in order: `.` and `..` and names that
/// are no valid path below the prefix are left out.
pub open spec fn smb_kept(prefix: Seq<char>, entries: Seq<SmbDirEntry>) -> Seq<int>
    decreases entries.len(),
{
    if entries.len() == 0 {
        Seq::empty()
    } else {
        let before = smb_kept(prefix, entries.drop_last());
        let last = entries.last();
        if !is_dot_entry(last.name@) && smb_entry_path(prefix, last.name@) is Some {
            before.push(entries.len() - 1)
        } else {
            before
        }
    }
}

/// The entries of an SMB directory listing below `prefix`.
pub fn smb_listing(prefix: &RemotePath, entries: Vec<SmbDirEntry>) -> (r: Vec<RemoteEntry>)
    ensures
        r@.len() == smb_kept(prefix@, entries@).len(),
        forall|k: int| 0 <= k < r@.len() ==> {
            let i = #[trigger] smb_kept(prefix@, entries@)[k];
            is_smb_entry(r@[k], entries@[i], smb_entry_path(prefix@, entries@[i].name@)->Some_0)
        },
{
    let ghost all = entries@;
    let mut pending = entries;
    let mut out: Vec<RemoteEntry> = Vec::new();
    let ghost mut done: int = 0;
    proof {
        assert(all.take(0) =~= Seq::<SmbDirEntry>::empty());
    }
    while pending.len() > 0
        invariant
            all == entries@,
            0 <= done <= all.len(),
            pending@ == all.skip(done),
            out@.len() == smb_kept(prefix@, all.take(done)).len(),
            forall|j: int| 0 <= j < smb_kept(prefix@, all.take(done)).len() ==> 0 <= #[trigger] smb_kept(prefix@, all.take(done))[j] < done,
            forall|k: int| 0 <= k < out@.len() ==> {
                let i = #[trigger] smb_kept(prefix@, all.take(done))[k];
                is_smb_entry(out@[k], all[i], smb_entry_path(prefix@, all[i].name@)->Some_0)
            },
        decreases pending@.len(),
    {
        let ghost before = pending@;
        let entry = pending.remove(0);
        proof {
            assert(before[0] == all[done]);
            assert(pending@ =~= all.skip(done + 1));
            assert(all.take(done + 1).drop_last() =~= all.take(done));
            assert(all.take(done + 1).last() == all[done]);
            assert(all.take(done + 1).len() - 1 == done);
        }
        let dot = str_eq(entry.name.as_str(), ".") || str_eq(entry.name.as_str(), "..");
        if !dot {
            let joined = prefix.join(entry.name.as_str());
            if let Ok(path) = joined {
                let modified_at = crate::timestamps::s3_modified_time(entry.modified);
                let ghost prior = out@;
                out.push(
                    RemoteEntry {
                        metadata: RemoteMetadata {
                            path,
                            is_directory: entry.is_directory,
                            size_bytes: Some(entry.size),
                            etag: None,
                            modified_at,
                        },
                    },
                );
                proof {
                    assert(smb_kept(prefix@, all.take(done + 1)) == smb_kept(prefix@, all.take(done)).push(done));
                    assert forall|k: int| 0 <= k < out@.len() implies {
                        let i = #[trigger] smb_kept(prefix@, all.take(done + 1))[k];
                        is_smb_entry(out@[k], all[i], smb_entry_path(prefix@, all[i].name@)->Some_0)
                    } by {
                        if k < prior.len() {
                            assert(out@[k] == prior[k]);
                        }
                    }
                }
            } else {
                proof {
                    assert(smb_kept(prefix@, all.take(done + 1)) == smb_kept(prefix@, all.take(done)));
                }
            }
        } else {
            proof {
                assert(smb_kept(prefix@, all.take(done + 1)) == smb_kept(prefix@, all.take(done)));
            }
        }
        proof {
            done = done + 1;
        }
    }
    proof {
        assert(all.take(done) =~= all);
    }
    out
}

/// The most one SMB read asks for.
pub const SMB_READ_CHUNK: u64 = 65536;

/// How much the next SMB read asks for at `offset`: nothing once the end is
/// reached, else a chunk, no more than what is left before the end.
pub open spec fn smb_request_length(offset: u64, end: Option<u64>) -> u64 {
    match end {
        Some(e) => if offset >= e {
            0
        } else if e - offset < SMB_READ_CHUNK {
            (e - offset) as u64
        } else {
            SMB_READ_CHUNK
        },
        None => SMB_READ_CHUNK,
    }
}

/// How much the next SMB read asks for; zero ends the read.
pub fn smb_next_request(offset: u64, end: Option<u64>) -> (r: u64)
    ensures
        r == smb_request_length(offset, end),
        r <= SMB_READ_CHUNK,
        (end matches Some(e) && offset < e) ==> offset + r <= end->Some_0 && r > 0,
{
    match end {
        Some(e) => if offset >= e {
            0
        } else if e - offset < SMB_READ_CHUNK {
            e - offset
        } else {
            SMB_READ_CHUNK
        },
        None => SMB_READ_CHUNK,
    }
}

/// An SFTP status code, as the server reports it.
#[derive(Debug, Clone, Copy, PartialEq, Eq, Structural)]
pub enum SftpStatusCode {
    Success,
    Eof,
    NoSuchFile,
    PermissionDenied,
    Failure,
    BadMessage,
    NoConnection,
    ConnectionLost,
    OpUnsupported,
}

/// What an SFTP operation on a path failed with: a status from the server,
/// or any other error; each with the text it is shown with.
#[derive(Debug)]
pub enum SftpFailure {
    Status { code: SftpStatusCode, text: String },
    Other(String),
}

/// The storage error of a failed SFTP operation on `path`: a missing file
/// and a refused permission keep their meaning; anything else is reported
/// with its text.
pub fn sftp_path_error(failure: SftpFailure, path: &RemotePath) -> (e: StorageError)
    ensures
        match failure {
            SftpFailure::Status { code: SftpStatusCode::NoSuchFile, .. } => e matches StorageError::NotFound { path: p } && p@ == path@,
            SftpFailure::Status { code: SftpStatusCode::PermissionDenied, .. } => e matches StorageError::PermissionDenied { path: p }
                && p@ == path@,
            SftpFailure::Status { text, .. } => e matches StorageError::Provider { provider, message }
                && provider == crate::common::ProviderKind::Sftp && message@ == text@,
            SftpFailure::Other(text) => e matches StorageError::Provider { provider, message }
                && provider == crate::common::ProviderKind::Sftp && message@ == text@,
        },
{
    match failure {
        SftpFailure::Status { code: SftpStatusCode::NoSuchFile, .. } => StorageError::NotFound { path: path.duplicate() },
        SftpFailure::Status { code: SftpStatusCode::PermissionDenied, .. } => StorageError::PermissionDenied { path: path.duplicate() },
        SftpFailure::Status { text, .. } => StorageError::Provider { provider: crate::common::ProviderKind::Sftp, message: text },
        SftpFailure::Other(text) => StorageError::Provider { provider: crate::common::ProviderKind::Sftp, message: text },
    }
}

} // verus!
