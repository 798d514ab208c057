//! The storage-provider vocabulary: remote metadata, pages of entries, read
//! ranges, and the errors providers report, with the codes that the native
//! file-system bridges turn them into.
use vstd::prelude::*;
use crate::common::{provider_kind_title, ProviderKind};
use crate::path::RemotePath;
use crate::text::{decimal_text, push_decimal};

verus! {

broadcast use vstd::string::group_string_axioms;

/// What a provider knows about one remote item. Times are RFC 3339 text.
#[derive(Debug)]
pub struct RemoteMetadata {
    pub path: RemotePath,
    pub is_directory: bool,
    pub size_bytes: Option<u64>,
    pub etag: Option<String>,
    pub modified_at: Option<String>,
}

/// One entry of a directory listing.
#[derive(Debug)]
pub struct RemoteEntry {
    pub metadata: RemoteMetadata,
}

/// One page of results, with the cursor of the next page.
pub struct Page<T> {
    pub entries: Vec<T>,
    pub next_cursor: Option<String>,
}

/// A half-open byte range `start..end`.
#[derive(Debug, Clone, Copy, PartialEq, Eq, Structural)]
pub struct ByteRange {
    pub start: u64,
    pub end: u64,
}

/// A read of a remote file, whole or in part.
pub struct ReadRequest {
    pub path: RemotePath,
    pub range: Option<ByteRange>,
}

/// A lock held on a remote item.
#[derive(Debug)]
pub struct LockToken {
    pub token: String,
}

/// The space of a remote store.
#[derive(Debug, Clone, Copy, PartialEq, Eq, Structural)]
pub struct StorageCapacity {
    pub total_bytes: u64,
    pub available_bytes: u64,
}

/// What a provider reports when an operation fails.
#[derive(Debug)]
pub enum StorageError {
    AuthenticationFailed { provider: ProviderKind },
    Provider { provider: ProviderKind, message: String },
    Network { provider: ProviderKind, message: String },
    NotFound { path: RemotePath },
    PermissionDenied { path: RemotePath },
    Unsupported { provider: ProviderKind, capability: String },
    Cancelled,
    Io(String),
}

/// The text of a provider's refusal with its reason.
pub open spec fn provider_refusal_text(provider: ProviderKind, reason: Seq<char>) -> Seq<char> {
    "provider "@ + provider_kind_title(provider) + " rejected the request: "@ + reason
}

/// The text of a storage error.
pub open spec fn storage_error_text(error: StorageError) -> Seq<char> {
    match error {
        StorageError::AuthenticationFailed { provider } => "provider "@ + provider_kind_title(provider) + " rejected authentication"@,
        StorageError::Provider { provider, message } => provider_refusal_text(provider, message@),
        StorageError::Network { provider, message } => "network error for "@ + provider_kind_title(provider) + ": "@ + message@,
        StorageError::NotFound { path } => "remote item was not found: "@ + path@,
        StorageError::PermissionDenied { path } => "permission denied for remote item: "@ + path@,
        StorageError::Unsupported { provider, capability } => "capability "@ + capability@ + " is not supported by "@ + provider_kind_title(provider),
        StorageError::Cancelled => "transfer was cancelled"@,
        StorageError::Io(detail) => "I/O error: "@ + detail@,
    }
}

impl StorageError {
    /// The text of the error.
    pub fn message(&self) -> (out: String)
        ensures
            out@ == storage_error_text(*self),
    {
        match self {
            StorageError::AuthenticationFailed { provider } => {
                let mut out = String::from_str("provider ");
                out.append(provider.title());
                out.append(" rejected authentication");
                out
            },
            StorageError::Provider { provider, message } => {
                let mut out = String::from_str("provider ");
                out.append(provider.title());
                out.append(" rejected the request: ");
                out.append(message.as_str());
                out
            },
            StorageError::Network { provider, message } => {
                let mut out = String::from_str("network error for ");
                out.append(provider.title());
                out.append(": ");
                out.append(message.as_str());
                out
            },
            StorageError::NotFound { path } => {
                let mut out = String::from_str("remote item was not found: ");
                out.append(path.as_str());
                out
            },
            StorageError::PermissionDenied { path } => {
                let mut out = String::from_str("permission denied for remote item: ");
                out.append(path.as_str());
                out
            },
            StorageError::Unsupported { provider, capability } => {
                let mut out = String::from_str("capability ");
                out.append(capability.as_str());
                out.append(" is not supported by ");
                out.append(provider.title());
                out
            },
            StorageError::Cancelled => String::from_str("transfer was cancelled"),
            StorageError::Io(detail) => {
                let mut out = String::from_str("I/O error: ");
                out.append(detail.as_str());
                out
            },
        }
    }
}

/// The message for an empty or reversed read range.
pub open spec fn empty_range_text() -> Seq<char> {
    "read range must have a positive length"@
}

/// The HTTP `Range` header for a read: `bytes=first-last`, with an inclusive
/// last byte.
pub open spec fn range_header_text(range: ByteRange) -> Seq<char> {
    "bytes="@ + decimal_text(range.start as nat) + "-"@ + decimal_text((range.end - 1) as nat)
}

/// The `Range` header for an optional read range; an empty or reversed range
/// is refused on behalf of `provider`.
pub fn range_header(provider: ProviderKind, range: Option<ByteRange>) -> (r: Result<Option<String>, StorageError>)
    ensures
        match range {
            None => r matches Ok(None),
            Some(b) => if b.start < b.end {
                r matches Ok(Some(h)) && h@ == range_header_text(b)
            } else {
                r matches Err(StorageError::Provider { provider: p, message: m }) && p == provider && m@ == empty_range_text()
            },
        },
{
    match range {
        None => Ok(None),
        Some(b) => {
            if b.start >= b.end {
                return Err(StorageError::Provider {
                    provider,
                    message: String::from_str("read range must have a positive length"),
                });
            }
            let mut header = String::from_str("bytes=");
            push_decimal(&mut header, b.start);
            header.append("-");
            push_decimal(&mut header, b.end - 1);
            Ok(Some(header))
        },
    }
}

/// The error kinds that the macOS file-provider bridge reports.
pub open spec fn storage_error_code(error: StorageError) -> Seq<char> {
    match error {
        StorageError::AuthenticationFailed { .. } => "not_authenticated"@,
        StorageError::NotFound { .. } => "not_found"@,
        StorageError::PermissionDenied { .. } => "permission_denied"@,
        StorageError::Unsupported { .. } => "unsupported"@,
        StorageError::Cancelled => "cancelled"@,
        StorageError::Network { .. } | StorageError::Io(_) => "server_unreachable"@,
        StorageError::Provider { .. } => "provider_error"@,
    }
}

/// The bridge error code for a storage error.
pub fn error_code(error: &StorageError) -> (code: &'static str)
    ensures
        code@ == storage_error_code(*error),
{
    match error {
        StorageError::AuthenticationFailed { .. } => "not_authenticated",
        StorageError::NotFound { .. } => "not_found",
        StorageError::PermissionDenied { .. } => "permission_denied",
        StorageError::Unsupported { .. } => "unsupported",
        StorageError::Cancelled => "cancelled",
        StorageError::Network { .. } | StorageError::Io(_) => "server_unreachable",
        StorageError::Provider { .. } => "provider_error",
    }
}

/// `ENOENT`.
pub const ERRNO_NOT_FOUND: i32 = 2;
/// `EACCES`.
pub const ERRNO_ACCESS: i32 = 13;
/// `EIO`.
pub const ERRNO_IO: i32 = 5;

/// The POSIX error number that the read-only FUSE mount reports.
pub fn fuse_error_code(error: &StorageError) -> (code: i32)
    ensures
        code == match *error {
            StorageError::NotFound { .. } => ERRNO_NOT_FOUND,
            StorageError::PermissionDenied { .. } => ERRNO_ACCESS,
            _ => ERRNO_IO,
        },
{
    match error {
        StorageError::NotFound { .. } => ERRNO_NOT_FOUND,
        StorageError::PermissionDenied { .. } => ERRNO_ACCESS,
        _ => ERRNO_IO,
    }
}

} // verus!
