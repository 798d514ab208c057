//! Request and response records exchanged with the user interface.
use vstd::prelude::*;
use crate::common::{ConnectionId, ConnectionState, ProviderKind};
use crate::path::RemotePath;

verus! {

/// The version of the interface contract.
pub const API_VERSION: u16 = 1;

/// A configured connection as listed to the user.
pub struct ConnectionSummary {
    pub id: ConnectionId,
    pub name: String,
    pub kind: ProviderKind,
    pub state: ConnectionState,
    pub endpoint: String,
}

/// Creates an S3 (or S3-compatible) connection.
pub struct CreateS3ConnectionRequest {
    pub name: String,
    pub endpoint: String,
    pub region: String,
    pub bucket: String,
    pub path_style: bool,
    pub access_key_id: String,
    pub secret_access_key: String,
}

/// Creates a WebDAV connection.
pub struct CreateWebDavConnectionRequest {
    pub name: String,
    pub endpoint: String,
    pub username: String,
    pub password: String,
}

/// Creates an FTP connection.
pub struct CreateFtpConnectionRequest {
    pub name: String,
    pub endpoint: String,
    pub username: String,
    pub password: String,
}

/// Creates an SMB connection.
pub struct CreateSmbConnectionRequest {
    pub name: String,
    pub endpoint: String,
    pub username: String,
    pub password: String,
    pub domain: String,
}

/// Creates an SFTP connection.
pub struct CreateSftpConnectionRequest {
    pub name: String,
    pub host: String,
    pub port: u16,
    pub root_path: String,
    pub username: String,
    pub password: String,
    pub known_hosts: Option<String>,
    pub trust_on_first_use: bool,
    pub authentication: String,
    pub private_key_path: Option<String>,
    pub passphrase: Option<String>,
}

/// A file made available locally.
pub struct HydrateFileResponse {
    pub path: RemotePath,
    pub local_path: String,
}

/// Asks for a synchronization decision from three fingerprints.
pub struct SyncReconcileRequest {
    pub base: Option<String>,
    pub local: Option<String>,
    pub remote: Option<String>,
    pub resolution: Option<String>,
}

/// The decision for a [`SyncReconcileRequest`].
pub struct SyncReconcileResponse {
    pub decision: String,
    pub conflict: bool,
}

/// The outcome of synchronizing one item.
pub struct SyncRunResponse {
    pub decision: String,
    pub conflict: bool,
    pub conflict_id: Option<u128>,
}

/// Where a sync root was registered.
pub struct SyncRootRegisterResponse {
    pub path: String,
}

/// One entry of a remote directory listing.
pub struct FileSummary {
    pub path: RemotePath,
    pub is_directory: bool,
    pub size_bytes: Option<u64>,
    pub modified_at: Option<String>,
}

/// One page of a remote directory listing.
pub struct FilePage {
    pub entries: Vec<FileSummary>,
    pub next_cursor: Option<String>,
}

/// Stores S3 access keys.
pub struct StoreS3CredentialRequest {
    pub label: String,
    pub access_key_id: String,
    pub secret_access_key: String,
}

/// The application's readiness as reported to the user interface.
pub struct AppStatus {
    pub api_version: u16,
    pub product_name: String,
    pub ready: bool,
}

impl AppStatus {
    /// The status of a freshly started application.
    pub fn initial() -> (s: AppStatus)
        ensures
            s.api_version == API_VERSION,
            s.product_name@ == "Bifrost Drive"@,
            s.ready,
    {
        AppStatus { api_version: API_VERSION, product_name: String::from_str("Bifrost Drive"), ready: true }
    }

    /// A copy of this status.
    pub fn duplicate(&self) -> (s: AppStatus)
        ensures
            s.api_version == self.api_version,
            s.product_name@ == self.product_name@,
            s.ready == self.ready,
    {
        AppStatus { api_version: self.api_version, product_name: self.product_name.clone(), ready: self.ready }
    }
}

impl Default for AppStatus {
    fn default() -> (s: AppStatus)
        ensures
            s.api_version == API_VERSION,
            s.product_name@ == "Bifrost Drive"@,
            s.ready,
    {
        AppStatus::initial()
    }
}

/// An error as reported to the user interface.
pub struct ApiError {
    pub code: String,
    pub message: String,
    pub retryable: bool,
}

/// The running application.
pub struct Application {
    status: AppStatus,
}

impl Application {
    /// The application in its initial state.
    pub fn new() -> (a: Application)
        ensures
            a.current_status().api_version == API_VERSION,
            a.current_status().product_name@ == "Bifrost Drive"@,
            a.current_status().ready,
    {
        Application { status: AppStatus::initial() }
    }

    /// The status held by the application.
    pub closed spec fn current_status(&self) -> AppStatus {
        self.status
    }

    /// A copy of the application's status.
    pub fn status(&self) -> (s: AppStatus)
        ensures
            s.api_version == self.current_status().api_version,
            s.product_name@ == self.current_status().product_name@,
            s.ready == self.current_status().ready,
    {
        self.status.duplicate()
    }
}

} // verus!
