//! Shared vocabulary: provider kinds, connection and synchronization states,
//! and the identifiers of connections and transfers.
use vstd::prelude::*;
use crate::error::BifrostError;
use crate::text::str_eq;

verus! {

broadcast use vstd::string::group_string_axioms;

/// The storage services that a connection can use.
#[derive(Debug, Clone, Copy, PartialEq, Eq, Structural)]
pub enum ProviderKind {
    S3,
    Sftp,
    WebDav,
    Nextcloud,
    GoogleDrive,
    Ftp,
    Smb,
}

/// The stable identifier under which a provider kind is stored.
pub open spec fn provider_kind_id(kind: ProviderKind) -> Seq<char> {
    match kind {
        ProviderKind::S3 => "s3"@,
        ProviderKind::Sftp => "sftp"@,
        ProviderKind::WebDav => "webdav"@,
        ProviderKind::Nextcloud => "nextcloud"@,
        ProviderKind::GoogleDrive => "google-drive"@,
        ProviderKind::Ftp => "ftp"@,
        ProviderKind::Smb => "smb"@,
    }
}

/// The name under which a provider kind is shown to people.
pub open spec fn provider_kind_title(kind: ProviderKind) -> Seq<char> {
    match kind {
        ProviderKind::S3 => "S3"@,
        ProviderKind::Sftp => "SFTP"@,
        ProviderKind::WebDav => "WebDAV"@,
        ProviderKind::Nextcloud => "Nextcloud"@,
        ProviderKind::GoogleDrive => "Google Drive"@,
        ProviderKind::Ftp => "FTP"@,
        ProviderKind::Smb => "SMB"@,
    }
}

/// The kind whose identifier is `value`, if any.
pub open spec fn provider_kind_from_id(value: Seq<char>) -> Option<ProviderKind> {
    if value == "s3"@ {
        Some(ProviderKind::S3)
    } else if value == "sftp"@ {
        Some(ProviderKind::Sftp)
    } else if value == "webdav"@ {
        Some(ProviderKind::WebDav)
    } else if value == "nextcloud"@ {
        Some(ProviderKind::Nextcloud)
    } else if value == "google-drive"@ {
        Some(ProviderKind::GoogleDrive)
    } else if value == "ftp"@ {
        Some(ProviderKind::Ftp)
    } else if value == "smb"@ {
        Some(ProviderKind::Smb)
    } else {
        None
    }
}

impl ProviderKind {
    /// The stable identifier of this kind.
    pub fn as_str(self) -> (s: &'static str)
        ensures
            s@ == provider_kind_id(self),
    {
        match self {
            ProviderKind::S3 => "s3",
            ProviderKind::Sftp => "sftp",
            ProviderKind::WebDav => "webdav",
            ProviderKind::Nextcloud => "nextcloud",
            ProviderKind::GoogleDrive => "google-drive",
            ProviderKind::Ftp => "ftp",
            ProviderKind::Smb => "smb",
        }
    }

    /// The name shown to people for this kind.
    pub fn title(self) -> (s: &'static str)
        ensures
            s@ == provider_kind_title(self),
    {
        match self {
            ProviderKind::S3 => "S3",
            ProviderKind::Sftp => "SFTP",
            ProviderKind::WebDav => "WebDAV",
            ProviderKind::Nextcloud => "Nextcloud",
            ProviderKind::GoogleDrive => "Google Drive",
            ProviderKind::Ftp => "FTP",
            ProviderKind::Smb => "SMB",
        }
    }

    /// The kind with identifier `value`; any other text is a configuration error.
    pub fn parse(value: &str) -> (r: Result<ProviderKind, BifrostError>)
        ensures
            match provider_kind_from_id(value@) {
                Some(kind) => r == Ok::<ProviderKind, BifrostError>(kind),
                None => r matches Err(BifrostError::Configuration(m)) && m@ == "unknown provider kind: "@ + value@,
            },
    {
        if str_eq(value, "s3") {
            Ok(ProviderKind::S3)
        } else if str_eq(value, "sftp") {
            Ok(ProviderKind::Sftp)
        } else if str_eq(value, "webdav") {
            Ok(ProviderKind::WebDav)
        } else if str_eq(value, "nextcloud") {
            Ok(ProviderKind::Nextcloud)
        } else if str_eq(value, "google-drive") {
            Ok(ProviderKind::GoogleDrive)
        } else if str_eq(value, "ftp") {
            Ok(ProviderKind::Ftp)
        } else if str_eq(value, "smb") {
            Ok(ProviderKind::Smb)
        } else {
            let mut message = String::from_str("unknown provider kind: ");
            message.append(value);
            Err(BifrostError::Configuration(message))
        }
    }
}

/// Reading back the identifier of a kind gives the kind, and distinct kinds
/// have distinct identifiers.
pub proof fn lemma_provider_kind_round_trip(kind: ProviderKind, other: ProviderKind)
    ensures
        provider_kind_from_id(provider_kind_id(kind)) == Some(kind),
        kind != other ==> provider_kind_id(kind) != provider_kind_id(other),
{
    reveal_strlit("s3");
    reveal_strlit("sftp");
    reveal_strlit("webdav");
    reveal_strlit("nextcloud");
    reveal_strlit("google-drive");
    reveal_strlit("ftp");
    reveal_strlit("smb");
    assert("s3"@ =~= seq!['s', '3']);
    assert("sftp"@ =~= seq!['s', 'f', 't', 'p']);
    assert("webdav"@ =~= seq!['w', 'e', 'b', 'd', 'a', 'v']);
    assert("nextcloud"@ =~= seq!['n', 'e', 'x', 't', 'c', 'l', 'o', 'u', 'd']);
    assert("google-drive"@ =~= seq!['g', 'o', 'o', 'g', 'l', 'e', '-', 'd', 'r', 'i', 'v', 'e']);
    assert("ftp"@ =~= seq!['f', 't', 'p']);
    assert("smb"@ =~= seq!['s', 'm', 'b']);
    assert("ftp"@[0] != "smb"@[0]);
}

/// How a connection currently stands.
#[derive(Debug, Clone, Copy, PartialEq, Eq, Structural)]
pub enum ConnectionState {
    Disconnected,
    Connecting,
    Connected,
    AuthenticationRequired,
    Error,
}

/// Where a synchronized item stands.
#[derive(Debug, Clone, Copy, PartialEq, Eq, Structural)]
pub enum SyncState {
    Online,
    Offline,
    Syncing,
    Uploading,
    Downloading,
    UpToDate,
    Error,
    Conflict,
    Ignored,
    Pinned,
    Placeholder,
}

/// Whether 128 bits are those of a random (version 4, RFC 4122 variant)
/// UUID: the version nibble is 4 and the two variant bits are `10`.
pub open spec fn is_random_uuid(bits: u128) -> bool {
    (bits >> 76u128) & 0xfu128 == 4u128 && (bits >> 62u128) & 0x3u128 == 2u128
}

/// A fresh random 128-bit identifier (`uuid::Uuid::new_v4`, read back with
/// `as_u128`). The bits are random but for the version and variant bits,
/// which the crate sets; nothing else is claimed of them.
#[verifier::external_body]
fn random_uuid_bits() -> (bits: u128)
    ensures
        is_random_uuid(bits),
{
    uuid::Uuid::new_v4().as_u128()
}

/// Identifies a configured connection; the value is the bits of a UUID.
#[derive(Debug, Clone, Copy, PartialEq, Eq, Hash, Structural)]
pub struct ConnectionId(pub u128);

impl ConnectionId {
    /// A fresh random identifier.
    pub fn new() -> (id: ConnectionId)
        ensures
            is_random_uuid(id.0),
    {
        ConnectionId(random_uuid_bits())
    }

    /// The identifier with the given UUID bits.
    pub fn from_uuid(value: u128) -> (id: ConnectionId)
        ensures
            id.0 == value,
    {
        ConnectionId(value)
    }

    /// The UUID bits of this identifier.
    pub fn as_uuid(&self) -> (value: u128)
        ensures
            value == self.0,
    {
        self.0
    }
}

/// Identifies a queued transfer; the value is the bits of a UUID.
#[derive(Debug, Clone, Copy, PartialEq, Eq, Hash, Structural)]
pub struct TransferId(pub u128);

impl TransferId {
    /// A fresh random identifier.
    pub fn new() -> (id: TransferId)
        ensures
            is_random_uuid(id.0),
    {
        TransferId(random_uuid_bits())
    }

    /// The identifier with the given UUID bits.
    pub fn from_uuid(value: u128) -> (id: TransferId)
        ensures
            id.0 == value,
    {
        TransferId(value)
    }

    /// The UUID bits of this identifier.
    pub fn as_uuid(&self) -> (value: u128)
        ensures
            value == self.0,
    {
        self.0
    }
}

} // verus!

verus! {

/// The lower-case hexadecimal digit for `n` (below 16).
pub open spec fn hex_digit_lower(n: int) -> char {
    if n < 10 {
        (48 + n) as char
    } else {
        (87 + n) as char
    }
}

/// Two to the power `e`.
pub open spec fn two_pow(e: nat) -> nat
    decreases e,
{
    if e == 0 {
        1
    } else {
        2 * two_pow((e - 1) as nat)
    }
}

/// The `k`-th hexadecimal digit of a 128-bit value, most significant first.
pub open spec fn nibble(bits: u128, k: int) -> int {
    ((bits as int) / (two_pow((4 * (31 - k)) as nat) as int)) % 16
}

/// How many hyphens come before position `i` of a hyphenated UUID.
pub open spec fn hyphens_before(i: int) -> int {
    if i < 8 {
        0
    } else if i < 13 {
        1
    } else if i < 18 {
        2
    } else if i < 23 {
        3
    } else {
        4
    }
}

/// The hyphenated lower-case text of a UUID: 32 hexadecimal digits in groups
/// of 8, 4, 4, 4 and 12.
pub open spec fn uuid_text(bits: u128) -> Seq<char> {
    Seq::new(
        36,
        |i: int|
            if i == 8 || i == 13 || i == 18 || i == 23 {
                '-'
            } else {
                hex_digit_lower(nibble(bits, i - hyphens_before(i)))
            },
    )
}

/// The text of a UUID (`uuid::Uuid::from_u128` and its `Display`).
#[verifier::external_body]
pub(crate) fn uuid_string(bits: u128) -> (s: String)
    ensures
        s@ == uuid_text(bits),
{
    uuid::Uuid::from_u128(bits).to_string()
}

impl ConnectionId {
    /// The text of this identifier.
    pub fn to_text(&self) -> (s: String)
        ensures
            s@ == uuid_text(self.0),
    {
        uuid_string(self.0)
    }
}

impl TransferId {
    /// The text of this identifier.
    pub fn to_text(&self) -> (s: String)
        ensures
            s@ == uuid_text(self.0),
    {
        uuid_string(self.0)
    }
}

} // verus!
