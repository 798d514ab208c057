//! Secrets and the native credential stores that keep them. A secret is
//! never shown: its debugging and display texts are redacted.
use vstd::prelude::*;

verus! {

broadcast use vstd::string::group_string_axioms;

/// Identifies a stored credential.
pub struct CredentialRef {
    pub id: u128,
    pub kind: String,
    pub label: String,
}

/// A secret value.
pub struct SecretString(String);

impl SecretString {
    /// Wraps a secret.
    pub fn new(value: String) -> (s: SecretString)
        ensures
            s.secret() == value@,
    {
        SecretString(value)
    }

    /// The secret's characters.
    pub closed spec fn secret(&self) -> Seq<char> {
        self.0@
    }

    /// The secret itself, for handing to a provider.
    pub fn expose(&self) -> (s: &str)
        ensures
            s@ == self.secret(),
    {
        self.0.as_str()
    }

    /// The debugging text of a secret, which never shows it.
    pub fn debug_text(&self) -> (s: &'static str)
        ensures
            s@ == "SecretString(REDACTED)"@,
    {
        "SecretString(REDACTED)"
    }

    /// The display text of a secret, which never shows it.
    pub fn display_text(&self) -> (s: &'static str)
        ensures
            s@ == "[REDACTED]"@,
    {
        "[REDACTED]"
    }
}

/// Why a credential operation failed.
#[derive(Debug)]
pub enum CredentialError {
    Unavailable(String),
    NotFound,
    Store(String),
}

/// The text a credential error is shown with.
pub open spec fn credential_error_text(e: CredentialError) -> Seq<char> {
    match e {
        CredentialError::Unavailable(m) => "native credential store is unavailable: "@ + m@,
        CredentialError::NotFound => "credential was not found"@,
        CredentialError::Store(m) => "native credential store rejected the operation: "@ + m@,
    }
}

impl CredentialError {
    /// The human-readable text of this error.
    pub fn message(&self) -> (out: String)
        ensures
            out@ == credential_error_text(*self),
    {
        match self {
            CredentialError::Unavailable(m) => {
                let mut out = String::from_str("native credential store is unavailable: ");
                out.append(m.as_str());
                out
            },
            CredentialError::NotFound => String::from_str("credential was not found"),
            CredentialError::Store(m) => {
                let mut out = String::from_str("native credential store rejected the operation: ");
                out.append(m.as_str());
                out
            },
        }
    }
}

/// The Linux Secret Service store.
pub struct LinuxCredentialStore;

impl LinuxCredentialStore {
    /// The store.
    pub fn new() -> (s: LinuxCredentialStore) {
        LinuxCredentialStore
    }

    /// The error of this store on other systems.
    pub fn unavailable() -> (e: CredentialError)
        ensures
            e matches CredentialError::Unavailable(m) && m@ == "Linux Secret Service requires Linux"@,
    {
        CredentialError::Unavailable(String::from_str("Linux Secret Service requires Linux"))
    }

    /// The error when the Secret Service has no usable wallet.
    pub fn locked() -> (e: CredentialError)
        ensures
            e matches CredentialError::Unavailable(m) && m@ == "Linux Secret Service could not access an active, unlocked wallet"@,
    {
        CredentialError::Unavailable(String::from_str("Linux Secret Service could not access an active, unlocked wallet"))
    }
}

/// The macOS Keychain store.
pub struct MacosCredentialStore;

impl MacosCredentialStore {
    /// The store.
    pub fn new() -> (s: MacosCredentialStore) {
        MacosCredentialStore
    }

    /// The error of this store on other systems.
    pub fn unavailable() -> (e: CredentialError)
        ensures
            e matches CredentialError::Unavailable(m) && m@ == "macOS Keychain requires macOS"@,
    {
        CredentialError::Unavailable(String::from_str("macOS Keychain requires macOS"))
    }
}

/// The Windows Credential Manager store.
pub struct WindowsCredentialStore;

impl WindowsCredentialStore {
    /// The store.
    pub fn new() -> (s: WindowsCredentialStore) {
        WindowsCredentialStore
    }

    /// The error of this store on other systems.
    pub fn unavailable() -> (e: CredentialError)
        ensures
            e matches CredentialError::Unavailable(m) && m@ == "Windows Credential Manager requires Windows"@,
    {
        CredentialError::Unavailable(String::from_str("Windows Credential Manager requires Windows"))
    }
}

} // verus!
