//! What the forms that create connections must hold before anything is
//! stored or dialed, with the reason each refusal gives, and what an SFTP
//! connection is stored with.
use vstd::prelude::*;
use crate::api::{
    CreateFtpConnectionRequest, CreateS3ConnectionRequest, CreateSftpConnectionRequest, CreateSmbConnectionRequest,
    StoreS3CredentialRequest,
};
use crate::text::{chars_of, decimal_text, push_decimal, str_eq, string_from_chars, trim_chars, trimmed};

verus! {

broadcast use vstd::string::group_string_axioms;

/// Whether a text is empty once white space is trimmed.
pub open spec fn is_blank(s: Seq<char>) -> bool {
    trimmed(s).len() == 0
}

/// Whether a text is empty once white space is trimmed.
pub fn blank(s: &str) -> (r: bool)
    ensures
        r == is_blank(s@),
{
    let chars = chars_of(s);
    trim_chars(chars.as_slice()).len() == 0
}

/// An updated connection needs a name.
pub fn check_connection_name(name: &str) -> (r: Result<(), String>)
    ensures
        is_blank(name@) ==> (r matches Err(m) && m@ == "Connection name is required"@),
        !is_blank(name@) ==> r is Ok,
{
    if blank(name) {
        return Err(String::from_str("Connection name is required"));
    }
    Ok(())
}

/// A connection made from a stored credential needs a name and the
/// credential's reference.
pub fn check_connection_request(name: &str, credential_ref: &str) -> (r: Result<(), String>)
    ensures
        (is_blank(name@) || is_blank(credential_ref@)) ==> (r matches Err(m)
            && m@ == "Connection name and credential reference are required"@),
        !(is_blank(name@) || is_blank(credential_ref@)) ==> r is Ok,
{
    if blank(name) || blank(credential_ref) {
        return Err(String::from_str("Connection name and credential reference are required"));
    }
    Ok(())
}

/// Why an S3 connection form is refused, if it is.
pub open spec fn s3_request_problem(request: CreateS3ConnectionRequest) -> Option<Seq<char>> {
    if is_blank(request.name@) || is_blank(request.region@) || is_blank(request.bucket@) {
        Some("Connection name, bucket, and region are required"@)
    } else if request.access_key_id@.len() == 0 || request.secret_access_key@.len() == 0 {
        Some("S3 access key and secret key are required"@)
    } else {
        None
    }
}

/// An S3 connection form needs a name, a bucket and a region, then both
/// access keys.
pub fn check_s3_connection_request(request: &CreateS3ConnectionRequest) -> (r: Result<(), String>)
    ensures
        match s3_request_problem(*request) {
            Some(m) => r matches Err(e) && e@ == m,
            None => r is Ok,
        },
{
    if blank(request.name.as_str()) || blank(request.region.as_str()) || blank(request.bucket.as_str()) {
        return Err(String::from_str("Connection name, bucket, and region are required"));
    }
    if request.access_key_id.unicode_len() == 0 || request.secret_access_key.unicode_len() == 0 {
        return Err(String::from_str("S3 access key and secret key are required"));
    }
    Ok(())
}

/// Why S3 keys to be stored are refused, if they are.
pub open spec fn s3_credential_problem(request: StoreS3CredentialRequest) -> Option<Seq<char>> {
    if is_blank(request.label@) {
        Some("Credential label is required"@)
    } else if request.access_key_id@.len() == 0 || request.secret_access_key@.len() == 0 {
        Some("S3 access key and secret key are required"@)
    } else {
        None
    }
}

/// S3 keys to be stored need a label, then both keys.
pub fn check_s3_credential_request(request: &StoreS3CredentialRequest) -> (r: Result<(), String>)
    ensures
        match s3_credential_problem(*request) {
            Some(m) => r matches Err(e) && e@ == m,
            None => r is Ok,
        },
{
    if blank(request.label.as_str()) {
        return Err(String::from_str("Credential label is required"));
    }
    if request.access_key_id.unicode_len() == 0 || request.secret_access_key.unicode_len() == 0 {
        return Err(String::from_str("S3 access key and secret key are required"));
    }
    Ok(())
}

/// An S3 connection's stored configuration needs a bucket and a region.
pub fn check_s3_bucket(bucket: &str, region: &str) -> (r: Result<(), String>)
    ensures
        (is_blank(bucket@) || is_blank(region@)) ==> (r matches Err(m) && m@ == "S3 bucket and region are required"@),
        !(is_blank(bucket@) || is_blank(region@)) ==> r is Ok,
{
    if blank(bucket) || blank(region) {
        return Err(String::from_str("S3 bucket and region are required"));
    }
    Ok(())
}

/// An FTP connection form needs a name, a username and a password.
pub fn check_ftp_connection_request(request: &CreateFtpConnectionRequest) -> (r: Result<(), String>)
    ensures
        (is_blank(request.name@) || is_blank(request.username@) || request.password@.len() == 0) ==> (r matches Err(m)
            && m@ == "FTP connection name, username, and password are required"@),
        !(is_blank(request.name@) || is_blank(request.username@) || request.password@.len() == 0) ==> r is Ok,
{
    if blank(request.name.as_str()) || blank(request.username.as_str()) || request.password.unicode_len() == 0 {
        return Err(String::from_str("FTP connection name, username, and password are required"));
    }
    Ok(())
}

/// An SMB connection form needs a name and a username.
pub fn check_smb_connection_request(request: &CreateSmbConnectionRequest) -> (r: Result<(), String>)
    ensures
        (is_blank(request.name@) || is_blank(request.username@)) ==> (r matches Err(m)
            && m@ == "SMB connection name and username are required"@),
        !(is_blank(request.name@) || is_blank(request.username@)) ==> r is Ok,
{
    if blank(request.name.as_str()) || blank(request.username.as_str()) {
        return Err(String::from_str("SMB connection name and username are required"));
    }
    Ok(())
}

/// What an SFTP connection is stored with: its start folder (trimmed), its
/// known-hosts file, the endpoint it is listed under, and the password to
/// keep (only for password sign-in).
#[derive(Debug)]
pub struct SftpConnectionPlan {
    pub root_path: String,
    pub known_hosts: String,
    pub endpoint: String,
    pub stored_password: Option<String>,
}

/// The known-hosts file of an SFTP form: the one given, unless it is blank,
/// else the default one.
pub open spec fn chosen_known_hosts(requested: Option<String>, default_known_hosts: Seq<char>) -> Seq<char> {
    match requested {
        Some(k) => if is_blank(k@) { default_known_hosts } else { k@ },
        None => default_known_hosts,
    }
}

/// Why an SFTP connection form is refused, if it is.
pub open spec fn sftp_request_problem(request: CreateSftpConnectionRequest, known_hosts: Seq<char>) -> Option<Seq<char>> {
    if is_blank(request.host@) || is_blank(request.username@) {
        Some("SFTP host and username are required"@)
    } else if is_blank(known_hosts) {
        Some("Unable to determine the default SSH known_hosts path"@)
    } else if request.authentication@ == "private_key"@ && match request.private_key_path {
        Some(p) => is_blank(p@),
        None => true,
    } {
        Some("SFTP private key path is required"@)
    } else if request.authentication@ != "password"@ && request.authentication@ != "private_key"@ {
        Some("SFTP authentication must be password or private_key"@)
    } else {
        None
    }
}

/// Reads an SFTP connection form: it needs a host and a username, a
/// known-hosts file (the one given or the default), a key file for key
/// sign-in, and a sign-in of `password` or `private_key`; on success, what
/// the connection is stored with.
pub fn plan_sftp_connection(request: &CreateSftpConnectionRequest, default_known_hosts: &str) -> (r: Result<SftpConnectionPlan, String>)
    ensures
        match sftp_request_problem(*request, chosen_known_hosts(request.known_hosts, default_known_hosts@)) {
            Some(m) => r matches Err(e) && e@ == m,
            None => r matches Ok(plan) && plan.root_path@ == trimmed(request.root_path@)
                && plan.known_hosts@ == chosen_known_hosts(request.known_hosts, default_known_hosts@)
                && plan.endpoint@ == "sftp://"@ + request.host@ + ":"@ + decimal_text(request.port as nat)
                && (if request.authentication@ == "password"@ {
                    plan.stored_password matches Some(p) && p@ == request.password@
                } else {
                    plan.stored_password is None
                }),
        },
{
    let root_chars = chars_of(request.root_path.as_str());
    let root_path = string_from_chars(trim_chars(root_chars.as_slice()).as_slice());
    let known_hosts = match &request.known_hosts {
        Some(k) => if blank(k.as_str()) {
            String::from_str(default_known_hosts)
        } else {
            String::from_str(k.as_str())
        },
        None => String::from_str(default_known_hosts),
    };
    if blank(request.host.as_str()) || blank(request.username.as_str()) {
        return Err(String::from_str("SFTP host and username are required"));
    }
    if blank(known_hosts.as_str()) {
        return Err(String::from_str("Unable to determine the default SSH known_hosts path"));
    }
    let uses_key = str_eq(request.authentication.as_str(), "private_key");
    let uses_password = str_eq(request.authentication.as_str(), "password");
    let key_missing = match &request.private_key_path {
        Some(p) => blank(p.as_str()),
        None => true,
    };
    if uses_key && key_missing {
        return Err(String::from_str("SFTP private key path is required"));
    }
    if !uses_password && !uses_key {
        return Err(String::from_str("SFTP authentication must be password or private_key"));
    }
    let mut endpoint = String::from_str("sftp://");
    endpoint.append(request.host.as_str());
    endpoint.append(":");
    push_decimal(&mut endpoint, request.port as u64);
    let stored_password = if uses_password {
        Some(String::from_str(request.password.as_str()))
    } else {
        None
    };
    Ok(SftpConnectionPlan { root_path, known_hosts, endpoint, stored_password })
}

} // verus!
