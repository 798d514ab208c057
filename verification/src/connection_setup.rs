//! How a stored connection becomes a provider's settings, before any
//! network access: its stored secret and configuration (each as read, or
//! unreadable when the stored text does not hold them), its endpoint, and
//! the checks that a connection test and a provider set-up make, each in
//! its own order and with its own reasons.
use vstd::prelude::*;
use crate::common::ProviderKind;
use crate::connections::{blank, is_blank};
use crate::endpoints::{
    endpoint_url, ftp_address_text, ftp_connect, ftp_connect_problem, http_scheme, invalid_url_text, is_http_scheme, smb_connect,
    smb_target, webdav_connect_check, EndpointRole,
};
use crate::s3::{s3_connect_check, S3Config};
use crate::storage::provider_refusal_text;
use crate::urls::{opt_view, parsed_url, parts_match, UrlParts};

verus! {

broadcast use vstd::string::group_string_axioms;

/// Whether the set-up is for a connection test or for a provider that
/// serves requests; for S3 and WebDAV the two check in different orders.
#[derive(Debug, Clone, Copy, PartialEq, Eq, Structural)]
pub enum SetupPurpose {
    Test,
    Provider,
}

/// The stored keys of an S3 connection.
#[derive(Debug)]
pub struct S3Secret {
    pub access_key_id: String,
    pub secret_access_key: String,
}

/// The stored configuration of an S3 connection.
#[derive(Debug)]
pub struct S3Settings {
    pub region: String,
    pub bucket: String,
    pub path_style: bool,
}

/// The stored user name and password of a WebDAV, FTP or SMB connection.
#[derive(Debug)]
pub struct LoginSecret {
    pub username: String,
    pub password: String,
}

/// The keys and bucket of an S3 connection, ready for its provider.
#[derive(Debug)]
pub struct S3Setup {
    pub config: S3Config,
    pub access_key_id: String,
    pub secret_access_key: String,
}

/// Why an S3 connection cannot be set up, if it cannot. A test checks the
/// endpoint (a URL using HTTP or HTTPS), then the keys, the configuration,
/// and that a bucket and a region are named; a provider checks the keys, the
/// configuration, the endpoint (a URL) and then that a bucket is named.
pub open spec fn s3_setup_problem(
    purpose: SetupPurpose,
    endpoint: Seq<char>,
    secret: Option<S3Secret>,
    settings: Option<S3Settings>,
) -> Option<Seq<char>> {
    let url = invalid_url_text(EndpointRole::Connection);
    let keys = "Stored S3 credential payload is invalid"@;
    let stored = "S3 bucket configuration is invalid"@;
    match purpose {
        SetupPurpose::Test => match parsed_url(endpoint) {
            None => Some(url),
            Some(v) => if !is_http_scheme(v.scheme) {
                Some("Connection endpoint must use HTTP or HTTPS"@)
            } else if secret is None {
                Some(keys)
            } else {
                match settings {
                    None => Some(stored),
                    Some(c) => if is_blank(c.bucket@) || is_blank(c.region@) {
                        Some("S3 bucket and region are required"@)
                    } else {
                        None
                    },
                }
            },
        },
        SetupPurpose::Provider => if secret is None {
            Some(keys)
        } else {
            match settings {
                None => Some(stored),
                Some(c) => if parsed_url(endpoint) is None {
                    Some(url)
                } else if is_blank(c.bucket@) {
                    Some(provider_refusal_text(ProviderKind::S3, "bucket name must not be empty"@))
                } else {
                    None
                },
            }
        },
    }
}

/// Sets up an S3 connection from what is stored: the keys, the bucket, its
/// region and addressing style, and the endpoint.
pub fn s3_setup(purpose: SetupPurpose, endpoint: &str, secret: Option<S3Secret>, settings: Option<S3Settings>) -> (r: Result<
    S3Setup,
    String,
>)
    ensures
        match s3_setup_problem(purpose, endpoint@, secret, settings) {
            Some(m) => r matches Err(e) && e@ == m,
            None => r matches Ok(s) && parts_match(s.config.endpoint, parsed_url(endpoint@)->Some_0)
                && s.config.region@ == settings->Some_0.region@ && s.config.bucket@ == settings->Some_0.bucket@
                && s.config.path_style == settings->Some_0.path_style
                && s.access_key_id@ == secret->Some_0.access_key_id@
                && s.secret_access_key@ == secret->Some_0.secret_access_key@,
        },
{
    match purpose {
        SetupPurpose::Test => {
            let url = endpoint_url(endpoint, EndpointRole::Connection)?;
            if !http_scheme(url.scheme.as_str()) {
                return Err(String::from_str("Connection endpoint must use HTTP or HTTPS"));
            }
            let keys = match secret {
                None => return Err(String::from_str("Stored S3 credential payload is invalid")),
                Some(k) => k,
            };
            let stored = match settings {
                None => return Err(String::from_str("S3 bucket configuration is invalid")),
                Some(c) => c,
            };
            if blank(stored.bucket.as_str()) || blank(stored.region.as_str()) {
                return Err(String::from_str("S3 bucket and region are required"));
            }
            let config = S3Config { endpoint: url, region: stored.region, bucket: stored.bucket, path_style: stored.path_style };
            if let Err(e) = s3_connect_check(&config) {
                return Err(e.message());
            }
            Ok(S3Setup { config, access_key_id: keys.access_key_id, secret_access_key: keys.secret_access_key })
        },
        SetupPurpose::Provider => {
            let keys = match secret {
                None => return Err(String::from_str("Stored S3 credential payload is invalid")),
                Some(k) => k,
            };
            let stored = match settings {
                None => return Err(String::from_str("S3 bucket configuration is invalid")),
                Some(c) => c,
            };
            let url = endpoint_url(endpoint, EndpointRole::Connection)?;
            let config = S3Config { endpoint: url, region: stored.region, bucket: stored.bucket, path_style: stored.path_style };
            if let Err(e) = s3_connect_check(&config) {
                return Err(e.message());
            }
            Ok(S3Setup { config, access_key_id: keys.access_key_id, secret_access_key: keys.secret_access_key })
        },
    }
}

/// The endpoint and login of a WebDAV connection, ready for its provider.
#[derive(Debug)]
pub struct WebDavSetup {
    pub endpoint: UrlParts,
    pub username: String,
    pub password: String,
}

/// Why a WebDAV connection cannot be set up, if it cannot: a test checks
/// the endpoint (a URL) and then the login, a provider the login and then
/// the endpoint; both then need HTTP or HTTPS.
pub open spec fn webdav_setup_problem(purpose: SetupPurpose, endpoint: Seq<char>, secret: Option<LoginSecret>) -> Option<Seq<char>> {
    let url = invalid_url_text(EndpointRole::WebDav);
    let login = "Stored WebDAV credential payload is invalid"@;
    if purpose == SetupPurpose::Test && parsed_url(endpoint) is None {
        Some(url)
    } else if secret is None {
        Some(login)
    } else if parsed_url(endpoint) is None {
        Some(url)
    } else if !is_http_scheme(parsed_url(endpoint)->Some_0.scheme) {
        Some(provider_refusal_text(ProviderKind::WebDav, "WebDAV endpoint must use HTTP or HTTPS"@))
    } else {
        None
    }
}

/// Sets up a WebDAV connection from what is stored.
pub fn webdav_setup(purpose: SetupPurpose, endpoint: &str, secret: Option<LoginSecret>) -> (r: Result<WebDavSetup, String>)
    ensures
        match webdav_setup_problem(purpose, endpoint@, secret) {
            Some(m) => r matches Err(e) && e@ == m,
            None => r matches Ok(s) && parts_match(s.endpoint, parsed_url(endpoint@)->Some_0)
                && s.username@ == secret->Some_0.username@ && s.password@ == secret->Some_0.password@,
        },
{
    let (url, login) = match purpose {
        SetupPurpose::Test => {
            let url = endpoint_url(endpoint, EndpointRole::WebDav)?;
            match secret {
                None => return Err(String::from_str("Stored WebDAV credential payload is invalid")),
                Some(s) => (url, s),
            }
        },
        SetupPurpose::Provider => {
            let login = match secret {
                None => return Err(String::from_str("Stored WebDAV credential payload is invalid")),
                Some(s) => s,
            };
            (endpoint_url(endpoint, EndpointRole::WebDav)?, login)
        },
    };
    if let Err(e) = webdav_connect_check(&url) {
        return Err(e.message());
    }
    Ok(WebDavSetup { endpoint: url, username: login.username, password: login.password })
}

/// The endpoint, address and login of an FTP connection, ready for its
/// provider.
#[derive(Debug)]
pub struct FtpSetup {
    pub endpoint: UrlParts,
    pub address: String,
    pub username: String,
    pub password: String,
}

/// Why an FTP connection cannot be set up, if it cannot: the login, the
/// endpoint (a URL), then what the provider needs of them. A test and a
/// provider check alike.
pub open spec fn ftp_setup_problem(endpoint: Seq<char>, secret: Option<LoginSecret>) -> Option<Seq<char>> {
    match secret {
        None => Some("Stored FTP credential payload is invalid"@),
        Some(s) => match parsed_url(endpoint) {
            None => Some(invalid_url_text(EndpointRole::Ftp)),
            Some(v) => match ftp_connect_problem(v, s.username@) {
                Some(m) => Some(provider_refusal_text(ProviderKind::Ftp, m)),
                None => None,
            },
        },
    }
}

/// Sets up an FTP connection from what is stored.
pub fn ftp_setup(endpoint: &str, secret: Option<LoginSecret>) -> (r: Result<FtpSetup, String>)
    ensures
        match ftp_setup_problem(endpoint@, secret) {
            Some(m) => r matches Err(e) && e@ == m,
            None => r matches Ok(s) && parts_match(s.endpoint, parsed_url(endpoint@)->Some_0)
                && s.address@ == ftp_address_text(parsed_url(endpoint@)->Some_0.host, parsed_url(endpoint@)->Some_0.known_port)
                && s.username@ == secret->Some_0.username@ && s.password@ == secret->Some_0.password@,
        },
{
    let login = match secret {
        None => return Err(String::from_str("Stored FTP credential payload is invalid")),
        Some(s) => s,
    };
    let url = endpoint_url(endpoint, EndpointRole::Ftp)?;
    let address = match ftp_connect(&url, login.username.as_str()) {
        Ok(a) => a,
        Err(e) => return Err(e.message()),
    };
    Ok(FtpSetup { endpoint: url, address, username: login.username, password: login.password })
}

/// The endpoint, address, share, login and domain of an SMB connection,
/// ready for its provider.
#[derive(Debug)]
pub struct SmbSetup {
    pub endpoint: UrlParts,
    pub address: String,
    pub share: String,
    pub username: String,
    pub password: String,
    pub domain: String,
}

/// Why an SMB connection cannot be set up, if it cannot: the login, the
/// configuration (its domain), the endpoint (a URL), then the address and
/// share that the provider needs. A test and a provider check alike.
pub open spec fn smb_setup_problem(endpoint: Seq<char>, secret: Option<LoginSecret>, domain: Option<String>) -> Option<Seq<char>> {
    if secret is None {
        Some("Stored SMB credential payload is invalid"@)
    } else if domain is None {
        Some("SMB configuration is invalid"@)
    } else {
        match parsed_url(endpoint) {
            None => Some(invalid_url_text(EndpointRole::Smb)),
            Some(v) => match smb_target(v) {
                Err(m) => Some(provider_refusal_text(ProviderKind::Smb, m)),
                Ok(_) => None,
            },
        }
    }
}

/// Sets up an SMB connection from what is stored: the login, the domain (as
/// read from the stored configuration) and the endpoint.
pub fn smb_setup(endpoint: &str, secret: Option<LoginSecret>, domain: Option<String>) -> (r: Result<SmbSetup, String>)
    ensures
        match smb_setup_problem(endpoint@, secret, domain) {
            Some(m) => r matches Err(e) && e@ == m,
            None => r matches Ok(s) && parts_match(s.endpoint, parsed_url(endpoint@)->Some_0)
                && smb_target(parsed_url(endpoint@)->Some_0) == Ok::<(Seq<char>, Seq<char>), Seq<char>>((s.address@, s.share@))
                && s.username@ == secret->Some_0.username@ && s.password@ == secret->Some_0.password@
                && opt_view(domain) == Some(s.domain@),
        },
{
    let login = match secret {
        None => return Err(String::from_str("Stored SMB credential payload is invalid")),
        Some(s) => s,
    };
    let domain = match domain {
        None => return Err(String::from_str("SMB configuration is invalid")),
        Some(d) => d,
    };
    let url = endpoint_url(endpoint, EndpointRole::Smb)?;
    let (address, share) = match smb_connect(&url) {
        Ok(t) => t,
        Err(e) => return Err(e.message()),
    };
    Ok(SmbSetup { endpoint: url, address, share, username: login.username, password: login.password, domain })
}

} // verus!
