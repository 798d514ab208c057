//! Connection endpoints: which URLs each kind of connection accepts, with
//! the reasons it refuses the others, and the server address that FTP and
//! SMB connections dial.
use vstd::prelude::*;
use crate::common::ProviderKind;
use crate::storage::StorageError;
use crate::text::{chars_of, decimal_text, push_decimal, str_eq, string_from_chars, trimmed, trim_chars};
use crate::urls::{parse_url, parsed_url, parts_match, url_view_of, UrlParts, UrlView};

verus! {

broadcast use vstd::string::group_string_axioms;

/// Who reads an endpoint, which decides how a text that is no URL is
/// refused.
#[derive(Debug, Clone, Copy, PartialEq, Eq, Structural)]
pub enum EndpointRole {
    Connection,
    WebDav,
    Ftp,
    Smb,
}

/// The reason a text that is no URL is refused.
pub open spec fn invalid_url_text(role: EndpointRole) -> Seq<char> {
    match role {
        EndpointRole::Connection => "Connection endpoint must be a valid URL"@,
        EndpointRole::WebDav => "WebDAV endpoint must be a valid URL"@,
        EndpointRole::Ftp => "FTP endpoint must be a valid URL"@,
        EndpointRole::Smb => "SMB endpoint must be a valid URL"@,
    }
}

/// Reads an endpoint text as a URL; a text that is none is refused with the
/// role's reason.
pub fn endpoint_url(text: &str, role: EndpointRole) -> (r: Result<UrlParts, String>)
    ensures
        match parsed_url(text@) {
            Some(v) => r matches Ok(p) && parts_match(p, v),
            None => r matches Err(m) && m@ == invalid_url_text(role),
        },
{
    match parse_url(text) {
        Some(parts) => Ok(parts),
        None => Err(String::from_str(
            match role {
                EndpointRole::Connection => "Connection endpoint must be a valid URL",
                EndpointRole::WebDav => "WebDAV endpoint must be a valid URL",
                EndpointRole::Ftp => "FTP endpoint must be a valid URL",
                EndpointRole::Smb => "SMB endpoint must be a valid URL",
            },
        )),
    }
}

/// Whether a scheme is HTTP or HTTPS.
pub open spec fn is_http_scheme(s: Seq<char>) -> bool {
    s == "http"@ || s == "https"@
}

/// Whether a scheme is FTP or FTPS.
pub open spec fn is_ftp_scheme(s: Seq<char>) -> bool {
    s == "ftp"@ || s == "ftps"@
}

/// Whether a scheme is HTTP or HTTPS.
pub fn http_scheme(scheme: &str) -> (r: bool)
    ensures
        r == is_http_scheme(scheme@),
{
    str_eq(scheme, "http") || str_eq(scheme, "https")
}

/// Whether a scheme is FTP or FTPS.
pub fn ftp_scheme(scheme: &str) -> (r: bool)
    ensures
        r == is_ftp_scheme(scheme@),
{
    str_eq(scheme, "ftp") || str_eq(scheme, "ftps")
}

/// The endpoint of an HTTP-based connection: a URL with the HTTP or HTTPS
/// scheme, each refusal with its reason.
pub fn http_connection_endpoint(text: &str) -> (r: Result<UrlParts, String>)
    ensures
        match parsed_url(text@) {
            None => r matches Err(m) && m@ == invalid_url_text(EndpointRole::Connection),
            Some(v) => if is_http_scheme(v.scheme) {
                r matches Ok(p) && parts_match(p, v)
            } else {
                r matches Err(m) && m@ == "Connection endpoint must use HTTP or HTTPS"@
            },
        },
{
    let url = endpoint_url(text, EndpointRole::Connection)?;
    if !http_scheme(url.scheme.as_str()) {
        return Err(String::from_str("Connection endpoint must use HTTP or HTTPS"));
    }
    Ok(url)
}

/// The endpoint of a new FTP connection: a URL with the FTP or FTPS scheme,
/// each refusal with its reason.
pub fn ftp_connection_endpoint(text: &str) -> (r: Result<UrlParts, String>)
    ensures
        match parsed_url(text@) {
            None => r matches Err(m) && m@ == invalid_url_text(EndpointRole::Ftp),
            Some(v) => if is_ftp_scheme(v.scheme) {
                r matches Ok(p) && parts_match(p, v)
            } else {
                r matches Err(m) && m@ == "FTP endpoint must use ftp:// or ftps://"@
            },
        },
{
    let url = endpoint_url(text, EndpointRole::Ftp)?;
    if !ftp_scheme(url.scheme.as_str()) {
        return Err(String::from_str("FTP endpoint must use ftp:// or ftps://"));
    }
    Ok(url)
}

/// The endpoint of a new SMB connection: a URL with the SMB scheme, each
/// refusal with its reason.
pub fn smb_connection_endpoint(text: &str) -> (r: Result<UrlParts, String>)
    ensures
        match parsed_url(text@) {
            None => r matches Err(m) && m@ == invalid_url_text(EndpointRole::Smb),
            Some(v) => if v.scheme == "smb"@ {
                r matches Ok(p) && parts_match(p, v)
            } else {
                r matches Err(m) && m@ == "SMB endpoint must use smb://"@
            },
        },
{
    let url = endpoint_url(text, EndpointRole::Smb)?;
    if !str_eq(url.scheme.as_str(), "smb") {
        return Err(String::from_str("SMB endpoint must use smb://"));
    }
    Ok(url)
}

/// Whether a WebDAV endpoint is accepted when the provider is set up: it
/// must use HTTP or HTTPS.
pub fn webdav_connect_check(endpoint: &UrlParts) -> (r: Result<(), StorageError>)
    ensures
        is_http_scheme(endpoint.scheme@) ==> r is Ok,
        !is_http_scheme(endpoint.scheme@) ==> (r matches Err(StorageError::Provider { provider, message })
            && provider == ProviderKind::WebDav && message@ == "WebDAV endpoint must use HTTP or HTTPS"@),
{
    if http_scheme(endpoint.scheme.as_str()) {
        Ok(())
    } else {
        Err(StorageError::Provider {
            provider: ProviderKind::WebDav,
            message: String::from_str("WebDAV endpoint must use HTTP or HTTPS"),
        })
    }
}

/// The text of an optional string, or nothing.
pub open spec fn text_or_empty(s: Option<Seq<char>>) -> Seq<char> {
    match s {
        Some(t) => t,
        None => Seq::empty(),
    }
}

/// Where an FTP provider connects: the host (or nothing), `:` and the port
/// (given, else the scheme's default, else 21).
pub open spec fn ftp_address_text(host: Option<Seq<char>>, known_port: Option<u16>) -> Seq<char> {
    text_or_empty(host) + ":"@ + decimal_text(
        match known_port {
            Some(p) => p as nat,
            None => 21,
        },
    )
}

/// Why an FTP endpoint is refused when the provider is set up, if it is.
pub open spec fn ftp_connect_problem(endpoint: UrlView, username: Seq<char>) -> Option<Seq<char>> {
    if !is_ftp_scheme(endpoint.scheme) {
        Some("endpoint must use ftp:// or ftps://"@)
    } else {
        match endpoint.host {
            None => Some("FTP endpoint must include a host"@),
            Some(h) => if trimmed(h).len() == 0 || trimmed(username).len() == 0 {
                Some("FTP host and username are required"@)
            } else {
                None
            },
        }
    }
}

/// Sets up an FTP provider's endpoint: the scheme must be FTP or FTPS, and a
/// host and a username must be given; on success, the address to dial.
pub fn ftp_connect(endpoint: &UrlParts, username: &str) -> (r: Result<String, StorageError>)
    ensures
        match ftp_connect_problem(url_view_of(*endpoint), username@) {
            Some(m) => r matches Err(StorageError::Provider { provider, message })
                && provider == ProviderKind::Ftp && message@ == m,
            None => r matches Ok(a) && a@ == ftp_address_text(crate::urls::opt_view(endpoint.host), endpoint.known_port),
        },
{
    if !ftp_scheme(endpoint.scheme.as_str()) {
        return Err(StorageError::Provider {
            provider: ProviderKind::Ftp,
            message: String::from_str("endpoint must use ftp:// or ftps://"),
        });
    }
    let host = match &endpoint.host {
        None => {
            return Err(StorageError::Provider {
                provider: ProviderKind::Ftp,
                message: String::from_str("FTP endpoint must include a host"),
            })
        },
        Some(h) => h,
    };
    let host_chars = chars_of(host.as_str());
    let user_chars = chars_of(username);
    if trim_chars(host_chars.as_slice()).len() == 0 || trim_chars(user_chars.as_slice()).len() == 0 {
        return Err(StorageError::Provider {
            provider: ProviderKind::Ftp,
            message: String::from_str("FTP host and username are required"),
        });
    }
    let mut address = String::from_str(host.as_str());
    address.append(":");
    let port: u16 = match endpoint.known_port {
        Some(p) => p,
        None => 21,
    };
    push_decimal(&mut address, port as u64);
    Ok(address)
}

/// The text up to the first `/`.
pub open spec fn until_slash(s: Seq<char>) -> Seq<char>
    decreases s.len(),
{
    if s.len() == 0 || s[0] == '/' {
        Seq::empty()
    } else {
        seq![s[0]] + until_slash(s.drop_first())
    }
}

/// The first segment of a URL path that starts with `/`, as `path_segments`
/// gives it.
pub open spec fn first_path_segment(path: Seq<char>) -> Option<Seq<char>> {
    if path.len() > 0 && path[0] == '/' {
        Some(until_slash(path.drop_first()))
    } else {
        None
    }
}

/// Where an SMB provider connects: the host, `:` and the port (given, else
/// 445).
pub open spec fn smb_address_text(host: Seq<char>, port: Option<u16>) -> Seq<char> {
    host + ":"@ + decimal_text(
        match port {
            Some(p) => p as nat,
            None => 445,
        },
    )
}

/// What an SMB endpoint gives when the provider is set up: the address to
/// dial and the share, or why it is refused.
pub open spec fn smb_target(endpoint: UrlView) -> Result<(Seq<char>, Seq<char>), Seq<char>> {
    if endpoint.scheme != "smb"@ {
        Err("endpoint must use smb://"@)
    } else {
        match endpoint.host {
            None => Err("SMB endpoint must include a host"@),
            Some(h) => match first_path_segment(endpoint.path) {
                Some(share) => if share.len() > 0 {
                    Ok((smb_address_text(h, endpoint.port), share))
                } else {
                    Err("SMB endpoint must include a share name"@)
                },
                None => Err("SMB endpoint must include a share name"@),
            },
        }
    }
}

/// The text of `s` from `start` up to the next `/`.
pub fn chars_until_slash(s: &[char], start: usize) -> (out: Vec<char>)
    requires
        start <= s@.len(),
    ensures
        out@ == until_slash(s@.subrange(start as int, s@.len() as int)),
{
    let mut out: Vec<char> = Vec::new();
    let mut i: usize = start;
    while i < s.len() && s[i] != '/'
        invariant
            start <= i <= s@.len(),
            until_slash(s@.subrange(start as int, s@.len() as int)) == out@ + until_slash(s@.subrange(i as int, s@.len() as int)),
        decreases s@.len() - i,
    {
        proof {
            let rest = s@.subrange(i as int, s@.len() as int);
            assert(rest.drop_first() =~= s@.subrange(i + 1, s@.len() as int));
            assert(out@ + (seq![rest[0]] + until_slash(rest.drop_first())) =~= out@.push(s@[i as int]) + until_slash(s@.subrange(i + 1, s@.len() as int)));
        }
        out.push(s[i]);
        i = i + 1;
    }
    proof {
        let rest = s@.subrange(i as int, s@.len() as int);
        assert(until_slash(rest) =~= Seq::<char>::empty());
        assert(out@ + until_slash(rest) =~= out@);
    }
    out
}

/// Sets up an SMB provider's endpoint: the scheme must be SMB, and a host and
/// a share must be given; on success, the address to dial and the share.
pub fn smb_connect(endpoint: &UrlParts) -> (r: Result<(String, String), StorageError>)
    ensures
        match smb_target(url_view_of(*endpoint)) {
            Ok((address, share)) => r matches Ok(v) && v.0@ == address && v.1@ == share,
            Err(m) => r matches Err(StorageError::Provider { provider, message })
                && provider == ProviderKind::Smb && message@ == m,
        },
{
    if !str_eq(endpoint.scheme.as_str(), "smb") {
        return Err(StorageError::Provider {
            provider: ProviderKind::Smb,
            message: String::from_str("endpoint must use smb://"),
        });
    }
    let host = match &endpoint.host {
        None => {
            return Err(StorageError::Provider {
                provider: ProviderKind::Smb,
                message: String::from_str("SMB endpoint must include a host"),
            })
        },
        Some(h) => h,
    };
    let path = chars_of(endpoint.path.as_str());
    if path.len() == 0 || path[0] != '/' {
        return Err(StorageError::Provider {
            provider: ProviderKind::Smb,
            message: String::from_str("SMB endpoint must include a share name"),
        });
    }
    proof {
        assert(path@.drop_first() =~= path@.subrange(1, path@.len() as int));
    }
    let share = chars_until_slash(path.as_slice(), 1);
    if share.len() == 0 {
        return Err(StorageError::Provider {
            provider: ProviderKind::Smb,
            message: String::from_str("SMB endpoint must include a share name"),
        });
    }
    let mut address = String::from_str(host.as_str());
    address.append(":");
    let port: u16 = match endpoint.port {
        Some(p) => p,
        None => 445,
    };
    push_decimal(&mut address, port as u64);
    Ok((address, string_from_chars(share.as_slice())))
}

} // verus!
