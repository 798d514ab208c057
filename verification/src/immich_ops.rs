//! The Immich server as a connection sees it: its endpoint with the query,
//! fragment and trailing `/` dropped, the URLs of its API, how a user signs
//! in, and what an answer's status means.
use vstd::prelude::*;
use crate::connections::{blank, is_blank};
use crate::endpoints::{http_scheme, is_http_scheme};
use crate::immich::ImmichCredentials;
use crate::text::chars_of;
use crate::urls::{
    clear_query_and_fragment, parse_url, parsed_url, parts_match, replace_url_path, url_with_path, url_without_query, UrlParts,
};
use crate::webdav::{trim_trailing_slashes, without_trailing_slashes};

verus! {

broadcast use vstd::string::group_string_axioms;

/// Why an Immich request is refused.
#[derive(Debug)]
pub enum ImmichError {
    /// The server refused the sign-in.
    AuthenticationFailed,
    /// The server or the connection refused the request, with the reason.
    Provider(String),
}

/// The refusal given where the `url` crate refuses a URL it serialized
/// itself.
pub open spec fn unreadable_endpoint_text() -> Seq<char> {
    "Immich server URL is invalid"@
}

/// What normalizing an endpoint gives: the URL without query and fragment,
/// whose path then loses its trailing `/` characters.
pub open spec fn normalized_endpoint(text: Seq<char>) -> Option<crate::urls::UrlView> {
    match url_without_query(text) {
        Some((bare, path)) => match url_with_path(bare, without_trailing_slashes(path)) {
            Some(t) => parsed_url(t),
            None => None,
        },
        None => None,
    }
}

/// The endpoint of an Immich server: query and fragment dropped, and the
/// trailing `/` characters of the path.
pub fn normalize_endpoint(endpoint: &UrlParts) -> (r: Result<UrlParts, ImmichError>)
    ensures
        match normalized_endpoint(endpoint.text@) {
            Some(v) => r matches Ok(p) && parts_match(p, v),
            None => r matches Err(ImmichError::Provider(m)) && m@ == unreadable_endpoint_text(),
        },
{
    let (bare, path) = match clear_query_and_fragment(endpoint.text.as_str()) {
        Some(v) => v,
        None => return Err(ImmichError::Provider(String::from_str("Immich server URL is invalid"))),
    };
    let chars = chars_of(path.as_str());
    let trimmed = trim_trailing_slashes(chars.as_slice());
    let new_path = crate::text::string_from_chars(trimmed.as_slice());
    let text = match replace_url_path(bare.as_str(), new_path.as_str()) {
        Some(t) => t,
        None => return Err(ImmichError::Provider(String::from_str("Immich server URL is invalid"))),
    };
    match parse_url(text.as_str()) {
        Some(parts) => Ok(parts),
        None => Err(ImmichError::Provider(String::from_str("Immich server URL is invalid"))),
    }
}

/// Why an Immich endpoint is refused, if it is: it needs a host and the
/// HTTP or HTTPS scheme.
pub fn check_immich_endpoint(endpoint: &UrlParts) -> (r: Result<(), ImmichError>)
    ensures
        endpoint.host is None ==> (r matches Err(ImmichError::Provider(m)) && m@ == "Immich endpoint must include a host"@),
        endpoint.host is Some && !is_http_scheme(endpoint.scheme@) ==> (r matches Err(ImmichError::Provider(m))
            && m@ == "Immich endpoint must use HTTP or HTTPS"@),
        endpoint.host is Some && is_http_scheme(endpoint.scheme@) ==> r is Ok,
{
    if endpoint.host.is_none() {
        return Err(ImmichError::Provider(String::from_str("Immich endpoint must include a host")));
    }
    if !http_scheme(endpoint.scheme.as_str()) {
        return Err(ImmichError::Provider(String::from_str("Immich endpoint must use HTTP or HTTPS")));
    }
    Ok(())
}

/// The URL of an API call: the endpoint with its path (without trailing
/// `/`) followed by `/api/` and the call's path.
pub fn immich_api_url(endpoint: &UrlParts, call: &str) -> (r: Result<String, ImmichError>)
    ensures
        match url_with_path(endpoint.text@, without_trailing_slashes(endpoint.path@) + "/api/"@ + call@) {
            Some(t) => r matches Ok(u) && u@ == t,
            None => r matches Err(ImmichError::Provider(m)) && m@ == unreadable_endpoint_text(),
        },
{
    let chars = chars_of(endpoint.path.as_str());
    let base = trim_trailing_slashes(chars.as_slice());
    let mut path = crate::text::string_from_chars(base.as_slice());
    path.append("/api/");
    path.append(call);
    match replace_url_path(endpoint.text.as_str(), path.as_str()) {
        Some(t) => Ok(t),
        None => Err(ImmichError::Provider(String::from_str("Immich server URL is invalid"))),
    }
}

/// How a user is signed in.
#[derive(Debug)]
pub enum ImmichSignIn {
    /// Each request carries the API key.
    ApiKey(String),
    /// The email and password are exchanged for a token first.
    Login { email: String, password: String },
}

/// How a user is signed in: with an API key that is not blank, or with an
/// email that is not blank and a password that is not empty; other
/// credentials are refused.
pub fn sign_in_plan(credentials: ImmichCredentials) -> (r: Result<ImmichSignIn, ImmichError>)
    ensures
        match credentials {
            ImmichCredentials::ApiKey(k) => if is_blank(k@) {
                r matches Err(ImmichError::AuthenticationFailed)
            } else {
                r matches Ok(ImmichSignIn::ApiKey(x)) && x@ == k@
            },
            ImmichCredentials::Password { email, password } => if !is_blank(email@) && password@.len() > 0 {
                r matches Ok(ImmichSignIn::Login { email: e, password: p }) && e@ == email@ && p@ == password@
            } else {
                r matches Err(ImmichError::AuthenticationFailed)
            },
        },
{
    match credentials {
        ImmichCredentials::ApiKey(key) => {
            if blank(key.as_str()) {
                Err(ImmichError::AuthenticationFailed)
            } else {
                Ok(ImmichSignIn::ApiKey(key))
            }
        },
        ImmichCredentials::Password { email, password } => {
            if !blank(email.as_str()) && password.unicode_len() > 0 {
                Ok(ImmichSignIn::Login { email, password })
            } else {
                Err(ImmichError::AuthenticationFailed)
            }
        },
    }
}

/// The token of a login answer, which must not be blank.
pub fn login_token(access_token: String) -> (r: Result<String, ImmichError>)
    ensures
        is_blank(access_token@) ==> r matches Err(ImmichError::AuthenticationFailed),
        !is_blank(access_token@) ==> (r matches Ok(t) && t@ == access_token@),
{
    if blank(access_token.as_str()) {
        return Err(ImmichError::AuthenticationFailed);
    }
    Ok(access_token)
}

/// What an answer's status means: success for 2xx, a refused sign-in for
/// 401 and 403, a missing API for 404, otherwise the status (as `code
/// reason` text).
pub fn immich_status(status: u16, status_text: &str) -> (r: Result<(), ImmichError>)
    ensures
        200 <= status <= 299 ==> r is Ok,
        (status == 401 || status == 403) ==> r matches Err(ImmichError::AuthenticationFailed),
        status == 404 ==> (r matches Err(ImmichError::Provider(m)) && m@ == "Immich API endpoint was not found"@),
        !(200 <= status <= 299 || status == 401 || status == 403 || status == 404) ==> (r matches Err(ImmichError::Provider(m))
            && m@ == "server returned HTTP "@ + status_text@),
{
    if 200 <= status && status <= 299 {
        return Ok(());
    }
    if status == 401 || status == 403 {
        return Err(ImmichError::AuthenticationFailed);
    }
    if status == 404 {
        return Err(ImmichError::Provider(String::from_str("Immich API endpoint was not found")));
    }
    let mut message = String::from_str("server returned HTTP ");
    message.append(status_text);
    Err(ImmichError::Provider(message))
}

} // verus!
