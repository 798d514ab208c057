//! URLs as the `url` crate reads and builds them: the parts of a parsed URL
//! that connections and providers look at, and a URL with path segments
//! added.
use vstd::prelude::*;

verus! {

/// The parts of a parsed URL: its scheme, host, the port it names, the port
/// it names or else its scheme's known default, whether it cannot take path
/// segments, its path, and its whole serialization.
pub struct UrlView {
    pub scheme: Seq<char>,
    pub host: Option<Seq<char>>,
    pub port: Option<u16>,
    pub known_port: Option<u16>,
    pub cannot_be_a_base: bool,
    pub path: Seq<char>,
    pub text: Seq<char>,
}

/// What `url::Url::parse` makes of a text, when it accepts it.
pub uninterp spec fn parsed_url(text: Seq<char>) -> Option<UrlView>;

/// The parts of a parsed URL, as values.
#[derive(Debug, Clone, PartialEq, Eq)]
pub struct UrlParts {
    pub scheme: String,
    pub host: Option<String>,
    pub port: Option<u16>,
    pub known_port: Option<u16>,
    pub cannot_be_a_base: bool,
    pub path: String,
    pub text: String,
}

/// The text of an optional string.
pub open spec fn opt_view(s: Option<String>) -> Option<Seq<char>> {
    match s {
        Some(t) => Some(t@),
        None => None,
    }
}

/// The parts of a parsed URL, as values.
pub open spec fn url_view_of(p: UrlParts) -> UrlView {
    UrlView {
        scheme: p.scheme@,
        host: opt_view(p.host),
        port: p.port,
        known_port: p.known_port,
        cannot_be_a_base: p.cannot_be_a_base,
        path: p.path@,
        text: p.text@,
    }
}

/// Whether parts hold what a parsed URL view says.
pub open spec fn parts_match(p: UrlParts, v: UrlView) -> bool {
    url_view_of(p) == v
}

/// `url::Url::parse`, then `scheme`, `host_str`, `port`,
/// `port_or_known_default`, `cannot_be_a_base`, `path` and the
/// serialization of the result: `None` where the text is not
/// a URL. What the parser accepts and how it normalizes is not stated here.
#[verifier::external_body]
pub(crate) fn parse_url(text: &str) -> (r: Option<UrlParts>)
    ensures
        match parsed_url(text@) {
            Some(v) => r matches Some(p) && parts_match(p, v),
            None => r is None,
        },
{
    url::Url::parse(text).ok().map(|url| UrlParts {
        scheme: url.scheme().to_owned(),
        host: url.host_str().map(str::to_owned),
        port: url.port(),
        known_port: url.port_or_known_default(),
        cannot_be_a_base: url.cannot_be_a_base(),
        path: url.path().to_owned(),
        text: url.to_string(),
    })
}

/// The URL that a base URL becomes when path segments are added to it, as
/// the `url` crate builds it; `None` where the base is not a URL or cannot
/// take path segments.
pub uninterp spec fn url_with_segments(base: Seq<char>, segments: Seq<Seq<char>>) -> Option<Seq<char>>;

/// The texts of some strings.
pub open spec fn texts(v: Seq<String>) -> Seq<Seq<char>> {
    v.map_values(|s: String| s@)
}

/// `url::Url::parse` of the base, then `path_segments_mut` with
/// `pop_if_empty` and `extend` by the segments, and the serialization of the
/// result. How segments are escaped is not stated here.
#[verifier::external_body]
pub(crate) fn extend_url_path(base: &str, segments: &Vec<String>) -> (r: Option<String>)
    ensures
        opt_view(r) == url_with_segments(base@, texts(segments@)),
{
    let mut url = url::Url::parse(base).ok()?;
    url.path_segments_mut().ok()?.pop_if_empty().extend(segments);
    Some(url.to_string())
}

/// The serialization and the path of a URL once its query and fragment are
/// dropped, as the `url` crate makes them.
pub uninterp spec fn url_without_query(text: Seq<char>) -> Option<(Seq<char>, Seq<char>)>;

/// `url::Url::parse`, then `set_query(None)` and `set_fragment(None)`, and
/// the serialization and `path` of the result: `None` where the text is not
/// a URL.
#[verifier::external_body]
pub(crate) fn clear_query_and_fragment(text: &str) -> (r: Option<(String, String)>)
    ensures
        match url_without_query(text@) {
            Some((t, p)) => r matches Some(v) && v.0@ == t && v.1@ == p,
            None => r is None,
        },
{
    let mut url = url::Url::parse(text).ok()?;
    url.set_query(None);
    url.set_fragment(None);
    Some((url.to_string(), url.path().to_owned()))
}

/// The serialization of a URL once its path is set to `path`, as the `url`
/// crate makes it.
pub uninterp spec fn url_with_path(text: Seq<char>, path: Seq<char>) -> Option<Seq<char>>;

/// `url::Url::parse`, then `set_path(path)`, and the serialization of the
/// result: `None` where the text is not a URL. How the path is escaped is
/// not stated here.
#[verifier::external_body]
pub(crate) fn replace_url_path(text: &str, path: &str) -> (r: Option<String>)
    ensures
        opt_view(r) == url_with_path(text@, path@),
{
    let mut url = url::Url::parse(text).ok()?;
    url.set_path(path);
    Some(url.to_string())
}

} // verus!
