//! The request rules of the macOS File Provider bridge: identifiers are
//! remote paths, file names are single components, payload files stay in the
//! shared payload directory, and items are described with their parent,
//! name and capabilities.
use vstd::prelude::*;
use crate::capability::{Capability, CapabilitySet};
use crate::error::bifrost_error_text;
use crate::path::{parse_error_matches, parse_outcome, RemotePath};
use crate::storage::{error_code, storage_error_code, storage_error_text, RemoteMetadata, StorageError};
use crate::text::{chars_of, string_from_chars};

verus! {

broadcast use vstd::string::group_string_axioms;

/// Why a bridge request failed.
#[derive(Debug)]
pub enum BrokerFailure {
    Storage(StorageError),
    Message(String),
}

/// The error code the bridge reports for a failure.
pub open spec fn broker_error_code(f: BrokerFailure) -> Seq<char> {
    match f {
        BrokerFailure::Storage(e) => storage_error_code(e),
        BrokerFailure::Message(_) => "invalid_request"@,
    }
}

/// The code reported for a failure.
pub fn failure_code(f: &BrokerFailure) -> (code: &'static str)
    ensures
        code@ == broker_error_code(*f),
{
    match f {
        BrokerFailure::Storage(e) => error_code(e),
        BrokerFailure::Message(_) => "invalid_request",
    }
}

/// The text of a bridge failure.
pub open spec fn broker_failure_text(f: BrokerFailure) -> Seq<char> {
    match f {
        BrokerFailure::Storage(e) => storage_error_text(e),
        BrokerFailure::Message(m) => m@,
    }
}

/// A failure that carries a message.
pub fn message_error(message: String) -> (f: BrokerFailure)
    ensures
        f matches BrokerFailure::Message(m) && m@ == message@,
{
    BrokerFailure::Message(message)
}

/// The error part of a failed bridge answer.
#[derive(Debug)]
pub struct BrokerError {
    pub code: String,
    pub message: String,
}

/// The bridge's answer to one request.
#[derive(Debug)]
pub struct BrokerResponse {
    pub ok: bool,
    pub item: Option<RemoteItem>,
    pub items: Option<Vec<RemoteItem>>,
    pub next_page_token: Option<String>,
    pub content_file: Option<String>,
    pub error: Option<BrokerError>,
}

/// A successful answer that describes one item.
pub fn item_response(item: RemoteItem) -> (r: BrokerResponse)
    ensures
        r.ok,
        r.item == Some(item),
        r.items is None && r.next_page_token is None && r.content_file is None && r.error is None,
{
    BrokerResponse { ok: true, item: Some(item), items: None, next_page_token: None, content_file: None, error: None }
}

/// A successful answer that lists items, with the token of the next page.
pub fn items_response(items: Vec<RemoteItem>, next_page_token: Option<String>) -> (r: BrokerResponse)
    ensures
        r.ok,
        r.items == Some(items),
        r.next_page_token == next_page_token,
        r.item is None && r.content_file is None && r.error is None,
{
    BrokerResponse { ok: true, item: None, items: Some(items), next_page_token, content_file: None, error: None }
}

/// A successful answer with nothing to report.
pub fn empty_response() -> (r: BrokerResponse)
    ensures
        r.ok,
        r.item is None && r.items is None && r.next_page_token is None && r.content_file is None && r.error is None,
{
    BrokerResponse { ok: true, item: None, items: None, next_page_token: None, content_file: None, error: None }
}

/// The answer to a request that failed: not ok, with the failure's code and
/// text.
pub fn failure_response(failure: &BrokerFailure) -> (r: BrokerResponse)
    ensures
        !r.ok,
        r.item is None && r.items is None && r.next_page_token is None && r.content_file is None,
        r.error matches Some(e) && e.code@ == broker_error_code(*failure) && e.message@ == broker_failure_text(*failure),
{
    let code = String::from_str(failure_code(failure));
    let message = match failure {
        BrokerFailure::Storage(e) => e.message(),
        BrokerFailure::Message(m) => m.clone(),
    };
    BrokerResponse {
        ok: false,
        item: None,
        items: None,
        next_page_token: None,
        content_file: None,
        error: Some(BrokerError { code, message }),
    }
}

/// What the bridge knows of the root before asking the provider: a
/// directory with nothing else known.
pub fn root_metadata() -> (m: RemoteMetadata)
    ensures
        m.path@.len() == 0,
        m.is_directory,
        m.size_bytes is None && m.etag is None && m.modified_at is None,
{
    RemoteMetadata { path: RemotePath::root(), is_directory: true, size_bytes: None, etag: None, modified_at: None }
}

/// The operations a bridge request may ask for.
#[derive(Debug, Clone, Copy, PartialEq, Eq, Structural)]
pub enum BrokerOperation {
    Item,
    Enumerate,
    Contents,
    Create,
    Modify,
    Delete,
    Unsupported,
}

/// The operation a request's operation name asks for.
pub open spec fn operation_named(name: Seq<char>) -> BrokerOperation {
    if name == "item"@ {
        BrokerOperation::Item
    } else if name == "enumerate"@ {
        BrokerOperation::Enumerate
    } else if name == "contents"@ {
        BrokerOperation::Contents
    } else if name == "create"@ {
        BrokerOperation::Create
    } else if name == "modify"@ {
        BrokerOperation::Modify
    } else if name == "delete"@ {
        BrokerOperation::Delete
    } else {
        BrokerOperation::Unsupported
    }
}

/// Reads the operation name of a request.
pub fn broker_operation(name: &str) -> (op: BrokerOperation)
    ensures
        op == operation_named(name@),
{
    if crate::text::str_eq(name, "item") {
        BrokerOperation::Item
    } else if crate::text::str_eq(name, "enumerate") {
        BrokerOperation::Enumerate
    } else if crate::text::str_eq(name, "contents") {
        BrokerOperation::Contents
    } else if crate::text::str_eq(name, "create") {
        BrokerOperation::Create
    } else if crate::text::str_eq(name, "modify") {
        BrokerOperation::Modify
    } else if crate::text::str_eq(name, "delete") {
        BrokerOperation::Delete
    } else {
        BrokerOperation::Unsupported
    }
}

/// The failure for an operation the bridge does not know.
pub fn unsupported_operation(provider: crate::common::ProviderKind, name: &str) -> (f: BrokerFailure)
    ensures
        f matches BrokerFailure::Storage(StorageError::Unsupported { provider: p, capability: c }) && p == provider && c@ == name@,
{
    BrokerFailure::Storage(StorageError::Unsupported { provider, capability: String::from_str(name) })
}

/// Where a created or modified item goes: `filename` (which must be a single
/// component) under `parent`.
pub fn target_path(parent: &RemotePath, filename: Option<&str>) -> (r: Result<RemotePath, BrokerFailure>)
    ensures
        match filename {
            Some(v) if v@.len() > 0 => if is_single_component(v@) {
                let candidate = if parent@.len() == 0 { v@ } else { parent@ + seq!['/'] + v@ };
                match crate::path::parse_outcome(candidate) {
                    Ok(p) => r matches Ok(path) && path@ == p,
                    Err(issue) => r matches Err(BrokerFailure::Message(m))
                        && exists|e| parse_error_matches(candidate, issue, e) && m@ == bifrost_error_text(e),
                }
            } else {
                r matches Err(BrokerFailure::Message(m)) && m@ == "filename is invalid"@
            },
            _ => r matches Err(BrokerFailure::Message(m)) && m@ == "filename is required"@,
        },
{
    let name = required_filename(filename)?;
    match parent.join(name.as_str()) {
        Ok(p) => Ok(p),
        Err(e) => {
            proof {
                let candidate = if parent@.len() == 0 { name@ } else { parent@ + seq!['/'] + name@ };
                if let Err(issue) = crate::path::parse_outcome(candidate) {
                    assert(parse_error_matches(candidate, issue, e));
                }
            }
            Err(message_error(e.message()))
        },
    }
}

/// Whether a modification renames the item: its target differs from where
/// it is.
pub fn modify_renames(original: &RemotePath, target: &RemotePath) -> (r: bool)
    ensures
        r == (original@ != target@),
{
    !crate::text::str_eq(original.as_str(), target.as_str())
}

/// The answer to a contents request: the item, with the payload file that
/// holds its contents.
pub fn contents_response(item: RemoteItem, content_file: String) -> (r: BrokerResponse)
    ensures
        r.ok,
        r.item == Some(item),
        r.content_file == Some(content_file),
        r.items is None && r.next_page_token is None && r.error is None,
{
    let mut response = item_response(item);
    response.content_file = Some(content_file);
    response
}

/// The path an optional identifier names: none or empty is the root.
pub fn request_path(value: Option<&str>) -> (r: Result<RemotePath, BrokerFailure>)
    ensures
        match value {
            Some(v) if v@.len() > 0 => match parse_outcome(v@) {
                Ok(p) => r matches Ok(path) && path@ == p,
                Err(issue) => r matches Err(BrokerFailure::Message(m))
                    && exists|e| parse_error_matches(v@, issue, e) && m@ == bifrost_error_text(e),
            },
            _ => r matches Ok(path) && path@.len() == 0,
        },
{
    match value {
        Some(v) if !v.is_empty() => match RemotePath::parse(v) {
            Ok(p) => Ok(p),
            Err(e) => {
                proof {
                    if let Err(issue) = parse_outcome(v@) {
                        assert(parse_error_matches(v@, issue, e));
                    }
                }
                Err(BrokerFailure::Message(e.message()))
            },
        },
        _ => Ok(RemotePath::root()),
    }
}

/// A name that is a single path component: not empty, not `.` or `..`, and
/// without `/` or `\`.
pub open spec fn is_single_component(v: Seq<char>) -> bool {
    v.len() > 0 && !v.contains('/') && !v.contains('\\') && v != "."@ && v != ".."@
}

/// The file name a request carries, which must be a single component.
pub fn required_filename(value: Option<&str>) -> (r: Result<String, BrokerFailure>)
    ensures
        match value {
            Some(v) if v@.len() > 0 => if is_single_component(v@) {
                r matches Ok(s) && s@ == v@
            } else {
                r matches Err(BrokerFailure::Message(m)) && m@ == "filename is invalid"@
            },
            _ => r matches Err(BrokerFailure::Message(m)) && m@ == "filename is required"@,
        },
{
    let v = match value {
        Some(v) if !v.is_empty() => v,
        _ => return Err(BrokerFailure::Message(String::from_str("filename is required"))),
    };
    let chars = chars_of(v);
    let n = chars.len();
    let mut bad = false;
    for i in 0..n
        invariant
            n == chars@.len(),
            chars@ == v@,
            bad == exists|k: int| 0 <= k < i && (chars@[k] == '/' || chars@[k] == '\\'),
    {
        if chars[i] == '/' || chars[i] == '\\' {
            bad = true;
        }
    }
    proof {
        reveal_strlit(".");
        reveal_strlit("..");
        if v@.contains('/') {
            let k = choose|k: int| 0 <= k < v@.len() && v@[k] == '/';
            assert(chars@[k] == '/');
        }
        if v@.contains('\\') {
            let k = choose|k: int| 0 <= k < v@.len() && v@[k] == '\\';
            assert(chars@[k] == '\\');
        }
        if bad {
            let k = choose|k: int| 0 <= k < n && (chars@[k] == '/' || chars@[k] == '\\');
            assert(v@.contains(chars@[k]));
        }
    }
    let dot = n == 1 && chars[0] == '.';
    let dotdot = n == 2 && chars[0] == '.' && chars[1] == '.';
    proof {
        if dot {
            assert(v@ =~= "."@);
        }
        if dotdot {
            assert(v@ =~= ".."@);
        }
        if v@ == "."@ {
            assert(chars@[0] == '.');
        }
        if v@ == ".."@ {
            assert(chars@[0] == '.' && chars@[1] == '.');
        }
    }
    if bad || dot || dotdot {
        return Err(BrokerFailure::Message(String::from_str("filename is invalid")));
    }
    Ok(string_from_chars(chars.as_slice()))
}

/// `base` with the relative component `name` appended, as a Unix path join.
pub open spec fn unix_join(base: Seq<char>, name: Seq<char>) -> Seq<char> {
    if base.len() == 0 {
        name
    } else if base.last() == '/' {
        base + name
    } else {
        base + "/"@ + name
    }
}

/// Appends a relative component to a Unix path.
fn join_component(base: &str, name: &str) -> (r: String)
    ensures
        r@ == unix_join(base@, name@),
{
    let chars = chars_of(base);
    let mut out = String::from_str(base);
    if chars.len() > 0 && chars[chars.len() - 1] != '/' {
        out.append("/");
    }
    out.append(name);
    proof {
        reveal_strlit("/");
        if base@.len() == 0 {
            assert(out@ == name@);
        }
    }
    out
}

/// Where a payload file of the shared container lives: `payloads/<filename>`
/// under `root`; the file name must be a single component.
pub fn payload_path(root: &str, filename: &str) -> (r: Result<String, BrokerFailure>)
    ensures
        if filename@.len() > 0 && is_single_component(filename@) {
            r matches Ok(p) && p@ == unix_join(unix_join(root@, "payloads"@), filename@)
        } else if filename@.len() == 0 {
            r matches Err(BrokerFailure::Message(m)) && m@ == "filename is required"@
        } else {
            r matches Err(BrokerFailure::Message(m)) && m@ == "filename is invalid"@
        },
{
    let name = required_filename(Some(filename))?;
    let directory = join_component(root, "payloads");
    Ok(join_component(directory.as_str(), name.as_str()))
}

/// An item as the bridge describes it to the file provider.
#[derive(Debug)]
pub struct RemoteItem {
    pub identifier: String,
    pub parent_identifier: String,
    pub filename: String,
    pub is_directory: bool,
    pub size: Option<i64>,
    pub modified_at: Option<String>,
    pub capabilities: Vec<&'static str>,
}

/// The name of a capability as the file provider knows it; other capabilities
/// are not reported.
pub open spec fn bridge_capability_name(c: Capability) -> Option<Seq<char>> {
    match c {
        Capability::Read => Some("read"@),
        Capability::Write => Some("write"@),
        Capability::Delete => Some("delete"@),
        Capability::Rename | Capability::ServerSideMove => Some("rename"@),
        Capability::CreateDirectory => Some("create_directory"@),
        _ => None,
    }
}

/// The names of the reported capabilities among `caps`, in order.
pub open spec fn bridge_capability_names(caps: Seq<Capability>) -> Seq<Seq<char>>
    decreases caps.len(),
{
    if caps.len() == 0 {
        Seq::empty()
    } else {
        let rest = bridge_capability_names(caps.drop_last());
        match bridge_capability_name(caps.last()) {
            Some(n) => rest.push(n),
            None => rest,
        }
    }
}

/// The views of a list of names.
pub open spec fn name_views(names: Seq<&'static str>) -> Seq<Seq<char>> {
    names.map_values(|s: &'static str| s@)
}

/// The index of the last `/` in `s`, if any.
pub open spec fn last_slash(s: Seq<char>) -> Option<int>
    decreases s.len(),
{
    if s.len() == 0 {
        None
    } else if s.last() == '/' {
        Some(s.len() - 1)
    } else {
        last_slash(s.drop_last())
    }
}

/// Describes `metadata` as a file-provider item of the connection named
/// `connection_name`: the root is named after the connection, other items
/// after the part of their path after the last `/`.
pub fn remote_item(connection_name: &str, metadata: RemoteMetadata, capabilities: &CapabilitySet) -> (item: RemoteItem)
    ensures
        item.identifier@ == metadata.path@,
        metadata.path@.len() == 0 ==> item.parent_identifier@.len() == 0 && item.filename@ == connection_name@,
        metadata.path@.len() > 0 ==> match last_slash(metadata.path@) {
            Some(k) => item.parent_identifier@ == metadata.path@.take(k) && item.filename@ == metadata.path@.skip(k + 1),
            None => item.parent_identifier@.len() == 0 && item.filename@ == metadata.path@,
        },
        item.is_directory == metadata.is_directory,
        item.size == match metadata.size_bytes {
            Some(s) => if s <= i64::MAX as u64 { Some(s as i64) } else { None },
            None => None,
        },
        crate::sync_run::opt_text(item.modified_at) == crate::sync_run::opt_text(metadata.modified_at),
        name_views(item.capabilities@) == bridge_capability_names(capabilities.members()),
{
    let path = chars_of(metadata.path.as_str());
    let n = path.len();
    let identifier = string_from_chars(path.as_slice());
    let (parent_identifier, filename) = if n == 0 {
        (String::new(), String::from_str(connection_name))
    } else {
        let mut k: usize = n;
        while k > 0 && path[k - 1] != '/'
            invariant
                k <= n == path@.len(),
                forall|j: int| k <= j < n ==> path@[j] != '/',
            decreases k,
        {
            k = k - 1;
        }
        proof {
            lemma_last_slash(path@, k as int);
        }
        if k == 0 {
            (String::new(), string_from_chars(path.as_slice()))
        } else {
            let mut parent: Vec<char> = Vec::new();
            for i in 0..k - 1
                invariant
                    1 <= k <= n == path@.len(),
                    parent@ == path@.take(i as int),
            {
                parent.push(path[i]);
                proof {
                    assert(path@.take(i + 1) == path@.take(i as int).push(path@[i as int]));
                }
            }
            let mut name: Vec<char> = Vec::new();
            for i in k..n
                invariant
                    k <= n == path@.len(),
                    name@ == path@.subrange(k as int, i as int),
            {
                name.push(path[i]);
                proof {
                    assert(path@.subrange(k as int, i + 1) == path@.subrange(k as int, i as int).push(path@[i as int]));
                }
            }
            proof {
                assert(path@.subrange(k as int, n as int) == path@.skip(k as int));
            }
            (string_from_chars(parent.as_slice()), string_from_chars(name.as_slice()))
        }
    };
    let size = match metadata.size_bytes {
        Some(s) => if s <= i64::MAX as u64 { Some(s as i64) } else { None },
        None => None,
    };
    let members = capabilities.iter();
    let m = members.len();
    let mut names: Vec<&'static str> = Vec::new();
    for i in 0..m
        invariant
            m == members@.len(),
            members@ == capabilities.members(),
            name_views(names@) == bridge_capability_names(members@.take(i as int)),
    {
        let c = members[i];
        proof {
            assert(members@.take(i + 1).drop_last() == members@.take(i as int));
            assert(members@.take(i + 1).last() == c);
        }
        let name: Option<&'static str> = match c {
            Capability::Read => Some("read"),
            Capability::Write => Some("write"),
            Capability::Delete => Some("delete"),
            Capability::Rename | Capability::ServerSideMove => Some("rename"),
            Capability::CreateDirectory => Some("create_directory"),
            _ => None,
        };
        if let Some(text) = name {
            let ghost prior = names@;
            names.push(text);
            proof {
                assert(name_views(names@) =~= name_views(prior).push(text@));
            }
        }
    }
    proof {
        assert(members@.take(m as int) == members@);
    }
    RemoteItem {
        identifier,
        parent_identifier,
        filename,
        is_directory: metadata.is_directory,
        size,
        modified_at: metadata.modified_at,
        capabilities: names,
    }
}

pub proof fn lemma_last_slash(s: Seq<char>, k: int)
    requires
        0 <= k <= s.len(),
        forall|j: int| k <= j < s.len() ==> s[j] != '/',
        k == 0 || s[k - 1] == '/',
    ensures
        last_slash(s) == if k == 0 { None } else { Some(k - 1) },
    decreases s.len() - k,
{
    if s.len() > k {
        lemma_last_slash(s.drop_last(), k);
    }
}

} // verus!
