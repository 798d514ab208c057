//! The decisions around Google Drive requests: when the access token is
//! refreshed, how a folder listing is asked for, which listed file a path
//! names, how a path splits into the folder to look in and the name to look
//! for, what an answer's status means, and how files are moved and
//! replaced.
use vstd::prelude::*;
use crate::common::ProviderKind;
use crate::drive_workspace::{
    destination_result, drive_metadata, entry_path, virtual_name, escape_query_literal, escaped_literal, folder_mime, google_mime, office_mime,
    remote_destination_name, remote_file_name, remote_name_result, workspace_format, workspace_format_of, DriveFile,
    WorkspaceFormat, WorkspaceOpenMode, WorkspaceSelector,
};
use crate::drive_write::{changed_after_open_text, export_is_current, export_unchanged};
use crate::export_cache::WorkspaceExportCache;
use crate::path::{parse_outcome, path_issue_text, RemotePath};
use crate::storage::{RemoteEntry, StorageError};
use crate::sync_run::opt_text;
use crate::text::{chars_of, str_eq, string_from_chars};

verus! {

broadcast use vstd::string::group_string_axioms;

/// What a Google Drive connection signs in with: an access token, and what
/// refreshes it (a refresh token, the OAuth client, the expiry in seconds
/// since the Unix epoch).
#[derive(Debug, Clone, PartialEq, Eq)]
pub struct GoogleDriveCredentials {
    pub access_token: String,
    pub refresh_token: Option<String>,
    pub client_id: Option<String>,
    pub client_secret: Option<String>,
    pub expires_at: Option<i64>,
}

/// Whether a Google Drive connection may be set up: the API endpoint must use
/// HTTPS (else the provider refuses it), and an access token must be given
/// (else authentication fails).
pub fn drive_connect_check(endpoint: &crate::urls::UrlParts, credentials: &GoogleDriveCredentials) -> (r: Result<(), StorageError>)
    ensures
        endpoint.scheme@ != "https"@ ==> (r matches Err(StorageError::Provider { provider, message })
            && provider == ProviderKind::GoogleDrive && message@ == "Google Drive endpoint must use HTTPS"@),
        endpoint.scheme@ == "https"@ && crate::connections::is_blank(credentials.access_token@) ==> (r matches Err(
            StorageError::AuthenticationFailed { provider },
        ) && provider == ProviderKind::GoogleDrive),
        endpoint.scheme@ == "https"@ && !crate::connections::is_blank(credentials.access_token@) ==> r is Ok,
{
    if !str_eq(endpoint.scheme.as_str(), "https") {
        return Err(StorageError::Provider {
            provider: ProviderKind::GoogleDrive,
            message: String::from_str("Google Drive endpoint must use HTTPS"),
        });
    }
    if crate::connections::blank(credentials.access_token.as_str()) {
        return Err(StorageError::AuthenticationFailed { provider: ProviderKind::GoogleDrive });
    }
    Ok(())
}

/// Whether the current access token is used as it is: it has no known
/// expiry, or it expires more than a minute from `now` (seconds since the
/// Unix epoch).
pub open spec fn token_fresh(expires_at: Option<i64>, now: i64) -> bool {
    match expires_at {
        None => true,
        Some(t) => t > now + 60,
    }
}

/// Whether the access token is refreshed before a request: it is about to
/// expire and a refresh token and the client's id and secret are known.
pub fn token_needs_refresh(expires_at: Option<i64>, now: i64, can_refresh: bool) -> (r: bool)
    ensures
        r == (!token_fresh(expires_at, now) && can_refresh),
{
    let fresh = match expires_at {
        None => true,
        Some(t) => (t as i128) > (now as i128) + 60,
    };
    !fresh && can_refresh
}

/// When a refreshed token expires: `expires_in` seconds after `now`.
pub fn refreshed_expiry(now: i64, expires_in: i64) -> (r: i64)
    requires
        i64::MIN <= now + expires_in <= i64::MAX,
    ensures
        r == now + expires_in,
{
    now + expires_in
}

/// The query of a folder listing: the children of `parent_id` that are not
/// in the trash, and, where a name is given, only those with that name.
pub open spec fn children_query_text(parent_id: Seq<char>, name: Option<Seq<char>>) -> Seq<char> {
    "'"@ + parent_id + "' in parents and trashed = false"@ + match name {
        Some(n) => " and name = '"@ + escaped_literal(n) + "'"@,
        None => Seq::empty(),
    }
}

/// The query of a folder listing.
pub fn children_query(parent_id: &str, name: Option<&str>) -> (r: String)
    ensures
        r@ == children_query_text(
            parent_id@,
            match name {
                Some(n) => Some(n@),
                None => None,
            },
        ),
{
    let mut query = String::from_str("'");
    query.append(parent_id);
    query.append("' in parents and trashed = false");
    if let Some(n) = name {
        query.append(" and name = '");
        let escaped = escape_query_literal(n);
        query.append(escaped.as_str());
        query.append("'");
    }
    query
}

/// The parameters of a folder listing with query `query`: the fields asked
/// for, all drives searched, or only the shared drive where one is set.
pub fn listing_parameters(query: String, fields: &str, shared_drive_id: Option<&str>) -> (r: Vec<(&'static str, String)>)
    ensures
        r@.len() == if shared_drive_id is Some { 8nat } else { 7nat },
        r@[0].0@ == "q"@ && r@[0].1@ == query@,
        r@[1].0@ == "pageSize"@ && r@[1].1@ == "1000"@,
        r@[2].0@ == "fields"@ && r@[2].1@ == fields@,
        r@[3].0@ == "includeItemsFromAllDrives"@ && r@[3].1@ == "true"@,
        r@[4].0@ == "supportsAllDrives"@ && r@[4].1@ == "true"@,
        r@[5].0@ == "spaces"@ && r@[5].1@ == "drive"@,
        match shared_drive_id {
            Some(d) => r@[6].0@ == "corpora"@ && r@[6].1@ == "drive"@ && r@[7].0@ == "driveId"@ && r@[7].1@ == d@,
            None => r@[6].0@ == "corpora"@ && r@[6].1@ == "allDrives"@,
        },
{
    let mut parameters: Vec<(&'static str, String)> = Vec::new();
    parameters.push(("q", query));
    parameters.push(("pageSize", String::from_str("1000")));
    parameters.push(("fields", String::from_str(fields)));
    parameters.push(("includeItemsFromAllDrives", String::from_str("true")));
    parameters.push(("supportsAllDrives", String::from_str("true")));
    parameters.push(("spaces", String::from_str("drive")));
    match shared_drive_id {
        Some(d) => {
            parameters.push(("corpora", String::from_str("drive")));
            parameters.push(("driveId", String::from_str(d)));
        },
        None => {
            parameters.push(("corpora", String::from_str("allDrives")));
        },
    }
    parameters
}

/// Whether a listed file is one that a selector accepts: an ordinary file,
/// any Workspace document, or a Workspace document of one kind.
pub open spec fn selector_accepts(selector: WorkspaceSelector, mime: Seq<char>) -> bool {
    match selector {
        WorkspaceSelector::Binary => workspace_format_of(mime) is None,
        WorkspaceSelector::Any => workspace_format_of(mime) is Some,
        WorkspaceSelector::Format(f) => mime == google_mime(f),
    }
}

/// The position of the first listed file that a selector accepts.
pub fn choose_file(files: &Vec<DriveFile>, selector: WorkspaceSelector) -> (r: Option<usize>)
    ensures
        match r {
            Some(k) => k < files@.len() && selector_accepts(selector, files@[k as int].mime_type@)
                && forall|j: int| 0 <= j < k ==> !selector_accepts(selector, #[trigger] files@[j].mime_type@),
            None => forall|j: int| 0 <= j < files@.len() ==> !selector_accepts(selector, #[trigger] files@[j].mime_type@),
        },
{
    for k in 0..files.len()
        invariant
            forall|j: int| 0 <= j < k ==> !selector_accepts(selector, #[trigger] files@[j].mime_type@),
    {
        let mime = files[k].mime_type.as_str();
        let accepted = match selector {
            WorkspaceSelector::Binary => workspace_format(mime).is_none(),
            WorkspaceSelector::Any => workspace_format(mime).is_some(),
            WorkspaceSelector::Format(f) => str_eq(mime, f.google_mime_type()),
        };
        if accepted {
            return Some(k);
        }
    }
    None
}

/// The position of the first listed folder.
pub fn choose_folder(files: &Vec<DriveFile>) -> (r: Option<usize>)
    ensures
        match r {
            Some(k) => k < files@.len() && files@[k as int].mime_type@ == folder_mime()
                && forall|j: int| 0 <= j < k ==> #[trigger] files@[j].mime_type@ != folder_mime(),
            None => forall|j: int| 0 <= j < files@.len() ==> #[trigger] files@[j].mime_type@ != folder_mime(),
        },
{
    for k in 0..files.len()
        invariant
            forall|j: int| 0 <= j < k ==> #[trigger] files@[j].mime_type@ != folder_mime(),
    {
        if str_eq(files[k].mime_type.as_str(), "application/vnd.google-apps.folder") {
            return Some(k);
        }
    }
    None
}

/// Whether `k` is where the last `/` of `s` stands.
pub open spec fn is_last_slash(s: Seq<char>, k: int) -> bool {
    0 <= k < s.len() && s[k] == '/' && forall|j: int| k < j < s.len() ==> #[trigger] s[j] != '/'
}

/// A path split at its last `/`: the part before it and the part after
/// it; the whole path is the last part where it has no `/`.
pub open spec fn split_at_last_slash(s: Seq<char>) -> (Seq<char>, Seq<char>) {
    if exists|k: int| is_last_slash(s, k) {
        let k = choose|k: int| is_last_slash(s, k);
        (s.take(k), s.skip(k + 1))
    } else {
        (Seq::empty(), s)
    }
}

/// Splitting a path at its last `/` loses nothing: the two parts joined by
/// `/` give the path back, and the last part holds no `/`.
pub proof fn lemma_split_rejoins(s: Seq<char>)
    ensures
        !split_at_last_slash(s).1.contains('/'),
        s.contains('/') ==> s == split_at_last_slash(s).0 + seq!['/'] + split_at_last_slash(s).1,
        !s.contains('/') ==> split_at_last_slash(s).0.len() == 0 && split_at_last_slash(s).1 == s,
{
    if s.contains('/') {
        let k = choose|k: int| 0 <= k < s.len() && s[k] == '/';
        assert(exists|m: int| is_last_slash(s, m)) by {
            lemma_last_slash_exists(s, k);
        }
        let m = choose|m: int| is_last_slash(s, m);
        assert(s =~= s.take(m) + seq!['/'] + s.skip(m + 1));
        assert(!s.skip(m + 1).contains('/')) by {
            let rest = s.skip(m + 1);
            if rest.contains('/') {
                let j = choose|j: int| 0 <= j < rest.len() && #[trigger] rest[j] == '/';
                assert(s[m + 1 + j] == '/');
            }
        }
    } else {
        assert forall|m: int| !is_last_slash(s, m) by {
            if is_last_slash(s, m) {
                assert(s.contains('/'));
            }
        }
    }
}

/// A `/` at `k` means some `/` is the last one.
proof fn lemma_last_slash_exists(s: Seq<char>, k: int)
    requires
        0 <= k < s.len(),
        s[k] == '/',
    ensures
        exists|m: int| is_last_slash(s, m),
    decreases s.len() - k,
{
    if exists|j: int| k < j < s.len() && s[j] == '/' {
        let j = choose|j: int| k < j < s.len() && s[j] == '/';
        lemma_last_slash_exists(s, j);
    } else {
        assert(is_last_slash(s, k));
    }
}

/// Splits a path at its last `/` (as `rsplitn(2, '/')` does).
pub fn split_last_component(path: &str) -> (r: (String, String))
    ensures
        r.0@ == split_at_last_slash(path@).0,
        r.1@ == split_at_last_slash(path@).1,
{
    let chars = chars_of(path);
    let n = chars.len();
    let mut k: usize = n;
    while k > 0 && chars[k - 1] != '/'
        invariant
            k <= n,
            n == chars@.len(),
            forall|j: int| k <= j < n ==> #[trigger] chars@[j] != '/',
        decreases k,
    {
        k = k - 1;
    }
    let mut before: Vec<char> = Vec::new();
    let mut after: Vec<char> = Vec::new();
    if k == 0 {
        proof {
            assert forall|m: int| !is_last_slash(chars@, m) by {
                if is_last_slash(chars@, m) {
                    assert(chars@[m] != '/');
                }
            }
        }
        return (String::new(), string_from_chars(chars.as_slice()));
    }
    proof {
        assert(is_last_slash(chars@, k - 1));
        assert forall|m: int| #[trigger] is_last_slash(chars@, m) implies m == k - 1 by {
            if m < k - 1 {
                assert(chars@[k - 1] != '/');
            } else if m > k - 1 {
                assert(chars@[m] != '/');
            }
        }
    }
    for i in 0..k - 1
        invariant
            0 < k <= n,
            n == chars@.len(),
            before@ == chars@.take(i as int),
    {
        before.push(chars[i]);
        proof {
            assert(chars@.take(i + 1) =~= chars@.take(i as int).push(chars@[i as int]));
        }
    }
    for i in k..n
        invariant
            k <= n,
            n == chars@.len(),
            after@ == chars@.subrange(k as int, i as int),
    {
        after.push(chars[i]);
        proof {
            assert(chars@.subrange(k as int, i + 1) =~= chars@.subrange(k as int, i as int).push(chars@[i as int]));
        }
    }
    proof {
        assert(chars@.subrange(k as int, n as int) =~= chars@.skip(k as int));
    }
    (string_from_chars(before.as_slice()), string_from_chars(after.as_slice()))
}

/// The Drive error for a folder path that parsing refuses.
pub open spec fn drive_path_error(value: Seq<char>, e: StorageError) -> bool {
    e matches StorageError::Provider { provider, message } && provider == ProviderKind::GoogleDrive
        && message@ == path_issue_text(value, parse_outcome(value)->Err_0)
}

/// Parses the folder part of a path, as a Drive error where it is refused.
pub fn drive_parent_path(parent: &str) -> (r: Result<RemotePath, StorageError>)
    ensures
        match parse_outcome(parent@) {
            Ok(p) => r matches Ok(path) && path@ == p,
            Err(_) => r matches Err(e) && drive_path_error(parent@, e),
        },
{
    let parsed = RemotePath::parse(parent);
    proof {
        if parsed is Err {
            let e = parsed->Err_0;
            assert(crate::error::bifrost_error_text(e) =~= path_issue_text(parent@, parse_outcome(parent@)->Err_0));
        }
    }
    match parsed {
        Ok(p) => Ok(p),
        Err(e) => Err(StorageError::Provider { provider: ProviderKind::GoogleDrive, message: e.message() }),
    }
}

/// Where a file is looked up: the folder to list, the name to ask for, and
/// which listed files the path may name.
#[derive(Debug)]
pub struct FileLookup {
    pub parent: RemotePath,
    pub name: String,
    pub selector: WorkspaceSelector,
}

/// Plans the lookup of the file at a path: the root names no file; the last
/// component gives the name and the selector, the rest the folder.
pub fn plan_file_lookup(path: &RemotePath, mode: WorkspaceOpenMode) -> (r: Result<FileLookup, StorageError>)
    ensures
        path@.len() == 0 ==> (r matches Err(StorageError::Provider { provider, message })
            && provider == ProviderKind::GoogleDrive && message@ == "the Drive root has no file ID"@),
        path@.len() > 0 ==> match r {
            Ok(lookup) => remote_name_result(split_at_last_slash(path@).1, mode, Ok((lookup.name, lookup.selector)))
                && parse_outcome(split_at_last_slash(path@).0) == Ok::<Seq<char>, crate::path::PathIssue>(lookup.parent@),
            Err(e) => remote_name_result(split_at_last_slash(path@).1, mode, Err::<(String, WorkspaceSelector), StorageError>(e))
                || drive_path_error(split_at_last_slash(path@).0, e),
        },
{
    if path.as_str().unicode_len() == 0 {
        return Err(StorageError::Provider {
            provider: ProviderKind::GoogleDrive,
            message: String::from_str("the Drive root has no file ID"),
        });
    }
    let (parent_text, component) = split_last_component(path.as_str());
    let named = remote_file_name(component.as_str(), mode);
    let (name, selector) = match named {
        Ok(v) => v,
        Err(e) => {
            proof {
                assert(remote_name_result(split_at_last_slash(path@).1, mode, named));
            }
            return Err(e);
        },
    };
    let parent = drive_parent_path(parent_text.as_str())?;
    Ok(FileLookup { parent, name, selector })
}

/// Plans where a file written, moved or copied to a path goes: the folder
/// to find and the name to give it.
pub fn plan_destination(path: &RemotePath, format: Option<WorkspaceFormat>, mode: WorkspaceOpenMode) -> (r: Result<(RemotePath, String), StorageError>)
    ensures
        match r {
            Ok((parent, name)) => destination_result(split_at_last_slash(path@).1, format, mode, Ok::<String, StorageError>(name))
                && parse_outcome(split_at_last_slash(path@).0) == Ok::<Seq<char>, crate::path::PathIssue>(parent@),
            Err(e) => destination_result(split_at_last_slash(path@).1, format, mode, Err::<String, StorageError>(e))
                || drive_path_error(split_at_last_slash(path@).0, e),
        },
{
    let (parent_text, component) = split_last_component(path.as_str());
    let named = remote_destination_name(component.as_str(), format, mode);
    let name = match named {
        Ok(n) => n,
        Err(e) => {
            proof {
                assert(destination_result(split_at_last_slash(path@).1, format, mode, named));
            }
            return Err(e);
        },
    };
    let parent = drive_parent_path(parent_text.as_str())?;
    Ok((parent, name))
}

/// A move, copy or new folder is refused where something already has the
/// destination's name in the destination folder.
pub fn ensure_destination_free(existing: usize) -> (r: Result<(), StorageError>)
    ensures
        existing == 0 ==> r is Ok,
        existing > 0 ==> (r matches Err(StorageError::Provider { provider, message })
            && provider == ProviderKind::GoogleDrive && message@ == "a remote item already exists at the destination"@),
{
    if existing > 0 {
        return Err(StorageError::Provider {
            provider: ProviderKind::GoogleDrive,
            message: String::from_str("a remote item already exists at the destination"),
        });
    }
    Ok(())
}

/// A new folder cannot be the root.
pub fn check_new_folder(path: &RemotePath) -> (r: Result<(), StorageError>)
    ensures
        path@.len() == 0 ==> (r matches Err(StorageError::Provider { provider, message })
            && provider == ProviderKind::GoogleDrive && message@ == "the Drive root already exists"@),
        path@.len() > 0 ==> r is Ok,
{
    if path.as_str().unicode_len() == 0 {
        return Err(StorageError::Provider {
            provider: ProviderKind::GoogleDrive,
            message: String::from_str("the Drive root already exists"),
        });
    }
    Ok(())
}

/// The parents to change when a file moves: none when it stays in its
/// folder, else the new folder added and the old one removed.
pub fn parent_change(current_parent: &str, new_parent: &str) -> (r: Option<(String, String)>)
    ensures
        current_parent@ == new_parent@ ==> r is None,
        current_parent@ != new_parent@ ==> (r matches Some(p) && p.0@ == new_parent@ && p.1@ == current_parent@),
{
    if str_eq(current_parent, new_parent) {
        None
    } else {
        Some((String::from_str(new_parent), String::from_str(current_parent)))
    }
}

/// How a file replaces another.
#[derive(Debug)]
pub enum ReplacePlan {
    /// The destination is an ordinary file: it is deleted and the source is
    /// moved in its place.
    DeleteThenMove,
    /// The destination is a Workspace document: the source's content is
    /// uploaded into it as an Office file of this type, and the source is
    /// deleted.
    Upload { file_id: String, content_type: &'static str },
}

/// Plans how a file replaces `destination`: an ordinary file is deleted and
/// the source moved in; a Workspace document takes the source's content as
/// its Office export, but never through a browser shortcut and only when it
/// has not changed since it was opened.
pub fn plan_replace(destination: &DriveFile, mode: WorkspaceOpenMode, exports: &WorkspaceExportCache) -> (r: Result<ReplacePlan, StorageError>)
    requires
        exports.wf(),
    ensures
        match workspace_format_of(destination.mime_type@) {
            None => r matches Ok(ReplacePlan::DeleteThenMove),
            Some(format) => if mode == WorkspaceOpenMode::Browser {
                r matches Err(StorageError::Unsupported { provider, capability }) && provider == ProviderKind::GoogleDrive
                    && capability@ == "replace_workspace_browser_shortcut"@
            } else if export_unchanged(*exports, *destination) {
                r matches Ok(ReplacePlan::Upload { file_id, content_type }) && file_id@ == destination.id@
                    && content_type@ == office_mime(format)
            } else {
                r matches Err(StorageError::Provider { provider, message }) && provider == ProviderKind::GoogleDrive
                    && message@ == changed_after_open_text(destination.name@)
            },
        },
{
    let format = match workspace_format(destination.mime_type.as_str()) {
        None => return Ok(ReplacePlan::DeleteThenMove),
        Some(f) => f,
    };
    if matches!(mode, WorkspaceOpenMode::Browser) {
        return Err(StorageError::Unsupported {
            provider: ProviderKind::GoogleDrive,
            capability: String::from_str("replace_workspace_browser_shortcut"),
        });
    }
    if !export_is_current(exports, destination) {
        let mut message = String::from_str(destination.name.as_str());
        message.append(" changed in Google Drive after it was opened; close and reopen the file before saving");
        return Err(StorageError::Provider { provider: ProviderKind::GoogleDrive, message });
    }
    Ok(ReplacePlan::Upload { file_id: String::from_str(destination.id.as_str()), content_type: format.office_mime_type() })
}

/// What an answer's status means: success for 2xx; for 401 and 403 a
/// refused sign-in; for 404 a missing item; otherwise the status (as
/// `code reason` text) with the answer's body, or with the status again
/// where the body could not be read.
pub open spec fn drive_status_outcome(status: u16, status_text: Seq<char>, body: Option<Seq<char>>, r: Result<(), StorageError>) -> bool {
    if 200 <= status <= 299 {
        r is Ok
    } else if status == 401 || status == 403 {
        r matches Err(StorageError::AuthenticationFailed { provider }) && provider == ProviderKind::GoogleDrive
    } else if status == 404 {
        r matches Err(StorageError::Provider { provider, message }) && provider == ProviderKind::GoogleDrive
            && message@ == "remote item was not found"@
    } else {
        r matches Err(StorageError::Provider { provider, message }) && provider == ProviderKind::GoogleDrive
            && message@ == "server returned HTTP "@ + status_text + ": "@ + match body {
                Some(b) => b,
                None => "server returned HTTP "@ + status_text,
            }
    }
}

/// Reads an answer's status.
pub fn drive_status(status: u16, status_text: &str, body: Option<String>) -> (r: Result<(), StorageError>)
    ensures
        drive_status_outcome(status, status_text@, opt_text(body), r),
{
    if 200 <= status && status <= 299 {
        return Ok(());
    }
    if status == 401 || status == 403 {
        return Err(StorageError::AuthenticationFailed { provider: ProviderKind::GoogleDrive });
    }
    if status == 404 {
        return Err(StorageError::Provider {
            provider: ProviderKind::GoogleDrive,
            message: String::from_str("remote item was not found"),
        });
    }
    let mut message = String::from_str("server returned HTTP ");
    message.append(status_text);
    message.append(": ");
    let ghost head = message@;
    match body {
        Some(b) => message.append(b.as_str()),
        None => {
            message.append("server returned HTTP ");
            message.append(status_text);
            proof {
                assert(message@ =~= head + ("server returned HTTP "@ + status_text@));
            }
        },
    }
    Err(StorageError::Provider { provider: ProviderKind::GoogleDrive, message })
}

/// The path a listed file takes below `prefix` (its listed name joined to
/// the prefix), or the reason it is refused.
pub open spec fn drive_entry_outcome(prefix: Seq<char>, file: DriveFile, mode: WorkspaceOpenMode) -> Result<Seq<char>, Seq<char>> {
    let n = virtual_name(file.name@, file.mime_type@, mode);
    let candidate = if prefix.len() == 0 { n } else { prefix + seq!['/'] + n };
    match parse_outcome(candidate) {
        Ok(p) => Ok(p),
        Err(issue) => Err(path_issue_text(candidate, issue)),
    }
}

/// The entries of a folder listing below `prefix`, in order: each file at
/// its listed name, with the metadata Drive gives it; the first file whose
/// path is refused refuses the listing.
pub fn drive_listing(prefix: &RemotePath, files: Vec<DriveFile>, mode: WorkspaceOpenMode) -> (r: Result<Vec<RemoteEntry>, StorageError>)
    ensures
        (forall|k: int| 0 <= k < files@.len() ==> (#[trigger] drive_entry_outcome(prefix@, files@[k], mode)) is Ok) ==> (r matches Ok(v)
            && v@.len() == files@.len() && forall|k: int| 0 <= k < files@.len() ==> {
            &&& (#[trigger] v@[k]).metadata.path@ == drive_entry_outcome(prefix@, files@[k], mode)->Ok_0
            &&& v@[k].metadata.is_directory == (files@[k].mime_type@ == folder_mime())
            &&& opt_text(v@[k].metadata.modified_at) == opt_text(files@[k].modified_time)
        }),
        r matches Err(e) ==> exists|k: int| 0 <= k < files@.len()
            && (forall|j: int| 0 <= j < k ==> (#[trigger] drive_entry_outcome(prefix@, files@[j], mode)) is Ok)
            && drive_refusal(e, #[trigger] drive_entry_outcome(prefix@, files@[k], mode)),
{
    let ghost all = files@;
    let mut pending = files;
    let mut out: Vec<RemoteEntry> = Vec::new();
    let ghost mut done: int = 0;
    while pending.len() > 0
        invariant
            all == files@,
            0 <= done <= all.len(),
            pending@ == all.skip(done),
            out@.len() == done,
            forall|j: int| 0 <= j < done ==> (#[trigger] drive_entry_outcome(prefix@, all[j], mode)) is Ok,
            forall|j: int| 0 <= j < done ==> {
                &&& (#[trigger] out@[j]).metadata.path@ == drive_entry_outcome(prefix@, all[j], mode)->Ok_0
                &&& out@[j].metadata.is_directory == (all[j].mime_type@ == folder_mime())
                &&& opt_text(out@[j].metadata.modified_at) == opt_text(all[j].modified_time)
            },
        decreases pending@.len(),
    {
        let ghost before = pending@;
        let file = pending.remove(0);
        proof {
            assert(before[0] == all[done]);
            assert(pending@ =~= all.skip(done + 1));
        }
        let path = match entry_path(prefix, file.name.as_str(), file.mime_type.as_str(), mode) {
            Ok(p) => p,
            Err(e) => {
                proof {
                    assert(drive_entry_outcome(prefix@, all[done], mode) is Err);
                }
                return Err(e);
            },
        };
        out.push(RemoteEntry { metadata: drive_metadata(file, path) });
        proof {
            done = done + 1;
        }
    }
    Ok(out)
}

/// Whether an error is the Drive refusal that a path outcome gives.
pub open spec fn drive_refusal(e: StorageError, outcome: Result<Seq<char>, Seq<char>>) -> bool {
    outcome matches Err(m) && e matches StorageError::Provider { provider, message } && provider == ProviderKind::GoogleDrive
        && message@ == m
}

/// How a file is read.
#[derive(Debug)]
pub enum DriveRead {
    /// A Workspace document, exported as this Office kind.
    Export(WorkspaceFormat),
    /// A Workspace document, as its browser shortcut.
    Shortcut,
    /// An ordinary file, downloaded by its id.
    Download(String),
}

/// How a file is read: a folder cannot be; a Workspace document is read as
/// its Office export (native apps) or its browser shortcut (browser); any
/// other file is downloaded.
pub fn drive_read_plan(file: &DriveFile, mode: WorkspaceOpenMode) -> (r: Result<DriveRead, StorageError>)
    ensures
        file.mime_type@ == folder_mime() ==> (r matches Err(StorageError::Unsupported { provider, capability })
            && provider == ProviderKind::GoogleDrive && capability@ == "read_directory"@),
        file.mime_type@ != folder_mime() ==> match workspace_format_of(file.mime_type@) {
            Some(f) => if mode == WorkspaceOpenMode::NativeApps {
                r matches Ok(DriveRead::Export(x)) && x == f
            } else {
                r matches Ok(DriveRead::Shortcut)
            },
            None => r matches Ok(DriveRead::Download(id)) && id@ == file.id@,
        },
{
    if str_eq(file.mime_type.as_str(), "application/vnd.google-apps.folder") {
        return Err(StorageError::Unsupported {
            provider: ProviderKind::GoogleDrive,
            capability: String::from_str("read_directory"),
        });
    }
    match workspace_format(file.mime_type.as_str()) {
        Some(f) => match mode {
            WorkspaceOpenMode::NativeApps => Ok(DriveRead::Export(f)),
            WorkspaceOpenMode::Browser => Ok(DriveRead::Shortcut),
        },
        None => Ok(DriveRead::Download(String::from_str(file.id.as_str()))),
    }
}

/// The capacity of a Drive account: unknown without a quota or a limit that
/// is a number; otherwise the limit, and the limit less the usage (a usage
/// that is no number counts as none; none below zero).
pub fn drive_capacity(quota: Option<(Option<String>, Option<String>)>) -> (r: Option<crate::storage::StorageCapacity>)
    ensures
        match quota {
            None => r is None,
            Some((limit, usage)) => match match limit {
                Some(l) => crate::text::parsed_u64(l@),
                None => None,
            } {
                None => r is None,
                Some(total) => {
                    let used = match usage {
                        Some(u) => match crate::text::parsed_u64(u@) {
                            Some(x) => x,
                            None => 0,
                        },
                        None => 0,
                    };
                    r matches Some(c) && c.total_bytes == total && c.available_bytes == if used <= total { (total - used) as u64 } else { 0 }
                },
            },
        },
{
    let (limit, usage) = match quota {
        None => return None,
        Some(q) => q,
    };
    let total = match limit {
        Some(l) => {
            let digits = chars_of(l.as_str());
            match crate::text::parse_u64(digits.as_slice()) {
                Some(t) => t,
                None => return None,
            }
        },
        None => return None,
    };
    let used = match usage {
        Some(u) => {
            let digits = chars_of(u.as_str());
            match crate::text::parse_u64(digits.as_slice()) {
                Some(x) => x,
                None => 0,
            }
        },
        None => 0,
    };
    Some(crate::storage::StorageCapacity { total_bytes: total, available_bytes: total.saturating_sub(used) })
}

} // verus!
