//! The Windows Cloud Files side of the client: the events the sync root
//! raises, how a file identity names a remote path, what each event asks the
//! client to do, and the placeholders that answer a directory request.
use vstd::prelude::*;
use vstd::utf8::{valid_utf8, decode_utf8, encode_utf8};
use crate::path::{parse_outcome, RemotePath};
use crate::storage::{ByteRange, RemoteEntry, RemoteMetadata};
use crate::text::{chars_of, chars_start_with, string_from_chars};

verus! {

broadcast use vstd::string::group_string_axioms;

/// Why a Cloud Files operation failed.
#[derive(Debug)]
pub enum CfapiError {
    UnsupportedPlatform,
    Platform(String),
    CallbackChannelClosed,
}

impl CfapiError {
    /// The text of the error.
    pub fn message(&self) -> (out: String)
        ensures
            out@ == cfapi_error_text(*self),
    {
        match self {
            CfapiError::UnsupportedPlatform => String::from_str("Windows Cloud Files API is available only on Windows"),
            CfapiError::Platform(detail) => {
                let mut out = String::from_str("CFAPI operation failed: ");
                out.append(detail.as_str());
                out
            },
            CfapiError::CallbackChannelClosed => String::from_str("CFAPI callback channel is closed"),
        }
    }
}

/// The text of a Cloud Files error.
pub open spec fn cfapi_error_text(error: CfapiError) -> Seq<char> {
    match error {
        CfapiError::UnsupportedPlatform => "Windows Cloud Files API is available only on Windows"@,
        CfapiError::Platform(detail) => "CFAPI operation failed: "@ + detail@,
        CfapiError::CallbackChannelClosed => "CFAPI callback channel is closed"@,
    }
}

/// A placeholder to create under the sync root.
pub struct PlaceholderMetadata {
    pub relative_name: String,
    pub remote: RemoteMetadata,
    pub identity: Vec<u8>,
}

/// A callback of the sync root.
#[derive(Debug, Clone, PartialEq, Eq)]
pub enum CfapiEvent {
    FetchData {
        file_identity: Vec<u8>,
        connection_key: i64,
        transfer_key: i64,
        request_key: i64,
        file_offset: i64,
        required_length: i64,
    },
    FetchPlaceholders {
        file_identity: Vec<u8>,
        connection_key: i64,
        transfer_key: i64,
        request_key: i64,
        pattern: Option<String>,
    },
    NotifyFileClose { file_identity: Vec<u8> },
    NotifyDelete { file_identity: Vec<u8> },
    NotifyRename { file_identity: Vec<u8>, target_path: String },
}

/// How a sync root is registered. The path is the local folder's text.
#[derive(Debug, Clone)]
pub struct SyncRootConfig {
    pub path: String,
    pub provider_name: String,
    pub provider_version: String,
    pub provider_id: [u8; 16],
    pub sync_root_identity: Vec<u8>,
    pub root_file_identity: Vec<u8>,
}

/// `STATUS_UNSUCCESSFUL`, the status a failed hydration is answered with.
pub const STATUS_UNSUCCESSFUL: i32 = -1073741823;

/// What `String::from_utf8_lossy` makes of some bytes.
pub uninterp spec fn utf8_lossy(bytes: Seq<u8>) -> Seq<char>;

/// `String::from_utf8_lossy`. Stated: the result is a function of the bytes,
/// and valid UTF-8 decodes exactly. How invalid sequences are replaced is not
/// stated.
#[verifier::external_body]
fn string_from_utf8_lossy(bytes: &[u8]) -> (s: String)
    ensures
        s@ == utf8_lossy(bytes@),
        valid_utf8(bytes@) ==> s@ == decode_utf8(bytes@),
{
    String::from_utf8_lossy(bytes).into_owned()
}

/// The identity of the sync root itself: the bytes of `root`.
pub open spec fn is_root_identity(identity: Seq<u8>) -> bool {
    identity == seq![114u8, 111u8, 111u8, 116u8]
}

/// The text of a file identity: its UTF-8 decoding when it is valid UTF-8,
/// else its lossy decoding.
pub open spec fn identity_text(identity: Seq<u8>) -> Seq<char> {
    if valid_utf8(identity) {
        decode_utf8(identity)
    } else {
        utf8_lossy(identity)
    }
}

/// The path that a file identity spells, if its text parses.
pub open spec fn parsed_identity(identity: Seq<u8>) -> Option<Seq<char>> {
    match parse_outcome(identity_text(identity)) {
        Ok(p) => Some(p),
        Err(_) => None,
    }
}

/// The path a hydration or population request is for: the root identity is
/// the root, any other identity is parsed.
pub open spec fn identity_path(identity: Seq<u8>) -> Option<Seq<char>> {
    if is_root_identity(identity) {
        Some(Seq::empty())
    } else {
        parsed_identity(identity)
    }
}

/// Parses the text of a file identity as a remote path.
pub fn parse_identity(identity: &[u8]) -> (r: Option<RemotePath>)
    ensures
        match parsed_identity(identity@) {
            Some(p) => r matches Some(path) && path@ == p,
            None => r is None,
        },
{
    let text = string_from_utf8_lossy(identity);
    match RemotePath::parse(text.as_str()) {
        Ok(path) => Some(path),
        Err(_) => None,
    }
}

/// The remote path a file identity stands for; `root` is the sync root.
pub fn remote_path_from_identity(identity: &[u8]) -> (r: Option<RemotePath>)
    ensures
        match identity_path(identity@) {
            Some(p) => r matches Some(path) && path@ == p,
            None => r is None,
        },
{
    if identity.len() == 4 && identity[0] == 114 && identity[1] == 111 && identity[2] == 111 && identity[3] == 116 {
        proof {
            assert(identity@ =~= seq![114u8, 111u8, 111u8, 116u8]);
        }
        Some(RemotePath::root())
    } else {
        parse_identity(identity)
    }
}

/// A placeholder's identity names its item: the identity written for a
/// parsed path (its UTF-8 bytes) parses back as that path.
pub proof fn lemma_identity_names_its_path(value: Seq<char>)
    requires
        parse_outcome(value) is Ok,
    ensures
        parsed_identity(encode_utf8(parse_outcome(value)->Ok_0)) == Some(parse_outcome(value)->Ok_0),
{
    let p = parse_outcome(value)->Ok_0;
    crate::path::lemma_parse_is_idempotent(value);
    vstd::utf8::encode_utf8_valid_utf8(p);
    vstd::utf8::encode_utf8_decode_utf8(p);
}

/// `a + b`, held to the range of `i64`.
pub open spec fn saturated_i64(v: int) -> i64 {
    if v > i64::MAX {
        i64::MAX
    } else if v < i64::MIN {
        i64::MIN
    } else {
        v as i64
    }
}

/// Adds two `i64`s, saturating at the bounds.
pub fn saturating_add_i64(a: i64, b: i64) -> (r: i64)
    ensures
        r == saturated_i64(a + b),
{
    if b > 0 && a > i64::MAX - b {
        i64::MAX
    } else if b < 0 && a < i64::MIN - b {
        i64::MIN
    } else {
        a + b
    }
}

/// The byte range a hydration request reads: none (the whole file) when no
/// length is asked, else from the offset up to offset plus length, saturated;
/// both ends are taken as unsigned.
pub open spec fn fetch_range(file_offset: i64, required_length: i64) -> Option<ByteRange> {
    if required_length > 0 {
        Some(ByteRange { start: file_offset as u64, end: saturated_i64(file_offset + required_length) as u64 })
    } else {
        None
    }
}

/// The byte range of a hydration request.
pub fn fetch_data_range(file_offset: i64, required_length: i64) -> (r: Option<ByteRange>)
    ensures
        r == fetch_range(file_offset, required_length),
{
    let end = saturating_add_i64(file_offset, required_length);
    if required_length > 0 {
        Some(ByteRange { start: file_offset as u64, end: end as u64 })
    } else {
        None
    }
}

/// The offset at which the next chunk of a hydration is delivered.
pub fn next_fetch_offset(offset: i64, chunk_len: usize) -> (r: i64)
    requires
        chunk_len <= i64::MAX,
    ensures
        r == saturated_i64(offset + chunk_len),
{
    saturating_add_i64(offset, chunk_len as i64)
}

/// What the client does for a sync-root callback.
#[derive(Debug)]
pub enum CfapiAction {
    /// Read `path` (the range, or all of it) and deliver it from `offset`.
    Hydrate { path: RemotePath, range: Option<ByteRange>, offset: i64 },
    /// Fail the hydration with `status`.
    FailFetch { status: i32 },
    /// List `parent` and answer with its placeholders.
    Populate { parent: RemotePath },
    /// Answer the population request with no placeholders.
    PopulateNothing,
    /// Upload the cached copy of `path`.
    UploadCached { path: RemotePath },
    /// Delete `path` remotely.
    Delete { path: RemotePath },
    /// Rename `from` to `to` remotely.
    Rename { from: RemotePath, to: RemotePath },
    /// Nothing to do.
    Ignore,
}

/// Whether `action` is what the client does for `event`.
pub open spec fn action_for_event(event: CfapiEvent, action: CfapiAction) -> bool {
    match event {
        CfapiEvent::FetchData { file_identity, file_offset, required_length, .. } => match identity_path(file_identity@) {
            Some(p) => action matches CfapiAction::Hydrate { path, range, offset }
                && path@ == p && range == fetch_range(file_offset, required_length) && offset == file_offset,
            None => action == (CfapiAction::FailFetch { status: STATUS_UNSUCCESSFUL }),
        },
        CfapiEvent::FetchPlaceholders { file_identity, .. } => match identity_path(file_identity@) {
            Some(p) => action matches CfapiAction::Populate { parent } && parent@ == p,
            None => action is PopulateNothing,
        },
        CfapiEvent::NotifyFileClose { file_identity } => match parsed_identity(file_identity@) {
            Some(p) => action matches CfapiAction::UploadCached { path } && path@ == p,
            None => action is Ignore,
        },
        CfapiEvent::NotifyDelete { file_identity } => match parsed_identity(file_identity@) {
            Some(p) => action matches CfapiAction::Delete { path } && path@ == p,
            None => action is Ignore,
        },
        CfapiEvent::NotifyRename { file_identity, target_path } => match (parsed_identity(file_identity@), parse_outcome(target_path@)) {
            (Some(p), Ok(t)) => action matches CfapiAction::Rename { from, to } && from@ == p && to@ == t,
            _ => action is Ignore,
        },
    }
}

/// Decides what a sync-root callback asks of the client: hydrations and
/// populations resolve the identity (`root` is the sync root) and fail or
/// answer empty when it does not parse; closes upload the cached copy;
/// deletes and renames are forwarded when their paths parse.
pub fn cfapi_action(event: &CfapiEvent) -> (action: CfapiAction)
    ensures
        action_for_event(*event, action),
{
    match event {
        CfapiEvent::FetchData { file_identity, file_offset, required_length, .. } => {
            match remote_path_from_identity(file_identity.as_slice()) {
                Some(path) => CfapiAction::Hydrate {
                    path,
                    range: fetch_data_range(*file_offset, *required_length),
                    offset: *file_offset,
                },
                None => CfapiAction::FailFetch { status: STATUS_UNSUCCESSFUL },
            }
        },
        CfapiEvent::FetchPlaceholders { file_identity, .. } => {
            match remote_path_from_identity(file_identity.as_slice()) {
                Some(parent) => CfapiAction::Populate { parent },
                None => CfapiAction::PopulateNothing,
            }
        },
        CfapiEvent::NotifyFileClose { file_identity } => match parse_identity(file_identity.as_slice()) {
            Some(path) => CfapiAction::UploadCached { path },
            None => CfapiAction::Ignore,
        },
        CfapiEvent::NotifyDelete { file_identity } => match parse_identity(file_identity.as_slice()) {
            Some(path) => CfapiAction::Delete { path },
            None => CfapiAction::Ignore,
        },
        CfapiEvent::NotifyRename { file_identity, target_path } => match parse_identity(file_identity.as_slice()) {
            Some(from) => match RemotePath::parse(target_path.as_str()) {
                Ok(to) => CfapiAction::Rename { from, to },
                Err(_) => CfapiAction::Ignore,
            },
            None => CfapiAction::Ignore,
        },
    }
}

/// The name of a listed item relative to the folder being populated: the
/// whole path under the root, else the path without `parent/` in front when
/// it starts so.
pub open spec fn relative_placeholder_name(parent: Seq<char>, path: Seq<char>) -> Seq<char> {
    if parent.len() == 0 {
        path
    } else {
        let prefix = parent.push('/');
        if prefix.len() <= path.len() && path.take(prefix.len() as int) == prefix {
            path.skip(prefix.len() as int)
        } else {
            path
        }
    }
}

/// The name of `path` relative to `parent`.
pub fn placeholder_relative_name(parent: &str, path: &str) -> (r: String)
    ensures
        r@ == relative_placeholder_name(parent@, path@),
{
    let parent_chars = chars_of(parent);
    let path_chars = chars_of(path);
    if parent_chars.len() == 0 {
        return string_from_chars(path_chars.as_slice());
    }
    let mut prefix = parent_chars.clone();
    prefix.push('/');
    proof {
        assert(prefix@ == parent@.push('/'));
    }
    if chars_start_with(path_chars.as_slice(), prefix.as_slice()) {
        let k = prefix.len();
        let mut rest: Vec<char> = Vec::new();
        for i in k..path_chars.len()
            invariant
                k <= path_chars@.len(),
                rest@ == path_chars@.subrange(k as int, i as int),
        {
            rest.push(path_chars[i]);
            proof {
                assert(path_chars@.subrange(k as int, i + 1) == path_chars@.subrange(k as int, i as int).push(path_chars@[i as int]));
            }
        }
        proof {
            assert(path_chars@.subrange(k as int, path_chars@.len() as int) == path_chars@.skip(k as int));
        }
        string_from_chars(rest.as_slice())
    } else {
        string_from_chars(path_chars.as_slice())
    }
}

/// Whether `placeholder` describes the listed item `metadata` under `parent`:
/// its name is relative to `parent` and its identity is its path's bytes.
pub open spec fn placeholder_describes(parent: Seq<char>, metadata: RemoteMetadata, placeholder: PlaceholderMetadata) -> bool {
    &&& placeholder.relative_name@ == relative_placeholder_name(parent, metadata.path@)
    &&& placeholder.identity@ == encode_utf8(metadata.path@)
    &&& placeholder.remote == metadata
}

/// The placeholders that answer the population of `parent`, one per listed
/// entry, in listing order.
pub fn placeholders_for_listing(parent: &RemotePath, entries: Vec<RemoteEntry>) -> (out: Vec<PlaceholderMetadata>)
    ensures
        out@.len() == entries@.len(),
        forall|i: int| 0 <= i < entries@.len() ==> placeholder_describes(parent@, entries@[i].metadata, #[trigger] out@[i]),
{
    let mut out: Vec<PlaceholderMetadata> = Vec::new();
    let mut rest = entries;
    let ghost original = rest@;
    let n = rest.len();
    let mut i: usize = 0;
    while i < n
        invariant
            n == original.len(),
            i <= n,
            rest@ == original.skip(i as int),
            out@.len() == i,
            forall|j: int| 0 <= j < i ==> placeholder_describes(parent@, original[j].metadata, #[trigger] out@[j]),
        decreases n - i,
    {
        let entry = rest.remove(0);
        proof {
            assert(entry == original[i as int]);
            assert(rest@ =~= original.skip(i + 1));
        }
        let metadata = entry.metadata;
        let relative_name = placeholder_relative_name(parent.as_str(), metadata.path.as_str());
        let identity = vstd::slice::slice_to_vec(metadata.path.as_str().as_bytes());
        out.push(PlaceholderMetadata { relative_name, remote: metadata, identity });
        i = i + 1;
    }
    out
}

/// A UTF-16 code unit sequence for one character.
pub open spec fn utf16_units(c: char) -> Seq<u16> {
    let v = (c as u32) as int;
    if v < 0x10000 {
        seq![v as u16]
    } else {
        seq![(0xD800 + (v - 0x10000) / 0x400) as u16, (0xDC00 + (v - 0x10000) % 0x400) as u16]
    }
}

/// The UTF-16 encoding of a text.
pub open spec fn utf16_of(s: Seq<char>) -> Seq<u16>
    decreases s.len(),
{
    if s.len() == 0 {
        Seq::empty()
    } else {
        utf16_of(s.drop_last()) + utf16_units(s.last())
    }
}

/// The UTF-16 encoding of `value` followed by a NUL unit, as Windows APIs
/// take strings.
pub fn wide(value: &str) -> (out: Vec<u16>)
    ensures
        out@ == utf16_of(value@).push(0u16),
{
    let chars = chars_of(value);
    let mut out: Vec<u16> = Vec::new();
    for i in 0..chars.len()
        invariant
            out@ == utf16_of(chars@.take(i as int)),
    {
        let c = chars[i];
        let v = c as u32;
        proof {
            assert(chars@.take(i + 1).drop_last() == chars@.take(i as int));
            assert(chars@.take(i + 1).last() == c);
            assert(v <= 0x10FFFF) by {
                vstd::utf8::char_is_scalar(c);
            }
        }
        if v < 0x10000 {
            out.push(v as u16);
        } else {
            let w = v - 0x10000;
            out.push((0xD800 + w / 0x400) as u16);
            out.push((0xDC00 + w % 0x400) as u16);
        }
        proof {
            assert(out@ =~= utf16_of(chars@.take(i as int)) + utf16_units(c));
        }
    }
    proof {
        assert(chars@.take(chars@.len() as int) == chars@);
    }
    out.push(0);
    out
}

/// The NUL-terminated UTF-16 form of a local path.
pub fn wide_path(value: &str) -> (out: Vec<u16>)
    ensures
        out@ == utf16_of(value@).push(0u16),
{
    wide(value)
}

} // verus!
