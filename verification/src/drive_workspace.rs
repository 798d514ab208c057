//! How Google Workspace documents appear in a drive: as Office files in
//! native-apps mode or as `.url` shortcuts in browser mode, with ordinary
//! files whose names would collide kept apart by escaping their dot.
use vstd::prelude::*;
use crate::common::ProviderKind;
use crate::drive_names::{decode_path_component, decoded_component, encode_path_component, encoded_component};
use crate::path::{parse_outcome, RemotePath};
use crate::storage::{ByteRange, RemoteMetadata, StorageError};
use crate::text::{ascii_lower_seq, chars_end_with, chars_of, chars_to_ascii_lower, str_eq, string_from_chars};

verus! {

broadcast use vstd::string::group_string_axioms;

/// How Workspace documents are opened.
#[derive(Debug, Clone, Copy, PartialEq, Eq, Structural)]
pub enum WorkspaceOpenMode {
    NativeApps,
    Browser,
}

impl Default for WorkspaceOpenMode {
    fn default() -> (m: WorkspaceOpenMode)
        ensures
            m == WorkspaceOpenMode::NativeApps,
    {
        WorkspaceOpenMode::NativeApps
    }
}

/// The Workspace document kinds that are exported as Office files.
#[derive(Debug, Clone, Copy, PartialEq, Eq, Structural)]
pub enum WorkspaceFormat {
    Document,
    Spreadsheet,
    Presentation,
}

/// The Google MIME type of a Workspace kind.
pub open spec fn google_mime(f: WorkspaceFormat) -> Seq<char> {
    match f {
        WorkspaceFormat::Document => "application/vnd.google-apps.document"@,
        WorkspaceFormat::Spreadsheet => "application/vnd.google-apps.spreadsheet"@,
        WorkspaceFormat::Presentation => "application/vnd.google-apps.presentation"@,
    }
}

/// The Office MIME type a Workspace kind is exported as.
pub open spec fn office_mime(f: WorkspaceFormat) -> Seq<char> {
    match f {
        WorkspaceFormat::Document => "application/vnd.openxmlformats-officedocument.wordprocessingml.document"@,
        WorkspaceFormat::Spreadsheet => "application/vnd.openxmlformats-officedocument.spreadsheetml.sheet"@,
        WorkspaceFormat::Presentation => "application/vnd.openxmlformats-officedocument.presentationml.presentation"@,
    }
}

/// The file extension of the Office export of a Workspace kind.
pub open spec fn office_extension(f: WorkspaceFormat) -> Seq<char> {
    match f {
        WorkspaceFormat::Document => ".docx"@,
        WorkspaceFormat::Spreadsheet => ".xlsx"@,
        WorkspaceFormat::Presentation => ".pptx"@,
    }
}

impl WorkspaceFormat {
    /// The Google MIME type.
    pub fn google_mime_type(self) -> (s: &'static str)
        ensures
            s@ == google_mime(self),
    {
        match self {
            WorkspaceFormat::Document => "application/vnd.google-apps.document",
            WorkspaceFormat::Spreadsheet => "application/vnd.google-apps.spreadsheet",
            WorkspaceFormat::Presentation => "application/vnd.google-apps.presentation",
        }
    }

    /// The Office MIME type of the export.
    pub fn office_mime_type(self) -> (s: &'static str)
        ensures
            s@ == office_mime(self),
    {
        match self {
            WorkspaceFormat::Document => "application/vnd.openxmlformats-officedocument.wordprocessingml.document",
            WorkspaceFormat::Spreadsheet => "application/vnd.openxmlformats-officedocument.spreadsheetml.sheet",
            WorkspaceFormat::Presentation => "application/vnd.openxmlformats-officedocument.presentationml.presentation",
        }
    }

    /// The extension of the export.
    pub fn extension(self) -> (s: &'static str)
        ensures
            s@ == office_extension(self),
    {
        match self {
            WorkspaceFormat::Document => ".docx",
            WorkspaceFormat::Spreadsheet => ".xlsx",
            WorkspaceFormat::Presentation => ".pptx",
        }
    }
}

/// The Workspace kind of a MIME type, if it is one.
pub open spec fn workspace_format_of(mime: Seq<char>) -> Option<WorkspaceFormat> {
    if mime == google_mime(WorkspaceFormat::Document) {
        Some(WorkspaceFormat::Document)
    } else if mime == google_mime(WorkspaceFormat::Spreadsheet) {
        Some(WorkspaceFormat::Spreadsheet)
    } else if mime == google_mime(WorkspaceFormat::Presentation) {
        Some(WorkspaceFormat::Presentation)
    } else {
        None
    }
}

/// The Workspace kind of a MIME type.
pub fn workspace_format(mime_type: &str) -> (r: Option<WorkspaceFormat>)
    ensures
        r == workspace_format_of(mime_type@),
{
    if str_eq(mime_type, "application/vnd.google-apps.document") {
        Some(WorkspaceFormat::Document)
    } else if str_eq(mime_type, "application/vnd.google-apps.spreadsheet") {
        Some(WorkspaceFormat::Spreadsheet)
    } else if str_eq(mime_type, "application/vnd.google-apps.presentation") {
        Some(WorkspaceFormat::Presentation)
    } else {
        None
    }
}

/// The extension a Workspace document shows in a mode.
pub open spec fn virtual_extension(f: WorkspaceFormat, mode: WorkspaceOpenMode) -> Seq<char> {
    match mode {
        WorkspaceOpenMode::NativeApps => office_extension(f),
        WorkspaceOpenMode::Browser => ".url"@,
    }
}

/// Whether `s` ends with `suffix`.
pub open spec fn ends_with(s: Seq<char>, suffix: Seq<char>) -> bool {
    suffix.len() <= s.len() && s.skip(s.len() - suffix.len()) == suffix
}

/// The virtual extension that an ordinary file's name would be mistaken for.
pub open spec fn colliding_extension(lower: Seq<char>, mode: WorkspaceOpenMode) -> Option<Seq<char>> {
    match mode {
        WorkspaceOpenMode::NativeApps => if ends_with(lower, ".docx"@) {
            Some(".docx"@)
        } else if ends_with(lower, ".xlsx"@) {
            Some(".xlsx"@)
        } else if ends_with(lower, ".pptx"@) {
            Some(".pptx"@)
        } else {
            None
        },
        WorkspaceOpenMode::Browser => if ends_with(lower, ".url"@) {
            Some(".url"@)
        } else {
            None
        },
    }
}

/// The name a Drive file is listed under.
pub open spec fn virtual_name(name: Seq<char>, mime: Seq<char>, mode: WorkspaceOpenMode) -> Seq<char> {
    let encoded = encoded_component(name);
    match workspace_format_of(mime) {
        Some(f) => encoded + virtual_extension(f, mode),
        None => match colliding_extension(ascii_lower_seq(encoded), mode) {
            Some(ext) => {
                let p = encoded.len() - ext.len();
                encoded.take(p) + "%2E"@ + encoded.skip(p + 1)
            },
            None => encoded,
        },
    }
}

/// The name under which a Drive file with `name` and `mime_type` is listed.
pub fn virtual_file_name(name: &str, mime_type: &str, mode: WorkspaceOpenMode) -> (r: String)
    ensures
        r@ == virtual_name(name@, mime_type@, mode),
{
    let mut encoded = encode_path_component(name);
    if let Some(format) = workspace_format(mime_type) {
        let extension = match mode {
            WorkspaceOpenMode::NativeApps => format.extension(),
            WorkspaceOpenMode::Browser => ".url",
        };
        encoded.append(extension);
        return encoded;
    }
    let chars = chars_of(encoded.as_str());
    let lower = chars_to_ascii_lower(chars.as_slice());
    let collision: Option<&str> = match mode {
        WorkspaceOpenMode::NativeApps => {
            let docx = chars_of(".docx");
            let xlsx = chars_of(".xlsx");
            let pptx = chars_of(".pptx");
            if chars_end_with(lower.as_slice(), docx.as_slice()) {
                Some(".docx")
            } else if chars_end_with(lower.as_slice(), xlsx.as_slice()) {
                Some(".xlsx")
            } else if chars_end_with(lower.as_slice(), pptx.as_slice()) {
                Some(".pptx")
            } else {
                None
            }
        },
        WorkspaceOpenMode::Browser => {
            let url = chars_of(".url");
            if chars_end_with(lower.as_slice(), url.as_slice()) {
                Some(".url")
            } else {
                None
            }
        },
    };
    proof {
        reveal_strlit(".docx");
        reveal_strlit(".xlsx");
        reveal_strlit(".pptx");
        reveal_strlit(".url");
        assert(lower@.len() == chars@.len());
        match colliding_extension(lower@, mode) {
            Some(e) => {
                assert(collision matches Some(x) && x@ == e);
                assert(e.len() > 0 && e.len() <= chars@.len());
            },
            None => {
                assert(collision is None);
            },
        }
    }
    match collision {
        Some(extension) => {
            let ext = chars_of(extension);
            let p = chars.len() - ext.len();
            let mut out: Vec<char> = Vec::new();
            for i in 0..p
                invariant
                    p <= chars@.len(),
                    out@ == chars@.take(i as int),
            {
                out.push(chars[i]);
                proof {
                    assert(chars@.take(i + 1) == chars@.take(i as int).push(chars@[i as int]));
                }
            }
            out.push('%');
            out.push('2');
            out.push('E');
            let n = chars.len();
            let ghost mid = out@;
            for i in p + 1..n
                invariant
                    p < n == chars@.len(),
                    mid == chars@.take(p as int) + seq!['%', '2', 'E'],
                    out@ == mid + chars@.skip(p + 1).take(i - p - 1),
            {
                out.push(chars[i]);
                proof {
                    assert(chars@.skip(p + 1).take(i + 1 - p - 1) == chars@.skip(p + 1).take(i - p - 1).push(chars@[i as int]));
                }
            }
            proof {
                reveal_strlit("%2E");
                assert(chars@.skip(p + 1).take(n - p - 1) == chars@.skip(p + 1));
                assert(lower@.len() == chars@.len());
            }
            string_from_chars(out.as_slice())
        },
        None => encoded,
    }
}

} // verus!

verus! {

/// Which remote files a path component may name.
#[derive(Debug, Clone, Copy, PartialEq, Eq, Structural)]
pub enum WorkspaceSelector {
    /// Only ordinary files.
    Binary,
    /// Any file, Workspace documents included.
    Any,
    /// Only Workspace documents of this kind.
    Format(WorkspaceFormat),
}

/// The error for a component that is not a valid encoding.
pub open spec fn invalid_component_error(value: Seq<char>, e: StorageError) -> bool {
    e matches StorageError::Provider { provider: p, message: m } && p == ProviderKind::GoogleDrive
        && m@ == "invalid encoded Google Drive path component: "@ + value
}

/// The result of decoding `value`.
pub open spec fn decode_result(value: Seq<char>, r: Result<String, StorageError>) -> bool {
    match decoded_component(value) {
        Some(name) => r matches Ok(s) && s@ == name,
        None => r matches Err(e) && invalid_component_error(value, e),
    }
}

/// Decodes a component, reporting an invalid encoding as a provider error.
pub fn decode_component(value: &[char]) -> (r: Result<String, StorageError>)
    ensures
        decode_result(value@, r),
{
    let text = string_from_chars(value);
    match decode_path_component(text.as_str()) {
        Some(name) => Ok(name),
        None => {
            let mut message = String::from_str("invalid encoded Google Drive path component: ");
            message.append(text.as_str());
            Err(StorageError::Provider { provider: ProviderKind::GoogleDrive, message })
        },
    }
}

/// The Workspace kind whose Office extension ends `lower`, first by kind.
pub open spec fn office_suffix_format(lower: Seq<char>) -> Option<WorkspaceFormat> {
    if ends_with(lower, ".docx"@) {
        Some(WorkspaceFormat::Document)
    } else if ends_with(lower, ".xlsx"@) {
        Some(WorkspaceFormat::Spreadsheet)
    } else if ends_with(lower, ".pptx"@) {
        Some(WorkspaceFormat::Presentation)
    } else {
        None
    }
}

/// The remote name and selector that a listed component stands for.
pub open spec fn remote_name_result(c: Seq<char>, mode: WorkspaceOpenMode, r: Result<(String, WorkspaceSelector), StorageError>) -> bool {
    let lower = ascii_lower_seq(c);
    let (stem, selector) = if mode == WorkspaceOpenMode::NativeApps && office_suffix_format(lower) is Some {
        let f = office_suffix_format(lower)->0;
        (c.take(c.len() - office_extension(f).len()), WorkspaceSelector::Format(f))
    } else if mode == WorkspaceOpenMode::Browser && ends_with(lower, ".url"@) {
        (c.take(c.len() - 4), WorkspaceSelector::Any)
    } else {
        (c, WorkspaceSelector::Binary)
    };
    match decoded_component(stem) {
        Some(name) => r matches Ok((s, sel)) && s@ == name && sel == selector,
        None => r matches Err(e) && invalid_component_error(stem, e),
    }
}

/// Copies the first `n` characters.
fn prefix(chars: &Vec<char>, n: usize) -> (out: Vec<char>)
    requires
        n <= chars@.len(),
    ensures
        out@ == chars@.take(n as int),
{
    let mut out: Vec<char> = Vec::new();
    for i in 0..n
        invariant
            n <= chars@.len(),
            out@ == chars@.take(i as int),
    {
        out.push(chars[i]);
        proof {
            assert(chars@.take(i + 1) == chars@.take(i as int).push(chars@[i as int]));
        }
    }
    out
}

/// The remote name a listed component stands for, and which remote files it
/// may name: an Office extension in native-apps mode or `.url` in browser mode
/// marks a Workspace document.
pub fn remote_file_name(component: &str, mode: WorkspaceOpenMode) -> (r: Result<(String, WorkspaceSelector), StorageError>)
    ensures
        remote_name_result(component@, mode, r),
{
    let chars = chars_of(component);
    let lower = chars_to_ascii_lower(chars.as_slice());
    proof {
        reveal_strlit(".docx");
        reveal_strlit(".xlsx");
        reveal_strlit(".pptx");
        reveal_strlit(".url");
        assert(lower@.len() == chars@.len());
    }
    match mode {
        WorkspaceOpenMode::NativeApps => {
            let docx = chars_of(".docx");
            let xlsx = chars_of(".xlsx");
            let pptx = chars_of(".pptx");
            let found = if chars_end_with(lower.as_slice(), docx.as_slice()) {
                Some(WorkspaceFormat::Document)
            } else if chars_end_with(lower.as_slice(), xlsx.as_slice()) {
                Some(WorkspaceFormat::Spreadsheet)
            } else if chars_end_with(lower.as_slice(), pptx.as_slice()) {
                Some(WorkspaceFormat::Presentation)
            } else {
                None
            };
            assert(found == office_suffix_format(lower@));
            if let Some(format) = found {
                let ext = chars_of(format.extension());
                let stem = prefix(&chars, chars.len() - ext.len());
                let name = decode_component(stem.as_slice())?;
                return Ok((name, WorkspaceSelector::Format(format)));
            }
        },
        WorkspaceOpenMode::Browser => {
            let url = chars_of(".url");
            if chars_end_with(lower.as_slice(), url.as_slice()) {
                let stem = prefix(&chars, chars.len() - 4);
                let name = decode_component(stem.as_slice())?;
                return Ok((name, WorkspaceSelector::Any));
            }
        },
    }
    proof {
        assert(chars@.take(chars@.len() as int) == chars@);
    }
    let name = decode_component(chars.as_slice())?;
    Ok((name, WorkspaceSelector::Binary))
}

/// The remote name for a destination component: the virtual extension of a
/// Workspace document of kind `format` is dropped before decoding.
pub open spec fn destination_result(c: Seq<char>, format: Option<WorkspaceFormat>, mode: WorkspaceOpenMode, r: Result<String, StorageError>) -> bool {
    match format {
        Some(f) if ends_with(ascii_lower_seq(c), virtual_extension(f, mode)) => decode_result(c.take(c.len() - virtual_extension(f, mode).len()), r),
        _ => decode_result(c, r),
    }
}

/// The remote name to give a file written or renamed to `component`.
pub fn remote_destination_name(component: &str, format: Option<WorkspaceFormat>, mode: WorkspaceOpenMode) -> (r: Result<String, StorageError>)
    ensures
        destination_result(component@, format, mode, r),
{
    let chars = chars_of(component);
    if let Some(f) = format {
        let extension = match mode {
            WorkspaceOpenMode::NativeApps => f.extension(),
            WorkspaceOpenMode::Browser => ".url",
        };
        let ext = chars_of(extension);
        let lower = chars_to_ascii_lower(chars.as_slice());
        proof {
            assert(lower@.len() == chars@.len());
        }
        if chars_end_with(lower.as_slice(), ext.as_slice()) {
            let stem = prefix(&chars, chars.len() - ext.len());
            return decode_component(stem.as_slice());
        }
    }
    decode_component(chars.as_slice())
}

/// `value` with `\` and `'` escaped by a backslash, for a Drive query literal.
pub open spec fn escaped_literal(value: Seq<char>) -> Seq<char>
    decreases value.len(),
{
    if value.len() == 0 {
        Seq::empty()
    } else {
        escaped_literal(value.drop_last()) + if value.last() == '\\' {
            seq!['\\', '\\']
        } else if value.last() == '\'' {
            seq!['\\', '\'']
        } else {
            seq![value.last()]
        }
    }
}

/// Escapes a value for use inside a quoted Drive query literal.
pub fn escape_query_literal(value: &str) -> (r: String)
    ensures
        r@ == escaped_literal(value@),
{
    let chars = chars_of(value);
    let n = chars.len();
    let mut out: Vec<char> = Vec::new();
    for i in 0..n
        invariant
            n == chars@.len(),
            out@ == escaped_literal(chars@.take(i as int)),
    {
        let c = chars[i];
        proof {
            assert(chars@.take(i + 1).drop_last() == chars@.take(i as int));
        }
        if c == '\\' {
            out.push('\\');
            out.push('\\');
        } else if c == '\'' {
            out.push('\\');
            out.push('\'');
        } else {
            out.push(c);
        }
    }
    proof {
        assert(chars@.take(n as int) == chars@);
    }
    string_from_chars(out.as_slice())
}

/// The remote path of a listed Drive file: its listed name under `prefix`.
pub fn entry_path(prefix_path: &RemotePath, name: &str, mime_type: &str, mode: WorkspaceOpenMode) -> (r: Result<RemotePath, StorageError>)
    ensures
        ({
            let n = virtual_name(name@, mime_type@, mode);
            let candidate = if prefix_path@.len() == 0 { n } else { prefix_path@ + seq!['/'] + n };
            match parse_outcome(candidate) {
                Ok(p) => r matches Ok(path) && path@ == p,
                Err(issue) => r matches Err(StorageError::Provider { provider: pk, message: m })
                    && pk == ProviderKind::GoogleDrive && m@ == crate::path::path_issue_text(candidate, issue),
            }
        }),
{
    let listed = virtual_file_name(name, mime_type, mode);
    let mut candidate = String::new();
    if !prefix_path.as_str().is_empty() {
        candidate.append(prefix_path.as_str());
        candidate.append("/");
    }
    candidate.append(listed.as_str());
    proof {
        reveal_strlit("/");
        if prefix_path@.len() == 0 {
            assert(candidate@ == listed@);
        } else {
            assert(candidate@ == prefix_path@ + seq!['/'] + listed@);
        }
    }
    match RemotePath::parse(candidate.as_str()) {
        Ok(p) => Ok(p),
        Err(e) => {
            let message = e.message();
            proof {
                assert(crate::error::bifrost_error_text(e) =~= crate::path::path_issue_text(candidate@, parse_outcome(candidate@)->Err_0));
            }
            Err(StorageError::Provider { provider: ProviderKind::GoogleDrive, message })
        },
    }
}

} // verus!

verus! {

/// A file as the Drive API describes it. Times are RFC 3339 text.
pub struct DriveFile {
    pub id: String,
    pub name: String,
    pub mime_type: String,
    pub size: Option<String>,
    pub modified_time: Option<String>,
    pub md5_checksum: Option<String>,
    pub version: Option<String>,
    pub web_view_link: Option<String>,
}

/// The MIME type of Drive folders.
pub open spec fn folder_mime() -> Seq<char> {
    "application/vnd.google-apps.folder"@
}

/// The metadata of a Drive file listed at `path`: Workspace documents have
/// no size (their export size is unknown), the entity tag is the version or
/// else the checksum.
pub fn drive_metadata(file: DriveFile, path: RemotePath) -> (m: RemoteMetadata)
    ensures
        m.path == path,
        m.is_directory == (file.mime_type@ == folder_mime()),
        m.size_bytes == if workspace_format_of(file.mime_type@) is Some {
            None
        } else {
            match file.size {
                Some(s) => crate::text::parsed_u64(s@),
                None => None,
            }
        },
        crate::sync_run::opt_text(m.etag) == match file.version {
            Some(v) => Some(v@),
            None => crate::sync_run::opt_text(file.md5_checksum),
        },
        crate::sync_run::opt_text(m.modified_at) == crate::sync_run::opt_text(file.modified_time),
{
    let is_workspace = workspace_format(file.mime_type.as_str()).is_some();
    let is_directory = str_eq(file.mime_type.as_str(), "application/vnd.google-apps.folder");
    let size_bytes = if is_workspace {
        None
    } else {
        match &file.size {
            Some(s) => {
                let digits = chars_of(s.as_str());
                crate::text::parse_u64(digits.as_slice())
            },
            None => None,
        }
    };
    let etag = match file.version {
        Some(v) => Some(v),
        None => file.md5_checksum,
    };
    RemoteMetadata { path, is_directory, size_bytes, etag, modified_at: file.modified_time }
}

/// The part of an exported document that a read range selects: the range is
/// clipped to the content, and an empty or reversed range is refused.
pub fn workspace_range(content: &[u8], range: Option<ByteRange>) -> (r: Result<Vec<u8>, StorageError>)
    ensures
        match range {
            None => r matches Ok(v) && v@ == content@,
            Some(b) => if b.start < b.end {
                let len = content@.len() as int;
                let s = if (b.start as int) < len { b.start as int } else { len };
                let e = if (b.end as int) < len { b.end as int } else { len };
                r matches Ok(v) && v@ == content@.subrange(s, if e > s { e } else { s })
            } else {
                r matches Err(StorageError::Provider { provider: p, message: m }) && p == ProviderKind::GoogleDrive
                    && m@ == crate::storage::empty_range_text()
            },
        },
{
    let n = content.len();
    let (s, e) = match range {
        None => (0, n),
        Some(b) => {
            if b.start >= b.end {
                return Err(StorageError::Provider {
                    provider: ProviderKind::GoogleDrive,
                    message: String::from_str("read range must have a positive length"),
                });
            }
            let s: usize = if (b.start as u128) < (n as u128) { b.start as usize } else { n };
            let e: usize = if (b.end as u128) < (n as u128) { b.end as usize } else { n };
            (s, if e > s { e } else { s })
        },
    };
    let mut out: Vec<u8> = Vec::new();
    for i in s..e
        invariant
            s <= e <= n == content@.len(),
            out@ == content@.subrange(s as int, i as int),
    {
        out.push(content[i]);
        proof {
            assert(content@.subrange(s as int, i + 1) == content@.subrange(s as int, i as int).push(content@[i as int]));
        }
    }
    proof {
        if range is None {
            assert(content@.subrange(0, n as int) == content@);
        }
    }
    Ok(out)
}

/// Whether `application/x-www-form-urlencoded` keeps a byte as it is.
pub open spec fn form_unreserved(b: u8) -> bool {
    (0x30 <= b <= 0x39) || (0x41 <= b <= 0x5A) || (0x61 <= b <= 0x7A) || b == 0x2A || b == 0x2D || b == 0x2E || b == 0x5F
}

/// How `application/x-www-form-urlencoded` writes a byte: as it is, `+`
/// for a space, otherwise `%` and two upper-case hexadecimal digits.
pub open spec fn form_byte(b: u8) -> Seq<char> {
    if form_unreserved(b) {
        seq![b as char]
    } else if b == 0x20 {
        seq!['+']
    } else {
        seq!['%', crate::drive_names::hex_upper(b as int / 16), crate::drive_names::hex_upper(b as int % 16)]
    }
}

/// Bytes written as `application/x-www-form-urlencoded` text.
pub open spec fn form_encoded(bytes: Seq<u8>) -> Seq<char>
    decreases bytes.len(),
{
    if bytes.len() == 0 {
        Seq::empty()
    } else {
        form_encoded(bytes.drop_last()) + form_byte(bytes.last())
    }
}

/// The link a browser shortcut to a Workspace document opens: the
/// document's web link, or the Drive link that opens it by id.
pub open spec fn shortcut_link(file: DriveFile) -> Seq<char> {
    match file.web_view_link {
        Some(l) => l@,
        None => "https://drive.google.com/open?id="@ + form_encoded(vstd::utf8::encode_utf8(file.id@)),
    }
}

/// The text of a browser shortcut to a Workspace document.
pub open spec fn shortcut_text(file: DriveFile) -> Seq<char> {
    "[InternetShortcut]\r\nURL="@ + shortcut_link(file) + "\r\n"@
}

/// The content of the browser shortcut (an Internet shortcut file) that
/// stands for a Workspace document in browser mode.
pub fn workspace_browser_shortcut(file: &DriveFile) -> (r: Vec<u8>)
    ensures
        r@ == vstd::utf8::encode_utf8(shortcut_text(*file)),
{
    let mut text = String::from_str("[InternetShortcut]\r\nURL=");
    let ghost head = text@;
    match &file.web_view_link {
        Some(link) => text.append(link.as_str()),
        None => {
            text.append("https://drive.google.com/open?id=");
            let bytes = file.id.as_str().as_bytes();
            let ghost start = text@;
            proof {
                assert(bytes@ == vstd::utf8::encode_utf8(file.id@));
                assert(bytes@.take(0) =~= Seq::<u8>::empty());
            }
            for i in 0..bytes.len()
                invariant
                    text@ == start + form_encoded(bytes@.take(i as int)),
            {
                let b = bytes[i];
                let ghost before = text@;
                if (0x30 <= b && b <= 0x39) || (0x41 <= b && b <= 0x5A) || (0x61 <= b && b <= 0x7A) || b == 0x2A || b == 0x2D || b == 0x2E
                    || b == 0x5F {
                    let c = crate::text::char_from_ascii_code(b as u32);
                    crate::text::push_char(&mut text, c);
                } else if b == 0x20 {
                    crate::text::push_char(&mut text, '+');
                } else {
                    crate::text::push_char(&mut text, '%');
                    let high = crate::drive_names::hex_digit((b / 16) as u32);
                    crate::text::push_char(&mut text, high);
                    let low = crate::drive_names::hex_digit((b % 16) as u32);
                    crate::text::push_char(&mut text, low);
                }
                proof {
                    assert(bytes@.take(i + 1).drop_last() =~= bytes@.take(i as int));
                    assert(bytes@.take(i + 1).last() == b);
                    assert(text@ =~= before + form_byte(b));
                }
            }
            proof {
                assert(bytes@.take(bytes@.len() as int) =~= bytes@);
            }
        },
    }
    text.append("\r\n");
    proof {
        assert(text@ =~= shortcut_text(*file));
    }
    let out = vstd::slice::slice_to_vec(text.as_str().as_bytes());
    out
}

/// The Google MIME types of Documents, Sheets and Slides, and only they,
/// are Workspace kinds, each recognised as its own kind; in native-apps mode
/// a Workspace file is listed as its Office export (`.docx`, `.xlsx`,
/// `.pptx`), in browser mode as a `.url` shortcut.
pub proof fn lemma_workspace_kinds_are_recognised(f: WorkspaceFormat, mime: Seq<char>, name: Seq<char>)
    ensures
        workspace_format_of(google_mime(f)) == Some(f),
        workspace_format_of(mime) matches Some(g) ==> mime == google_mime(g),
        workspace_format_of("application/vnd.google-apps.document"@) == Some(WorkspaceFormat::Document),
        workspace_format_of("application/vnd.google-apps.spreadsheet"@) == Some(WorkspaceFormat::Spreadsheet),
        workspace_format_of("application/vnd.google-apps.presentation"@) == Some(WorkspaceFormat::Presentation),
        office_extension(WorkspaceFormat::Document) == ".docx"@,
        office_extension(WorkspaceFormat::Spreadsheet) == ".xlsx"@,
        office_extension(WorkspaceFormat::Presentation) == ".pptx"@,
        virtual_name(name, google_mime(f), WorkspaceOpenMode::NativeApps) == encoded_component(name) + office_extension(f),
        virtual_name(name, google_mime(f), WorkspaceOpenMode::Browser) == encoded_component(name) + ".url"@,
{
    reveal_strlit("application/vnd.google-apps.document");
    reveal_strlit("application/vnd.google-apps.spreadsheet");
    reveal_strlit("application/vnd.google-apps.presentation");
    assert("application/vnd.google-apps.document"@ != "application/vnd.google-apps.spreadsheet"@) by {
        assert("application/vnd.google-apps.document"@[28] != "application/vnd.google-apps.spreadsheet"@[28]);
    }
    assert("application/vnd.google-apps.document"@ != "application/vnd.google-apps.presentation"@) by {
        assert("application/vnd.google-apps.document"@[28] != "application/vnd.google-apps.presentation"@[28]);
    }
    assert("application/vnd.google-apps.spreadsheet"@ != "application/vnd.google-apps.presentation"@) by {
        assert("application/vnd.google-apps.spreadsheet"@[28] != "application/vnd.google-apps.presentation"@[28]);
    }
}

} // verus!
