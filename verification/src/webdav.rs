//! WebDAV: where a remote path lives on the server, and how `PROPFIND`
//! answers are read: the entries of a `multistatus` document, relative to
//! the endpoint, and the quota that it reports.
use vstd::prelude::*;
use quick_xml::events::Event;
use XmlEvent::{Empty, End, Eof, Other, Start, Text};
use crate::common::ProviderKind;
use crate::path::{parse_outcome, path_issue_text, RemotePath};
use crate::storage::{RemoteEntry, RemoteMetadata, StorageCapacity, StorageError};
use crate::text::{
    chars_of, chars_start_with, digit_value, is_decimal_digit, parse_u64, parsed_u64, segments, split_segments,
    string_from_chars, unsigned_digits,
};
use crate::timestamps::{rfc2822_as_utc, rfc2822_utc_text};
use crate::urls::{extend_url_path, opt_view, parse_url, parsed_url, texts, url_with_segments, UrlParts};

verus! {

broadcast use vstd::string::group_string_axioms;

/// Why `str::parse::<u64>` refuses a text.
#[derive(Debug, Clone, Copy, PartialEq, Eq, Structural)]
pub enum IntErrorKind {
    Empty,
    InvalidDigit,
    PosOverflow,
}

/// How `std::num::ParseIntError` describes each kind.
pub open spec fn int_error_text(kind: IntErrorKind) -> Seq<char> {
    match kind {
        IntErrorKind::Empty => "cannot parse integer from empty string"@,
        IntErrorKind::InvalidDigit => "invalid digit found in string"@,
        IntErrorKind::PosOverflow => "number too large to fit in target type"@,
    }
}

/// Reading digits from left to right with `acc` read so far: the first
/// problem met, a character that is no digit or a value past `u64::MAX`.
pub open spec fn digits_problem(d: Seq<char>, acc: int) -> IntErrorKind
    decreases d.len(),
{
    if d.len() == 0 {
        IntErrorKind::InvalidDigit
    } else if !is_decimal_digit(d[0]) {
        IntErrorKind::InvalidDigit
    } else if acc * 10 + digit_value(d[0]) > u64::MAX {
        IntErrorKind::PosOverflow
    } else {
        digits_problem(d.drop_first(), acc * 10 + digit_value(d[0]))
    }
}

/// Why `str::parse::<u64>` refuses `s` (for a text it refuses): empty, a
/// lone sign, or the first problem among the digits.
pub open spec fn u64_error_kind(s: Seq<char>) -> IntErrorKind {
    if s.len() == 0 {
        IntErrorKind::Empty
    } else if s.len() == 1 && (s[0] == '+' || s[0] == '-') {
        IntErrorKind::InvalidDigit
    } else {
        digits_problem(unsigned_digits(s), 0)
    }
}

/// Why `str::parse::<u64>` refuses `s`, read as the standard library reads
/// it.
pub fn u64_error_kind_of(s: &[char]) -> (k: IntErrorKind)
    ensures
        k == u64_error_kind(s@),
{
    let n = s.len();
    if n == 0 {
        return IntErrorKind::Empty;
    }
    if n == 1 && (s[0] == '+' || s[0] == '-') {
        return IntErrorKind::InvalidDigit;
    }
    let start: usize = if s[0] == '+' { 1 } else { 0 };
    proof {
        assert(unsigned_digits(s@) =~= s@.subrange(start as int, n as int));
    }
    let mut acc: u64 = 0;
    let mut i: usize = start;
    while i < n
        invariant
            n == s@.len(),
            start <= i <= n,
            digits_problem(unsigned_digits(s@), 0) == digits_problem(s@.subrange(i as int, n as int), acc as int),
        decreases n - i,
    {
        let c = s[i];
        let ghost rest = s@.subrange(i as int, n as int);
        proof {
            assert(rest[0] == c);
            assert(rest.drop_first() =~= s@.subrange(i + 1, n as int));
        }
        if !(c >= '0' && c <= '9') {
            return IntErrorKind::InvalidDigit;
        }
        let digit: u64 = (c as u32 - 48) as u64;
        let next: u128 = acc as u128 * 10 + digit as u128;
        if next > 18446744073709551615u128 {
            return IntErrorKind::PosOverflow;
        }
        acc = next as u64;
        i = i + 1;
    }
    proof {
        assert(s@.subrange(n as int, n as int).len() == 0);
    }
    IntErrorKind::InvalidDigit
}

/// Whether a name's bytes spell an ASCII word.
pub open spec fn spells(name: Seq<u8>, word: Seq<char>) -> bool {
    name.len() == word.len() && forall|i: int| 0 <= i < name.len() ==> (name[i] as u32) == (word[i] as u32)
}

/// Whether a name's bytes spell an ASCII word.
pub fn name_spells(name: &[u8], word: &str) -> (r: bool)
    ensures
        r == spells(name@, word@),
{
    let w = chars_of(word);
    if name.len() != w.len() {
        return false;
    }
    let n = name.len();
    for i in 0..n
        invariant
            n == name@.len(),
            n == w@.len(),
            w@ == word@,
            forall|j: int| 0 <= j < i ==> (name@[j] as u32) == (w@[j] as u32),
    {
        if name[i] as u32 != w[i] as u32 {
            return false;
        }
    }
    true
}

/// Whether two byte strings are the same.
pub fn same_bytes(a: &[u8], b: &[u8]) -> (r: bool)
    ensures
        r == (a@ == b@),
{
    if a.len() != b.len() {
        return false;
    }
    let n = a.len();
    for i in 0..n
        invariant
            n == a@.len(),
            n == b@.len(),
            forall|j: int| 0 <= j < i ==> a@[j] == b@[j],
    {
        if a[i] != b[i] {
            return false;
        }
    }
    assert(a@ =~= b@);
    true
}

/// `s` without the `/` characters at its end.
pub open spec fn without_trailing_slashes(s: Seq<char>) -> Seq<char>
    decreases s.len(),
{
    if s.len() > 0 && s.last() == '/' {
        without_trailing_slashes(s.drop_last())
    } else {
        s
    }
}

/// `s` without the `/` characters at its start.
pub open spec fn without_leading_slashes(s: Seq<char>) -> Seq<char>
    decreases s.len(),
{
    if s.len() > 0 && s[0] == '/' {
        without_leading_slashes(s.drop_first())
    } else {
        s
    }
}

/// `s` without its trailing `/` characters.
pub fn trim_trailing_slashes(s: &[char]) -> (out: Vec<char>)
    ensures
        out@ == without_trailing_slashes(s@),
{
    let mut j: usize = s.len();
    proof {
        assert(s@.take(s@.len() as int) =~= s@);
    }
    while j > 0 && s[j - 1] == '/'
        invariant
            j <= s@.len(),
            without_trailing_slashes(s@.take(j as int)) == without_trailing_slashes(s@),
        decreases j,
    {
        proof {
            assert(s@.take(j as int).drop_last() =~= s@.take(j - 1));
        }
        j = j - 1;
    }
    let mut out: Vec<char> = Vec::new();
    for i in 0..j
        invariant
            j <= s@.len(),
            out@ == s@.take(i as int),
    {
        out.push(s[i]);
        proof {
            assert(s@.take(i + 1) =~= s@.take(i as int).push(s@[i as int]));
        }
    }
    out
}

/// `s` without its leading `/` characters.
pub fn trim_leading_slashes(s: &[char]) -> (out: Vec<char>)
    ensures
        out@ == without_leading_slashes(s@),
{
    let n = s.len();
    let mut i: usize = 0;
    proof {
        assert(s@.skip(0) =~= s@);
    }
    while i < n && s[i] == '/'
        invariant
            n == s@.len(),
            i <= n,
            without_leading_slashes(s@.skip(i as int)) == without_leading_slashes(s@),
        decreases n - i,
    {
        proof {
            assert(s@.skip(i as int).drop_first() =~= s@.skip(i + 1));
        }
        i = i + 1;
    }
    let mut out: Vec<char> = Vec::new();
    for k in i..n
        invariant
            n == s@.len(),
            i <= n,
            out@ == s@.subrange(i as int, k as int),
    {
        out.push(s[k]);
        proof {
            assert(s@.subrange(i as int, k + 1) =~= s@.subrange(i as int, k as int).push(s@[k as int]));
        }
    }
    proof {
        assert(s@.subrange(i as int, n as int) =~= s@.skip(i as int));
    }
    out
}

/// The path that an `href` names: the path of the URL where it is one,
/// else the text itself.
pub open spec fn href_path(href: Seq<char>) -> Seq<char> {
    match parsed_url(href) {
        Some(u) => u.path,
        None => href,
    }
}

/// A server path relative to the endpoint's path: the endpoint's path
/// (without trailing `/`) is cut off its front where it is there, and `/`
/// characters are cut off both ends.
pub open spec fn relative_to(path: Seq<char>, endpoint_path: Seq<char>) -> Seq<char> {
    let base = without_trailing_slashes(endpoint_path);
    let rest = if base.len() <= path.len() && path.take(base.len() as int) == base {
        path.skip(base.len() as int)
    } else {
        path
    };
    without_trailing_slashes(without_leading_slashes(rest))
}

/// What a `response` element of a `multistatus` document has told so far.
#[derive(Debug)]
pub struct DavDraft {
    pub href: Option<String>,
    pub display_name: Option<String>,
    pub size_bytes: Option<u64>,
    pub modified_at: Option<String>,
    pub etag: Option<String>,
    pub is_directory: bool,
}

/// A `response` element so far, as values.
pub struct DavDraftView {
    pub href: Option<Seq<char>>,
    pub display_name: Option<Seq<char>>,
    pub size_bytes: Option<u64>,
    pub modified_at: Option<Seq<char>>,
    pub etag: Option<Seq<char>>,
    pub is_directory: bool,
}

impl View for DavDraft {
    type V = DavDraftView;

    open spec fn view(&self) -> DavDraftView {
        DavDraftView {
            href: opt_view(self.href),
            display_name: opt_view(self.display_name),
            size_bytes: self.size_bytes,
            modified_at: opt_view(self.modified_at),
            etag: opt_view(self.etag),
            is_directory: self.is_directory,
        }
    }
}

/// A `response` element that has told nothing yet.
pub open spec fn empty_draft() -> DavDraftView {
    DavDraftView { href: None, display_name: None, size_bytes: None, modified_at: None, etag: None, is_directory: false }
}

/// A listed entry, as values.
pub struct EntryView {
    pub path: Seq<char>,
    pub is_directory: bool,
    pub size_bytes: Option<u64>,
    pub etag: Option<Seq<char>>,
    pub modified_at: Option<Seq<char>>,
}

/// The metadata of a listed entry, as values.
pub open spec fn metadata_view(m: RemoteMetadata) -> EntryView {
    EntryView {
        path: m.path@,
        is_directory: m.is_directory,
        size_bytes: m.size_bytes,
        etag: opt_view(m.etag),
        modified_at: opt_view(m.modified_at),
    }
}

/// A listed entry, as values.
pub open spec fn entry_view(e: RemoteEntry) -> EntryView {
    metadata_view(e.metadata)
}

/// Listed entries, as values.
pub open spec fn entry_views(v: Seq<RemoteEntry>) -> Seq<EntryView> {
    v.map_values(|e: RemoteEntry| entry_view(e))
}


/// The entry that a finished `response` element gives: none without an
/// `href` or where it names the endpoint itself, the entry at the path
/// relative to the endpoint, or why that path is refused.
pub open spec fn finish_view(d: DavDraftView, endpoint_path: Seq<char>) -> Result<Option<EntryView>, Seq<char>> {
    match d.href {
        None => Ok(None),
        Some(href) => {
            let relative = relative_to(href_path(href), endpoint_path);
            if relative.len() == 0 {
                Ok(None)
            } else {
                match parse_outcome(relative) {
                    Ok(p) => Ok(
                        Some(
                            EntryView {
                                path: p,
                                is_directory: d.is_directory,
                                size_bytes: d.size_bytes,
                                etag: d.etag,
                                modified_at: d.modified_at,
                            },
                        ),
                    ),
                    Err(issue) => Err(path_issue_text(relative, issue)),
                }
            }
        },
    }
}

/// A WebDAV error with its message.
pub open spec fn is_webdav_error(e: StorageError, m: Seq<char>) -> bool {
    e matches StorageError::Provider { provider, message } && provider == ProviderKind::WebDav && message@ == m
}

/// The entry that a finished `response` element gives, relative to the
/// endpoint's path.
pub fn finish_entry(draft: DavDraft, endpoint_path: &str) -> (r: Result<Option<RemoteEntry>, StorageError>)
    ensures
        match finish_view(draft@, endpoint_path@) {
            Ok(None) => r matches Ok(None),
            Ok(Some(e)) => r matches Ok(Some(x)) && entry_view(x) == e,
            Err(m) => r matches Err(e) && is_webdav_error(e, m),
        },
{
    let href = match draft.href {
        None => return Ok(None),
        Some(h) => h,
    };
    let path = match parse_url(href.as_str()) {
        Some(url) => url.path,
        None => href,
    };
    let path_chars = chars_of(path.as_str());
    let endpoint_chars = chars_of(endpoint_path);
    let base = trim_trailing_slashes(endpoint_chars.as_slice());
    let rest: Vec<char> = if chars_start_with(path_chars.as_slice(), base.as_slice()) {
        let mut tail: Vec<char> = Vec::new();
        let b = base.len();
        let n = path_chars.len();
        for k in b..n
            invariant
                n == path_chars@.len(),
                b <= n,
                tail@ == path_chars@.subrange(b as int, k as int),
        {
            tail.push(path_chars[k]);
            proof {
                assert(path_chars@.subrange(b as int, k + 1) =~= path_chars@.subrange(b as int, k as int).push(path_chars@[k as int]));
            }
        }
        proof {
            assert(path_chars@.subrange(b as int, n as int) =~= path_chars@.skip(b as int));
        }
        tail
    } else {
        path_chars
    };
    let leading = trim_leading_slashes(rest.as_slice());
    let relative = trim_trailing_slashes(leading.as_slice());
    proof {
        assert(path@ == href_path(href@));
        assert(relative@ == relative_to(href_path(href@), endpoint_path@));
    }
    if relative.len() == 0 {
        return Ok(None);
    }
    let text = string_from_chars(relative.as_slice());
    let parsed = RemotePath::parse(text.as_str());
    proof {
        if parsed is Err {
            let e = parsed->Err_0;
            let issue = parse_outcome(text@)->Err_0;
            assert(crate::error::bifrost_error_text(e) =~= path_issue_text(text@, issue));
        }
    }
    match parsed {
        Ok(p) => Ok(
            Some(
                RemoteEntry {
                    metadata: RemoteMetadata {
                        path: p,
                        is_directory: draft.is_directory,
                        size_bytes: draft.size_bytes,
                        etag: draft.etag,
                        modified_at: draft.modified_at,
                    },
                },
            ),
        ),
        Err(e) => Err(StorageError::Provider { provider: ProviderKind::WebDav, message: e.message() }),
    }
}

/// A `response` element after the text of one of its properties: `href`,
/// `displayname` and `getetag` are kept as they are, `getcontentlength` as
/// the number it spells (none where it spells none), `getlastmodified` as
/// the time it spells (none where it spells none); other properties change
/// nothing.
pub open spec fn draft_with(d: DavDraftView, field: Seq<u8>, value: Seq<char>) -> DavDraftView {
    if spells(field, "href"@) {
        DavDraftView { href: Some(value), ..d }
    } else if spells(field, "displayname"@) {
        DavDraftView { display_name: Some(value), ..d }
    } else if spells(field, "getcontentlength"@) {
        DavDraftView { size_bytes: parsed_u64(value), ..d }
    } else if spells(field, "getlastmodified"@) {
        DavDraftView { modified_at: rfc2822_utc_text(value), ..d }
    } else if spells(field, "getetag"@) {
        DavDraftView { etag: Some(value), ..d }
    } else {
        d
    }
}

/// Records the text of a property of a `response` element.
pub fn draft_with_field(draft: DavDraft, field: &[u8], value: String) -> (d: DavDraft)
    ensures
        d@ == draft_with(draft@, field@, value@),
{
    let mut d = draft;
    if name_spells(field, "href") {
        d.href = Some(value);
    } else if name_spells(field, "displayname") {
        d.display_name = Some(value);
    } else if name_spells(field, "getcontentlength") {
        let chars = chars_of(value.as_str());
        d.size_bytes = parse_u64(chars.as_slice());
    } else if name_spells(field, "getlastmodified") {
        d.modified_at = rfc2822_as_utc(value.as_str());
    } else if name_spells(field, "getetag") {
        d.etag = Some(value);
    }
    d
}

/// What the XML reader reports, one event at a time: a start tag, an empty
/// tag or an end tag with its local name, a piece of text (decoded, or why
/// it could not be), anything else, or the end of the document.
#[derive(Debug)]
pub enum XmlEvent {
    Start(Vec<u8>),
    Empty(Vec<u8>),
    End(Vec<u8>),
    Text(Result<String, String>),
    Other,
    Eof,
}

/// An XML event, as values.
pub enum XmlEventView {
    Start(Seq<u8>),
    Empty(Seq<u8>),
    End(Seq<u8>),
    Text(Result<Seq<char>, Seq<char>>),
    Other,
    Eof,
}

impl View for XmlEvent {
    type V = XmlEventView;

    open spec fn view(&self) -> XmlEventView {
        match self {
            XmlEvent::Start(n) => XmlEventView::Start(n@),
            XmlEvent::Empty(n) => XmlEventView::Empty(n@),
            XmlEvent::End(n) => XmlEventView::End(n@),
            XmlEvent::Text(t) => XmlEventView::Text(
                match t {
                    Ok(v) => Ok(v@),
                    Err(m) => Err(m@),
                },
            ),
            XmlEvent::Other => XmlEventView::Other,
            XmlEvent::Eof => XmlEventView::Eof,
        }
    }
}

/// Where reading a `multistatus` document stands: the entries so far, the
/// `response` element being read, and the property whose text comes next.
#[derive(Debug)]
pub struct MultistatusParse {
    pub entries: Vec<RemoteEntry>,
    pub current: Option<DavDraft>,
    pub field: Option<Vec<u8>>,
}

/// Where reading a `multistatus` document stands, as values.
pub struct MultistatusView {
    pub entries: Seq<EntryView>,
    pub current: Option<DavDraftView>,
    pub field: Option<Seq<u8>>,
}

impl View for MultistatusParse {
    type V = MultistatusView;

    open spec fn view(&self) -> MultistatusView {
        MultistatusView {
            entries: entry_views(self.entries@),
            current: match self.current {
                Some(d) => Some(d@),
                None => None,
            },
            field: match self.field {
                Some(f) => Some(f@),
                None => None,
            },
        }
    }
}

/// Where reading a `multistatus` document starts.
pub open spec fn multistatus_start() -> MultistatusView {
    MultistatusView { entries: Seq::empty(), current: None, field: None }
}

/// One event of a `multistatus` document: a `response` start tag opens an
/// element; inside one, any other start tag names the property whose text
/// follows, an empty `collection` tag marks a directory, and that text is
/// recorded (or, undecodable, refused); a `response` end tag finishes the
/// element into an entry (or refuses its path), and the end tag of the
/// property being read closes it.
pub open spec fn multistatus_step(s: MultistatusView, ev: XmlEventView, endpoint_path: Seq<char>) -> Result<MultistatusView, Seq<char>> {
    match ev {
        XmlEventView::Start(name) => if spells(name, "response"@) {
            Ok(MultistatusView { current: Some(empty_draft()), ..s })
        } else if s.current is Some {
            Ok(MultistatusView { field: Some(name), ..s })
        } else {
            Ok(s)
        },
        XmlEventView::Empty(name) => match s.current {
            Some(d) => if spells(name, "collection"@) {
                Ok(MultistatusView { current: Some(DavDraftView { is_directory: true, ..d }), ..s })
            } else {
                Ok(s)
            },
            None => Ok(s),
        },
        XmlEventView::Text(t) => match s.current {
            Some(d) => match s.field {
                Some(f) => match t {
                    Ok(v) => Ok(MultistatusView { current: Some(draft_with(d, f, v)), ..s }),
                    Err(m) => Err(m),
                },
                None => Ok(s),
            },
            None => Ok(s),
        },
        XmlEventView::End(name) => if spells(name, "response"@) {
            match s.current {
                Some(d) => match finish_view(d, endpoint_path) {
                    Ok(Some(e)) => Ok(MultistatusView { entries: s.entries.push(e), current: None, field: s.field }),
                    Ok(None) => Ok(MultistatusView { current: None, ..s }),
                    Err(m) => Err(m),
                },
                None => Ok(s),
            }
        } else if s.field == Some(name) {
            Ok(MultistatusView { field: None, ..s })
        } else {
            Ok(s)
        },
        _ => Ok(s),
    }
}

/// A whole sequence of events, from the start: where reading stands after
/// them, or the first refusal.
pub open spec fn multistatus_run(events: Seq<XmlEventView>, endpoint_path: Seq<char>) -> Result<MultistatusView, Seq<char>>
    decreases events.len(),
{
    if events.len() == 0 {
        Ok(multistatus_start())
    } else {
        match multistatus_run(events.drop_last(), endpoint_path) {
            Ok(s) => multistatus_step(s, events.last(), endpoint_path),
            Err(m) => Err(m),
        }
    }
}

/// Takes one event of a `multistatus` document.
pub fn multistatus_advance(state: MultistatusParse, event: XmlEvent, endpoint_path: &str) -> (r: Result<MultistatusParse, StorageError>)
    ensures
        match multistatus_step(state@, event@, endpoint_path@) {
            Ok(s) => r matches Ok(n) && n@ == s,
            Err(m) => r matches Err(e) && is_webdav_error(e, m),
        },
{
    let MultistatusParse { entries, current, field } = state;
    match event {
        XmlEvent::Start(name) => {
            if name_spells(name.as_slice(), "response") {
                let draft = DavDraft {
                    href: None,
                    display_name: None,
                    size_bytes: None,
                    modified_at: None,
                    etag: None,
                    is_directory: false,
                };
                Ok(MultistatusParse { entries, current: Some(draft), field })
            } else if current.is_some() {
                Ok(MultistatusParse { entries, current, field: Some(name) })
            } else {
                Ok(MultistatusParse { entries, current, field })
            }
        },
        XmlEvent::Empty(name) => match current {
            Some(d) => {
                if name_spells(name.as_slice(), "collection") {
                    let mut d = d;
                    d.is_directory = true;
                    Ok(MultistatusParse { entries, current: Some(d), field })
                } else {
                    Ok(MultistatusParse { entries, current: Some(d), field })
                }
            },
            None => Ok(MultistatusParse { entries, current: None, field }),
        },
        XmlEvent::Text(t) => match current {
            Some(d) => match field {
                Some(f) => match t {
                    Ok(v) => {
                        let d = draft_with_field(d, f.as_slice(), v);
                        Ok(MultistatusParse { entries, current: Some(d), field: Some(f) })
                    },
                    Err(m) => Err(StorageError::Provider { provider: ProviderKind::WebDav, message: m }),
                },
                None => Ok(MultistatusParse { entries, current: Some(d), field: None }),
            },
            None => Ok(MultistatusParse { entries, current: None, field }),
        },
        XmlEvent::End(name) => {
            if name_spells(name.as_slice(), "response") {
                match current {
                    Some(d) => match finish_entry(d, endpoint_path) {
                        Ok(Some(entry)) => {
                            let mut entries = entries;
                            let ghost before = entries@;
                            entries.push(entry);
                            proof {
                                assert(entry_views(entries@) =~= entry_views(before).push(entry_view(entry)));
                            }
                            Ok(MultistatusParse { entries, current: None, field })
                        },
                        Ok(None) => Ok(MultistatusParse { entries, current: None, field }),
                        Err(e) => Err(e),
                    },
                    None => Ok(MultistatusParse { entries, current: None, field }),
                }
            } else {
                let closes = match &field {
                    Some(f) => same_bytes(f.as_slice(), name.as_slice()),
                    None => false,
                };
                if closes {
                    Ok(MultistatusParse { entries, current, field: None })
                } else {
                    Ok(MultistatusParse { entries, current, field })
                }
            }
        },
        XmlEvent::Other => Ok(MultistatusParse { entries, current, field }),
        XmlEvent::Eof => Ok(MultistatusParse { entries, current, field }),
    }
}

/// The views of some events.
pub open spec fn event_views(v: Seq<XmlEvent>) -> Seq<XmlEventView> {
    v.map_values(|e: XmlEvent| e@)
}

/// Once reading a document is refused, the events after that change
/// nothing: the refusal stands.
pub proof fn lemma_refusal_stands(events: Seq<XmlEventView>, k: int, endpoint_path: Seq<char>)
    requires
        0 <= k <= events.len(),
        multistatus_run(events.take(k), endpoint_path) is Err,
    ensures
        multistatus_run(events, endpoint_path) == multistatus_run(events.take(k), endpoint_path),
    decreases events.len() - k,
{
    if k == events.len() {
        assert(events.take(k) =~= events);
    } else {
        assert(events.drop_last().take(k) =~= events.take(k));
        lemma_refusal_stands(events.drop_last(), k, endpoint_path);
    }
}

/// The entries of a `multistatus` document, read from its events: those of
/// the `response` elements that name something below the endpoint, or the
/// first refusal.
pub fn multistatus_entries(events: Vec<XmlEvent>, endpoint_path: &str) -> (r: Result<Vec<RemoteEntry>, StorageError>)
    ensures
        match multistatus_run(event_views(events@), endpoint_path@) {
            Ok(s) => r matches Ok(v) && entry_views(v@) == s.entries,
            Err(m) => r matches Err(e) && is_webdav_error(e, m),
        },
{
    let ghost all = event_views(events@);
    let mut state = MultistatusParse { entries: Vec::new(), current: None, field: None };
    proof {
        assert(entry_views(state.entries@) =~= Seq::<EntryView>::empty());
        assert(all.take(0) =~= Seq::<XmlEventView>::empty());
        assert(event_views(events@) =~= all.skip(0));
    }
    let mut pending = events;
    let ghost mut done: int = 0;
    while pending.len() > 0
        invariant
            all == event_views(events@),
            0 <= done <= all.len(),
            event_views(pending@) == all.skip(done),
            multistatus_run(all.take(done), endpoint_path@) == Ok::<MultistatusView, Seq<char>>(state@),
        decreases pending@.len(),
    {
        let ghost before = pending@;
        let event = pending.remove(0);
        proof {
            assert(event_views(before).len() == before.len());
            assert(done < all.len());
            assert(event_views(before)[0] == event@);
            assert(all.skip(done)[0] == all[done]);
            assert forall|k: int| 0 <= k < pending@.len() implies #[trigger] event_views(pending@)[k] == all.skip(done + 1)[k] by {
                assert(pending@[k] == before[k + 1]);
                assert(event_views(before)[k + 1] == all.skip(done)[k + 1]);
            }
            assert(event_views(pending@) =~= all.skip(done + 1));
            assert(all.take(done + 1).drop_last() =~= all.take(done));
            assert(all.take(done + 1).last() == all[done]);
        }
        let ghost current = state@;
        proof {
            assert(multistatus_run(all.take(done + 1), endpoint_path@) == multistatus_step(current, all[done], endpoint_path@));
        }
        match multistatus_advance(state, event, endpoint_path) {
            Ok(next) => {
                state = next;
            },
            Err(e) => {
                proof {
                    assert(multistatus_step(current, all[done], endpoint_path@) is Err);
                    lemma_refusal_stands(all, done + 1, endpoint_path@);
                }
                return Err(e);
            },
        }
        proof {
            done = done + 1;
        }
    }
    proof {
        assert(all.skip(done).len() == 0);
        assert(all.take(done) =~= all);
    }
    Ok(state.entries)
}

/// Where reading a quota answer stands: the quota property whose text comes
/// next, and the used and available byte counts read so far.
#[derive(Debug)]
pub struct QuotaParse {
    pub field: Option<Vec<u8>>,
    pub used: Option<u64>,
    pub available: Option<u64>,
}

/// Where reading a quota answer stands, as values.
pub struct QuotaView {
    pub field: Option<Seq<u8>>,
    pub used: Option<u64>,
    pub available: Option<u64>,
}

impl View for QuotaParse {
    type V = QuotaView;

    open spec fn view(&self) -> QuotaView {
        QuotaView {
            field: match self.field {
                Some(f) => Some(f@),
                None => None,
            },
            used: self.used,
            available: self.available,
        }
    }
}

/// Whether a tag names one of the two quota properties.
pub open spec fn is_quota_name(name: Seq<u8>) -> bool {
    spells(name, "quota-used-bytes"@) || spells(name, "quota-available-bytes"@)
}

/// One event of a quota answer: the start tag of a quota property opens it,
/// its text is read as a byte count (or refused with the reason), and its
/// end tag closes it.
pub open spec fn quota_step(s: QuotaView, ev: XmlEventView) -> Result<QuotaView, Seq<char>> {
    match ev {
        XmlEventView::Start(name) => if is_quota_name(name) {
            Ok(QuotaView { field: Some(name), ..s })
        } else {
            Ok(s)
        },
        XmlEventView::Text(t) => match s.field {
            Some(f) => match t {
                Err(m) => Err(m),
                Ok(v) => match parsed_u64(v) {
                    None => Err("invalid WebDAV quota value: "@ + int_error_text(u64_error_kind(v))),
                    Some(x) => if spells(f, "quota-used-bytes"@) {
                        Ok(QuotaView { used: Some(x), ..s })
                    } else if spells(f, "quota-available-bytes"@) {
                        Ok(QuotaView { available: Some(x), ..s })
                    } else {
                        Ok(s)
                    },
                },
            },
            None => Ok(s),
        },
        XmlEventView::End(name) => if s.field == Some(name) {
            Ok(QuotaView { field: None, ..s })
        } else {
            Ok(s)
        },
        _ => Ok(s),
    }
}

/// A whole sequence of quota events, from the start.
pub open spec fn quota_run(events: Seq<XmlEventView>) -> Result<QuotaView, Seq<char>>
    decreases events.len(),
{
    if events.len() == 0 {
        Ok(QuotaView { field: None, used: None, available: None })
    } else {
        match quota_run(events.drop_last()) {
            Ok(s) => quota_step(s, events.last()),
            Err(m) => Err(m),
        }
    }
}

/// The capacity that both quota counts give: the used and available bytes
/// together (at most `u64::MAX`), and the available bytes; unknown unless
/// both were read.
pub open spec fn quota_capacity(s: QuotaView) -> Option<StorageCapacity> {
    match (s.used, s.available) {
        (Some(u), Some(a)) => Some(
            StorageCapacity {
                total_bytes: if u + a > u64::MAX { u64::MAX } else { (u + a) as u64 },
                available_bytes: a,
            },
        ),
        _ => None,
    }
}

/// Takes one event of a quota answer.
pub fn quota_advance(state: QuotaParse, event: XmlEvent) -> (r: Result<QuotaParse, StorageError>)
    ensures
        match quota_step(state@, event@) {
            Ok(s) => r matches Ok(n) && n@ == s,
            Err(m) => r matches Err(e) && is_webdav_error(e, m),
        },
{
    let QuotaParse { field, used, available } = state;
    match event {
        XmlEvent::Start(name) => {
            if name_spells(name.as_slice(), "quota-used-bytes") || name_spells(name.as_slice(), "quota-available-bytes") {
                Ok(QuotaParse { field: Some(name), used, available })
            } else {
                Ok(QuotaParse { field, used, available })
            }
        },
        XmlEvent::Text(t) => match field {
            Some(f) => match t {
                Err(m) => Err(StorageError::Provider { provider: ProviderKind::WebDav, message: m }),
                Ok(v) => {
                    let chars = chars_of(v.as_str());
                    match parse_u64(chars.as_slice()) {
                        None => {
                            let kind = u64_error_kind_of(chars.as_slice());
                            let mut message = String::from_str("invalid WebDAV quota value: ");
                            message.append(
                                match kind {
                                    IntErrorKind::Empty => "cannot parse integer from empty string",
                                    IntErrorKind::InvalidDigit => "invalid digit found in string",
                                    IntErrorKind::PosOverflow => "number too large to fit in target type",
                                },
                            );
                            Err(StorageError::Provider { provider: ProviderKind::WebDav, message })
                        },
                        Some(x) => {
                            if name_spells(f.as_slice(), "quota-used-bytes") {
                                Ok(QuotaParse { field: Some(f), used: Some(x), available })
                            } else if name_spells(f.as_slice(), "quota-available-bytes") {
                                Ok(QuotaParse { field: Some(f), used, available: Some(x) })
                            } else {
                                Ok(QuotaParse { field: Some(f), used, available })
                            }
                        },
                    }
                },
            },
            None => Ok(QuotaParse { field: None, used, available }),
        },
        XmlEvent::End(name) => {
            let closes = match &field {
                Some(f) => same_bytes(f.as_slice(), name.as_slice()),
                None => false,
            };
            if closes {
                Ok(QuotaParse { field: None, used, available })
            } else {
                Ok(QuotaParse { field, used, available })
            }
        },
        _ => Ok(QuotaParse { field, used, available }),
    }
}

/// The capacity that the counts read give.
pub fn capacity_from_quota(state: &QuotaParse) -> (r: Option<StorageCapacity>)
    ensures
        r == quota_capacity(state@),
{
    match (state.used, state.available) {
        (Some(u), Some(a)) => Some(StorageCapacity { total_bytes: u.saturating_add(a), available_bytes: a }),
        _ => None,
    }
}

/// Once reading a quota answer is refused, the refusal stands.
pub proof fn lemma_quota_refusal_stands(events: Seq<XmlEventView>, k: int)
    requires
        0 <= k <= events.len(),
        quota_run(events.take(k)) is Err,
    ensures
        quota_run(events) == quota_run(events.take(k)),
    decreases events.len() - k,
{
    if k == events.len() {
        assert(events.take(k) =~= events);
    } else {
        assert(events.drop_last().take(k) =~= events.take(k));
        lemma_quota_refusal_stands(events.drop_last(), k);
    }
}

/// The capacity that a quota answer reports, read from its events: known
/// when both counts are given, or the first refusal.
pub fn quota_capacity_of(events: Vec<XmlEvent>) -> (r: Result<Option<StorageCapacity>, StorageError>)
    ensures
        match quota_run(event_views(events@)) {
            Ok(s) => r == Ok::<Option<StorageCapacity>, StorageError>(quota_capacity(s)),
            Err(m) => r matches Err(e) && is_webdav_error(e, m),
        },
{
    let ghost all = event_views(events@);
    let mut state = QuotaParse { field: None, used: None, available: None };
    proof {
        assert(all.take(0) =~= Seq::<XmlEventView>::empty());
        assert(event_views(events@) =~= all.skip(0));
    }
    let mut pending = events;
    let ghost mut done: int = 0;
    while pending.len() > 0
        invariant
            all == event_views(events@),
            0 <= done <= all.len(),
            event_views(pending@) == all.skip(done),
            quota_run(all.take(done)) == Ok::<QuotaView, Seq<char>>(state@),
        decreases pending@.len(),
    {
        let ghost before = pending@;
        let event = pending.remove(0);
        proof {
            assert(event_views(before).len() == before.len());
            assert(event_views(before)[0] == event@);
            assert(all.skip(done)[0] == all[done]);
            assert forall|k: int| 0 <= k < pending@.len() implies #[trigger] event_views(pending@)[k] == all.skip(done + 1)[k] by {
                assert(pending@[k] == before[k + 1]);
                assert(event_views(before)[k + 1] == all.skip(done)[k + 1]);
            }
            assert(event_views(pending@) =~= all.skip(done + 1));
            assert(all.take(done + 1).drop_last() =~= all.take(done));
            assert(all.take(done + 1).last() == all[done]);
        }
        let ghost current = state@;
        proof {
            assert(quota_run(all.take(done + 1)) == quota_step(current, all[done]));
        }
        match quota_advance(state, event) {
            Ok(next) => {
                state = next;
            },
            Err(e) => {
                proof {
                    lemma_quota_refusal_stands(all, done + 1);
                }
                return Err(e);
            },
        }
        proof {
            done = done + 1;
        }
    }
    proof {
        assert(all.skip(done).len() == 0);
        assert(all.take(done) =~= all);
    }
    Ok(capacity_from_quota(&state))
}

/// The reader of an XML document in memory.
#[verifier::external_type_specification]
#[verifier::external_body]
#[verifier::reject_recursive_types(R)]
pub struct ExXmlReader<R>(quick_xml::Reader<R>);

/// A byte buffer read from the front.
#[verifier::external_type_specification]
#[verifier::external_body]
#[verifier::reject_recursive_types(T)]
pub struct ExCursor<T>(std::io::Cursor<T>);

/// An XML document being read event by event: the reader over its bytes,
/// with the bytes and the number of events taken so far.
pub struct XmlCursor {
    reader: quick_xml::Reader<std::io::Cursor<Vec<u8>>>,
    document: Ghost<Seq<u8>>,
    taken: Ghost<nat>,
}

impl XmlCursor {
    /// The bytes of the document.
    pub closed spec fn document(&self) -> Seq<u8> {
        self.document@
    }

    /// How many events have been taken.
    pub closed spec fn taken(&self) -> nat {
        self.taken@
    }
}

/// What a reader set up by `xml_reader` gives at its `index`-th call of
/// `read_event_into` on a document (counting from 0): an event, or the
/// reader's error as text. The reader is a deterministic parser of the
/// bytes, so this is a function of the document and the index alone.
pub uninterp spec fn xml_event_at(document: Seq<u8>, index: nat) -> Result<XmlEventView, Seq<char>>;

/// The value of a reader's answer.
pub open spec fn read_view(r: Result<XmlEvent, String>) -> Result<XmlEventView, Seq<char>> {
    match r {
        Ok(e) => Ok(e@),
        Err(m) => Err(m@),
    }
}

/// `quick_xml::Reader::from_reader` over the document's bytes, set to trim
/// white space around text (`trim_text(true)`); no event is taken yet.
#[verifier::external_body]
fn xml_reader(xml: Vec<u8>) -> (c: XmlCursor)
    ensures
        c.document() == xml@,
        c.taken() == 0,
{
    let document = Ghost(xml@);
    let mut reader = quick_xml::Reader::from_reader(std::io::Cursor::new(xml));
    reader.config_mut().trim_text(true);
    XmlCursor { reader, document, taken: Ghost(0nat) }
}

/// `quick_xml::Reader::read_event_into`: the next event of the document,
/// with the local name of a tag and the decoded text (`BytesText::decode`)
/// of a piece of text, or the reader's error as text. Which event that is
/// is named by `xml_event_at`, not stated.
#[verifier::external_body]
fn next_xml_event(cursor: &mut XmlCursor) -> (r: Result<XmlEvent, String>)
    ensures
        final(cursor).document() == old(cursor).document(),
        final(cursor).taken() == old(cursor).taken() + 1,
        read_view(r) == xml_event_at(old(cursor).document(), old(cursor).taken()),
{
    let event = match cursor.reader.read_event_into(&mut Vec::new()) {
        Ok(event) => Ok(match event {
            Event::Start(tag) => Start(tag.local_name().as_ref().to_vec()),
            Event::Empty(tag) => Empty(tag.local_name().as_ref().to_vec()),
            Event::End(tag) => End(tag.local_name().as_ref().to_vec()),
            Event::Text(text) => Text(text.decode().map(String::from).map_err(|e| e.to_string())),
            Event::Eof => Eof,
            _ => Other,
        }),
        Err(error) => Err(error.to_string()),
    };
    cursor.taken = Ghost(cursor.taken@ + 1);
    event
}

/// Whether a refusal is one of this provider's.
pub open spec fn is_webdav_refusal(e: StorageError) -> bool {
    e matches StorageError::Provider { provider, .. } && provider == ProviderKind::WebDav
}

/// The entries that a sequence of events gives, unless it is refused.
pub open spec fn multistatus_listing(events: Seq<XmlEventView>, endpoint_path: Seq<char>) -> Option<Seq<EntryView>> {
    match multistatus_run(events, endpoint_path) {
        Ok(s) => Some(s.entries),
        Err(_) => None,
    }
}

/// The capacity that a sequence of quota events gives, unless it is
/// refused.
pub open spec fn quota_after(events: Seq<XmlEventView>) -> Option<Option<StorageCapacity>> {
    match quota_run(events) {
        Ok(s) => Some(quota_capacity(s)),
        Err(_) => None,
    }
}

/// The refusal of a document that gives more events than it has bytes,
/// which no document does: each event but the end takes at least one byte.
pub open spec fn runaway_text() -> Seq<char> {
    "WebDAV response has more XML events than bytes"@
}

/// How reading a `multistatus` document goes from its `taken`-th event on,
/// with `budget` events still allowed, after the events before gave
/// `state`: a reader error or a refusal ends it, the end of the document
/// gives the state reached, and an event past the budget is refused.
pub open spec fn multistatus_read(
    document: Seq<u8>,
    endpoint_path: Seq<char>,
    taken: nat,
    budget: nat,
    state: MultistatusView,
) -> Result<MultistatusView, Seq<char>>
    decreases budget,
{
    match xml_event_at(document, taken) {
        Err(m) => Err(m),
        Ok(ev) => if ev is Eof {
            Ok(state)
        } else if budget == 0 {
            Err(runaway_text())
        } else {
            match multistatus_step(state, ev, endpoint_path) {
                Ok(next) => multistatus_read(document, endpoint_path, taken + 1, (budget - 1) as nat, next),
                Err(m) => Err(m),
            }
        }
    }
}

/// The entries of a `multistatus` document, or why it is refused: its
/// events are read from the first, with one event allowed per byte.
pub open spec fn multistatus_document(document: Seq<u8>, endpoint_path: Seq<char>) -> Result<Seq<EntryView>, Seq<char>> {
    match multistatus_read(document, endpoint_path, 0, document.len(), multistatus_start()) {
        Ok(s) => Ok(s.entries),
        Err(m) => Err(m),
    }
}

/// How reading a quota answer goes from its `taken`-th event on, as
/// `multistatus_read` does for a listing.
pub open spec fn quota_read(document: Seq<u8>, taken: nat, budget: nat, state: QuotaView) -> Result<QuotaView, Seq<char>>
    decreases budget,
{
    match xml_event_at(document, taken) {
        Err(m) => Err(m),
        Ok(ev) => if ev is Eof {
            Ok(state)
        } else if budget == 0 {
            Err(runaway_text())
        } else {
            match quota_step(state, ev) {
                Ok(next) => quota_read(document, taken + 1, (budget - 1) as nat, next),
                Err(m) => Err(m),
            }
        }
    }
}

/// The capacity that a quota answer reports, or why it is refused.
pub open spec fn quota_document(document: Seq<u8>) -> Result<Option<StorageCapacity>, Seq<char>> {
    match quota_read(document, 0, document.len(), QuotaView { field: None, used: None, available: None }) {
        Ok(s) => Ok(quota_capacity(s)),
        Err(m) => Err(m),
    }
}

/// The entries of a `PROPFIND` answer: the document is read event by event
/// until its end, and the entries are those that its events give, as
/// `multistatus_entries` reads them; a reader error or a refusal ends the
/// reading.
pub fn parse_multistatus(xml: Vec<u8>, endpoint_path: &str) -> (r: Result<Vec<RemoteEntry>, StorageError>)
    ensures
        match multistatus_document(xml@, endpoint_path@) {
            Ok(es) => r matches Ok(v) && entry_views(v@) == es,
            Err(m) => r matches Err(e) && is_webdav_error(e, m),
        },
        r matches Ok(v) ==> exists|events: Seq<XmlEventView>| #[trigger] multistatus_listing(events, endpoint_path@) == Some(entry_views(v@)),
{
    let ghost document = xml@;
    let mut budget: usize = xml.len();
    let mut reader = xml_reader(xml);
    let mut state = MultistatusParse { entries: Vec::new(), current: None, field: None };
    let ghost mut seen: Seq<XmlEventView> = Seq::empty();
    proof {
        assert(entry_views(state.entries@) =~= Seq::<EntryView>::empty());
    }
    loop
        invariant_except_break
            multistatus_read(document, endpoint_path@, 0, document.len(), multistatus_start())
                == multistatus_read(document, endpoint_path@, reader.taken(), budget as nat, state@),
        invariant
            document == xml@,
            reader.document() == document,
            budget <= document.len(),
            multistatus_run(seen, endpoint_path@) == Ok::<MultistatusView, Seq<char>>(state@),
        ensures
            multistatus_read(document, endpoint_path@, 0, document.len(), multistatus_start())
                == Ok::<MultistatusView, Seq<char>>(state@),
        decreases budget,
    {
        let event = match next_xml_event(&mut reader) {
            Ok(event) => event,
            Err(message) => return Err(StorageError::Provider { provider: ProviderKind::WebDav, message }),
        };
        if let XmlEvent::Eof = &event {
            break;
        }
        if budget == 0 {
            return Err(StorageError::Provider {
                provider: ProviderKind::WebDav,
                message: String::from_str("WebDAV response has more XML events than bytes"),
            });
        }
        budget = budget - 1;
        let ghost step = event@;
        let ghost prior = seen;
        state = match multistatus_advance(state, event, endpoint_path) {
            Ok(next) => next,
            Err(e) => return Err(e),
        };
        proof {
            seen = prior.push(step);
            assert(seen.drop_last() =~= prior);
        }
    }
    proof {
        assert(multistatus_listing(seen, endpoint_path@) == Some(entry_views(state.entries@)));
    }
    Ok(state.entries)
}

/// The capacity that a quota `PROPFIND` answer reports: the document is read
/// event by event until its end, and the capacity is the one that its
/// events give, as `quota_capacity_of` reads them; a reader error or a
/// refusal ends the reading.
pub fn parse_capacity(xml: Vec<u8>) -> (r: Result<Option<StorageCapacity>, StorageError>)
    ensures
        match quota_document(xml@) {
            Ok(c) => r == Ok::<Option<StorageCapacity>, StorageError>(c),
            Err(m) => r matches Err(e) && is_webdav_error(e, m),
        },
        r matches Ok(c) ==> exists|events: Seq<XmlEventView>| #[trigger] quota_after(events) == Some(c),
{
    let ghost document = xml@;
    let mut budget: usize = xml.len();
    let mut reader = xml_reader(xml);
    let mut state = QuotaParse { field: None, used: None, available: None };
    let ghost mut seen: Seq<XmlEventView> = Seq::empty();
    loop
        invariant_except_break
            quota_read(document, 0, document.len(), QuotaView { field: None, used: None, available: None })
                == quota_read(document, reader.taken(), budget as nat, state@),
        invariant
            document == xml@,
            reader.document() == document,
            budget <= document.len(),
            quota_run(seen) == Ok::<QuotaView, Seq<char>>(state@),
        ensures
            quota_read(document, 0, document.len(), QuotaView { field: None, used: None, available: None })
                == Ok::<QuotaView, Seq<char>>(state@),
        decreases budget,
    {
        let event = match next_xml_event(&mut reader) {
            Ok(event) => event,
            Err(message) => return Err(StorageError::Provider { provider: ProviderKind::WebDav, message }),
        };
        if let XmlEvent::Eof = &event {
            break;
        }
        if budget == 0 {
            return Err(StorageError::Provider {
                provider: ProviderKind::WebDav,
                message: String::from_str("WebDAV response has more XML events than bytes"),
            });
        }
        budget = budget - 1;
        let ghost step = event@;
        let ghost prior = seen;
        state = match quota_advance(state, event) {
            Ok(next) => next,
            Err(e) => return Err(e),
        };
        proof {
            seen = prior.push(step);
            assert(seen.drop_last() =~= prior);
        }
    }
    let capacity = capacity_from_quota(&state);
    proof {
        assert(quota_after(seen) == Some(capacity));
    }
    Ok(capacity)
}

/// The URL of a remote path below a WebDAV endpoint: the endpoint with the
/// path's non-empty segments added, as the `url` crate adds them; refused
/// where the endpoint cannot take path segments.
pub fn webdav_url_for(endpoint: &UrlParts, path: &RemotePath) -> (r: Result<String, StorageError>)
    ensures
        match url_with_segments(endpoint.text@, segments(path@)) {
            Some(u) => r matches Ok(s) && s@ == u,
            None => r matches Err(e) && is_webdav_error(e, "WebDAV endpoint cannot be used as a base path"@),
        },
{
    let pieces = split_segments(path.as_str());
    let mut names: Vec<String> = Vec::new();
    for i in 0..pieces.len()
        invariant
            texts(names@) == crate::text::char_vec_views(pieces@).take(i as int),
    {
        let ghost before = names@;
        let name = string_from_chars(pieces[i].as_slice());
        names.push(name);
        proof {
            assert(texts(names@) =~= texts(before).push(pieces@[i as int]@));
            assert(crate::text::char_vec_views(pieces@).take(i + 1) =~= crate::text::char_vec_views(pieces@).take(i as int).push(pieces@[i as int]@));
        }
    }
    proof {
        assert(crate::text::char_vec_views(pieces@).take(pieces@.len() as int) =~= crate::text::char_vec_views(pieces@));
    }
    match extend_url_path(endpoint.text.as_str(), &names) {
        Some(url) => Ok(url),
        None => Err(StorageError::Provider {
            provider: ProviderKind::WebDav,
            message: String::from_str("WebDAV endpoint cannot be used as a base path"),
        }),
    }
}

/// The first listed entry at `path`, if any.
pub open spec fn first_at(entries: Seq<RemoteEntry>, path: Seq<char>) -> Option<int> {
    if exists|k: int| 0 <= k < entries.len() && #[trigger] entries[k].metadata.path@ == path {
        Some(choose|k: int| 0 <= k < entries.len() && #[trigger] entries[k].metadata.path@ == path
            && forall|j: int| 0 <= j < k ==> #[trigger] entries[j].metadata.path@ != path)
    } else {
        None
    }
}

/// What a WebDAV `stat` of the root answers without asking the server: the
/// configured endpoint is the remote directory root, a folder of unknown
/// size, tag and time. Any other path needs a listing.
pub fn webdav_root_stat(path: &RemotePath) -> (r: Option<RemoteMetadata>)
    ensures
        r is Some <==> path@.len() == 0,
        r matches Some(m) ==> m.path@ == path@ && m.is_directory && m.size_bytes is None && m.etag is None
            && m.modified_at is None,
{
    if path.as_str().unicode_len() == 0 {
        Some(RemoteMetadata { path: path.duplicate(), is_directory: true, size_bytes: None, etag: None, modified_at: None })
    } else {
        None
    }
}

/// What a WebDAV `stat` of a path other than the root answers from the
/// listing of that path: the metadata of the first listed entry at the
/// path, or that nothing is there.
pub fn stat_from_listing(path: &RemotePath, entries: Vec<RemoteEntry>) -> (r: Result<RemoteMetadata, StorageError>)
    ensures
        (exists|k: int| 0 <= k < entries@.len() && #[trigger] entries@[k].metadata.path@ == path@) ==> exists|k: int|
            0 <= k < entries@.len() && #[trigger] entries@[k].metadata.path@ == path@
                && (forall|j: int| 0 <= j < k ==> #[trigger] entries@[j].metadata.path@ != path@)
                && (r matches Ok(m) && metadata_view(m) == entry_view(entries@[k])),
        !(exists|k: int| 0 <= k < entries@.len() && #[trigger] entries@[k].metadata.path@ == path@) ==> (r matches Err(
            StorageError::NotFound { path: p },
        ) && p@ == path@),
{
    let ghost all = entries@;
    let mut pending = entries;
    let ghost mut done: int = 0;
    while pending.len() > 0
        invariant
            all == entries@,
            0 <= done <= all.len(),
            pending@ == all.skip(done),
            forall|j: int| 0 <= j < done ==> #[trigger] all[j].metadata.path@ != path@,
        decreases pending@.len(),
    {
        let ghost before = pending@;
        let entry = pending.remove(0);
        proof {
            assert(before[0] == all[done]);
            assert(pending@ =~= all.skip(done + 1));
        }
        if crate::text::str_eq(entry.metadata.path.as_str(), path.as_str()) {
            return Ok(entry.metadata);
        }
        proof {
            done = done + 1;
        }
    }
    proof {
        assert(done == all.len());
    }
    Err(StorageError::NotFound { path: path.duplicate() })
}

/// The `Timeout` header of a `LOCK` request: `Second-` and the timeout, at
/// least one second.
pub fn lock_timeout_header(timeout_seconds: u64) -> (r: String)
    ensures
        r@ == "Second-"@ + crate::text::decimal_text(if timeout_seconds < 1 { 1 } else { timeout_seconds as nat }),
{
    let mut out = String::from_str("Second-");
    crate::text::push_decimal(&mut out, if timeout_seconds < 1 { 1 } else { timeout_seconds });
    out
}

/// The body of a `LOCK` request: an exclusive write lock held by `owner`,
/// whose text stands in the document as it is.
pub open spec fn lock_body_text(owner: Seq<char>) -> Seq<char> {
    "<?xml version=\"1.0\" encoding=\"utf-8\" ?><d:lockinfo xmlns:d=\"DAV:\"><d:lockscope><d:exclusive/></d:lockscope><d:locktype><d:write/></d:locktype><d:owner><d:href>"@
        + owner + "</d:href></d:owner></d:lockinfo>"@
}

/// The body of a `LOCK` request.
pub fn lock_body(owner: &str) -> (r: String)
    ensures
        r@ == lock_body_text(owner@),
{
    let mut out = String::from_str(
        "<?xml version=\"1.0\" encoding=\"utf-8\" ?><d:lockinfo xmlns:d=\"DAV:\"><d:lockscope><d:exclusive/></d:lockscope><d:locktype><d:write/></d:locktype><d:owner><d:href>",
    );
    out.append(owner);
    out.append("</d:href></d:owner></d:lockinfo>");
    out
}

/// The lock that a `LOCK` answer grants: the text of its `Lock-Token`
/// header, or a refusal where it has none.
pub fn lock_from_header(lock_token: Option<String>) -> (r: Result<crate::storage::LockToken, StorageError>)
    ensures
        match lock_token {
            Some(t) => r matches Ok(l) && l.token@ == t@,
            None => r matches Err(e) && is_webdav_error(e, "WebDAV LOCK response did not include a Lock-Token"@),
        },
{
    match lock_token {
        Some(token) => Ok(crate::storage::LockToken { token }),
        None => Err(StorageError::Provider {
            provider: ProviderKind::WebDav,
            message: String::from_str("WebDAV LOCK response did not include a Lock-Token"),
        }),
    }
}

/// The text of each property of a `response` lands in its own field and
/// nowhere else: `href`, `displayname`, `getetag` are kept as given,
/// `getcontentlength` is read as a whole number, `getlastmodified` as an RFC
/// 2822 date; the text of any other property changes nothing.
pub proof fn lemma_property_text_lands_in_its_field(d: DavDraftView, field: Seq<u8>, value: Seq<char>)
    ensures
        spells(field, "href"@) ==> draft_with(d, field, value) == (DavDraftView { href: Some(value), ..d }),
        spells(field, "displayname"@) ==> draft_with(d, field, value) == (DavDraftView { display_name: Some(value), ..d }),
        spells(field, "getetag"@) ==> draft_with(d, field, value) == (DavDraftView { etag: Some(value), ..d }),
        spells(field, "getcontentlength"@) ==> draft_with(d, field, value) == (DavDraftView { size_bytes: parsed_u64(value), ..d }),
        spells(field, "getlastmodified"@) ==> draft_with(d, field, value) == (DavDraftView {
            modified_at: rfc2822_utc_text(value),
            ..d
        }),
        !spells(field, "href"@) && !spells(field, "displayname"@) && !spells(field, "getetag"@) && !spells(field, "getcontentlength"@)
            && !spells(field, "getlastmodified"@) ==> draft_with(d, field, value) == d,
{
    reveal_strlit("href");
    reveal_strlit("displayname");
    reveal_strlit("getetag");
    reveal_strlit("getcontentlength");
    reveal_strlit("getlastmodified");
}

/// The entry of a finished `response` carries what the response told:
/// whether it is a collection, its length, its entity tag and its time.
pub proof fn lemma_entry_carries_the_response(d: DavDraftView, endpoint_path: Seq<char>)
    ensures
        finish_view(d, endpoint_path) matches Ok(Some(e)) ==> e.is_directory == d.is_directory && e.size_bytes == d.size_bytes
            && e.etag == d.etag && e.modified_at == d.modified_at && d.href is Some,
{
}

/// Inside a `response`, the text of its `getetag` property becomes the
/// entity tag of the response being read.
pub proof fn lemma_etag_text_is_recorded(s: MultistatusView, value: Seq<char>, endpoint_path: Seq<char>)
    requires
        s.current is Some,
        s.field matches Some(f) && spells(f, "getetag"@),
    ensures
        multistatus_step(s, XmlEventView::Text(Ok(value)), endpoint_path) matches Ok(n)
            && n.current matches Some(d) && d.etag == Some(value),
{
    lemma_property_text_lands_in_its_field(s.current->Some_0, s.field->Some_0, value);
}

} // verus!
