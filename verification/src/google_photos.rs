//! How the Google Photos provider lays out a library as folders: `All
//! Photos` holds every media item, `Albums` one folder per album, and a
//! `Legacy` folder may show an older Google Drive tree. Media items are
//! named after their file name and id.
use vstd::prelude::*;
use crate::capability::{Capability, CapabilitySet};
use crate::immich::{encode_name as escape_name, escaped_name, name_escape, named_with_id};
use crate::path::{parse_outcome, parse_error_matches, RemotePath};
use crate::error::bifrost_error_text;
use crate::providers::{google_drive_capabilities, google_photos_capabilities, union_of};
use crate::storage::{empty_range_text, ByteRange};
use crate::text::{char_vec_views, chars_of, decimal_text, push_char, push_decimal, segments, split_segments, string_from_chars};

verus! {

broadcast use vstd::string::group_string_axioms;

/// The Google Photos Library API.
pub const GOOGLE_PHOTOS_ENDPOINT: &'static str = "https://photoslibrary.googleapis.com/v1";
/// The folder that holds every media item.
pub const ALL_PHOTOS_DIRECTORY: &'static str = "All Photos";
/// The folder that holds one folder per album.
pub const ALBUMS_DIRECTORY: &'static str = "Albums";
/// The folder that shows the older Google Drive tree.
pub const LEGACY_DIRECTORY: &'static str = "Legacy";

/// The tokens of a Google Photos sign-in. The expiry is in seconds since the
/// Unix epoch.
#[derive(Debug, Clone, PartialEq, Eq)]
pub struct GooglePhotosCredentials {
    pub access_token: String,
    pub refresh_token: Option<String>,
    pub client_id: Option<String>,
    pub client_secret: Option<String>,
    pub expires_at: Option<i64>,
}

/// Percent-encodes `%`, `/` and `\` in a media or album name.
pub fn encode_name(value: &str) -> (r: String)
    ensures
        r@ == escaped_name(value@),
{
    escape_name(value)
}

/// The path component of a media item: its encoded file name, `--`, its id.
pub fn media_item_name(filename: &str, id: &str) -> (r: String)
    ensures
        r@ == named_with_id(filename@, id@),
{
    crate::immich::item_name(filename, id)
}

/// A name with the escapes `%25`, `%2F` and `%5C` turned back into `%`, `/`
/// and `\`, read from the left.
pub open spec fn unescaped_name(v: Seq<char>) -> Seq<char>
    decreases v.len(),
{
    if v.len() >= 3 && v[0] == '%' && v[1] == '2' && v[2] == '5' {
        seq!['%'] + unescaped_name(v.skip(3))
    } else if v.len() >= 3 && v[0] == '%' && v[1] == '2' && v[2] == 'F' {
        seq!['/'] + unescaped_name(v.skip(3))
    } else if v.len() >= 3 && v[0] == '%' && v[1] == '5' && v[2] == 'C' {
        seq!['\\'] + unescaped_name(v.skip(3))
    } else if v.len() > 0 {
        seq![v[0]] + unescaped_name(v.skip(1))
    } else {
        Seq::empty()
    }
}

/// Turns the escapes of a name back into the characters they stand for.
pub fn unescape_name(value: &str) -> (r: String)
    ensures
        r@ == unescaped_name(value@),
{
    let v = chars_of(value);
    let n = v.len();
    let mut out = String::new();
    let mut i: usize = 0;
    proof {
        assert(v@.skip(0) =~= v@);
    }
    while i < n
        invariant
            n == v@.len(),
            v@ == value@,
            i <= n,
            unescaped_name(v@) == out@ + unescaped_name(v@.skip(i as int)),
        decreases n - i,
    {
        let ghost rest = v@.skip(i as int);
        if n - i >= 3 && v[i] == '%' && v[i + 1] == '2' && v[i + 2] == '5' {
            push_char(&mut out, '%');
            proof {
                assert(rest.skip(3) =~= v@.skip(i + 3));
            }
            i = i + 3;
        } else if n - i >= 3 && v[i] == '%' && v[i + 1] == '2' && v[i + 2] == 'F' {
            push_char(&mut out, '/');
            proof {
                assert(rest.skip(3) =~= v@.skip(i + 3));
            }
            i = i + 3;
        } else if n - i >= 3 && v[i] == '%' && v[i + 1] == '5' && v[i + 2] == 'C' {
            push_char(&mut out, '\\');
            proof {
                assert(rest.skip(3) =~= v@.skip(i + 3));
            }
            i = i + 3;
        } else {
            push_char(&mut out, v[i]);
            proof {
                assert(rest.skip(1) =~= v@.skip(i + 1));
            }
            i = i + 1;
        }
    }
    proof {
        assert(v@.skip(n as int) =~= Seq::<char>::empty());
    }
    out
}

/// Escaping a name one character at a time, from the front.
proof fn lemma_escaped_front(v: Seq<char>)
    requires
        v.len() > 0,
    ensures
        escaped_name(v) == name_escape(v[0]) + escaped_name(v.drop_first()),
    decreases v.len(),
{
    if v.len() == 1 {
        assert(v.drop_last() =~= Seq::<char>::empty());
        assert(v.drop_first() =~= Seq::<char>::empty());
        assert(escaped_name(v.drop_last()) =~= Seq::<char>::empty());
        assert(escaped_name(v.drop_first()) =~= Seq::<char>::empty());
        assert(v.last() == v[0]);
        assert(escaped_name(v) =~= name_escape(v[0]));
    } else {
        lemma_escaped_front(v.drop_last());
        assert(v.drop_last().drop_first() =~= v.drop_first().drop_last());
        assert(v.drop_first().last() == v.last());
        assert(v.drop_last()[0] == v[0]);
        assert(escaped_name(v) =~= name_escape(v[0]) + escaped_name(v.drop_first()));
    }
}

/// Unescaping undoes escaping: a name written into a path reads back as
/// the same name.
pub proof fn lemma_unescape_inverts_escape(v: Seq<char>)
    ensures
        unescaped_name(escaped_name(v)) == v,
    decreases v.len(),
{
    reveal_strlit("%25");
    reveal_strlit("%2F");
    reveal_strlit("%5C");
    if v.len() == 0 {
        assert(unescaped_name(Seq::<char>::empty()) =~= Seq::<char>::empty());
    } else {
        lemma_escaped_front(v);
        lemma_unescape_inverts_escape(v.drop_first());
        let e = name_escape(v[0]);
        let rest = escaped_name(v.drop_first());
        let w = e + rest;
        if v[0] == '%' || v[0] == '/' || v[0] == '\\' {
            assert(w.skip(3) =~= rest);
        } else {
            assert(w.skip(1) =~= rest);
            assert(w[0] == v[0]);
        }
        assert(seq![v[0]] + v.drop_first() =~= v);
    }
}

/// The title of the album a folder component names: the component read back
/// from its escaped form, which is the component itself.
pub fn album_title(component: &str) -> (r: String)
    ensures
        r@ == component@,
{
    let escaped = encode_name(component);
    let r = unescape_name(escaped.as_str());
    proof {
        lemma_unescape_inverts_escape(component@);
    }
    r
}

/// What a path of the library is.
#[derive(Debug)]
pub enum PhotosTarget {
    /// The root of the library.
    Root,
    /// The `All Photos` folder.
    AllPhotos,
    /// The `Albums` folder.
    Albums,
    /// The album with this title.
    Album { title: String },
    /// The media item named `name`, in the album with this title or in
    /// `All Photos`.
    Media { album: Option<String>, name: String },
    /// Nothing the library has.
    NotFound,
}

/// Whether a component is the `All Photos` folder.
pub open spec fn is_all_photos(c: Seq<char>) -> bool {
    c == "All Photos"@
}

/// Whether a component is the `Albums` folder.
pub open spec fn is_albums(c: Seq<char>) -> bool {
    c == "Albums"@
}

/// Whether `target` is what `path` is.
pub open spec fn target_of(path: Seq<char>, target: PhotosTarget) -> bool {
    let c = segments(path);
    if c.len() == 0 {
        target is Root
    } else if c.len() == 1 && is_all_photos(c[0]) {
        target is AllPhotos
    } else if c.len() == 1 && is_albums(c[0]) {
        target is Albums
    } else if c.len() == 2 && is_all_photos(c[0]) {
        target matches PhotosTarget::Media { album: None, name } && name@ == c[1]
    } else if c.len() == 2 && is_albums(c[0]) {
        target matches PhotosTarget::Album { title } && title@ == c[1]
    } else if c.len() == 3 && is_albums(c[0]) {
        target matches PhotosTarget::Media { album: Some(title), name } && title@ == c[1] && name@ == c[2]
    } else {
        target is NotFound
    }
}

/// Whether a component vector spells `name`.
fn spells(c: &Vec<char>, name: &str) -> (r: bool)
    ensures
        r == (c@ == name@),
{
    let n = chars_of(name);
    crate::text::chars_eq(c.as_slice(), n.as_slice())
}

/// Decides what a path of the library is.
pub fn classify_path(path: &str) -> (r: PhotosTarget)
    ensures
        target_of(path@, r),
{
    let c = split_segments(path);
    proof {
        reveal_strlit("All Photos");
        reveal_strlit("Albums");
        assert(forall|i: int| 0 <= i < c@.len() ==> #[trigger] c@[i]@ == segments(path@)[i]) by {
            assert(forall|i: int| 0 <= i < c@.len() ==> char_vec_views(c@)[i] == c@[i]@);
        }
    }
    if c.len() == 0 {
        PhotosTarget::Root
    } else if c.len() == 1 && spells(&c[0], "All Photos") {
        PhotosTarget::AllPhotos
    } else if c.len() == 1 && spells(&c[0], "Albums") {
        PhotosTarget::Albums
    } else if c.len() == 2 && spells(&c[0], "All Photos") {
        PhotosTarget::Media { album: None, name: string_from_chars(c[1].as_slice()) }
    } else if c.len() == 2 && spells(&c[0], "Albums") {
        let component = string_from_chars(c[1].as_slice());
        PhotosTarget::Album { title: album_title(component.as_str()) }
    } else if c.len() == 3 && spells(&c[0], "Albums") {
        let component = string_from_chars(c[1].as_slice());
        PhotosTarget::Media { album: Some(album_title(component.as_str())), name: string_from_chars(c[2].as_slice()) }
    } else {
        PhotosTarget::NotFound
    }
}

/// What a path offers: an album folder cannot be deleted or hold folders;
/// everything else offers what the library does.
pub fn capabilities_for_path(path: &str) -> (s: CapabilitySet)
    ensures
        ({
            let c = segments(path@);
            if c.len() == 2 && is_albums(c[0]) {
                s@ == set![Capability::Read, Capability::Write, Capability::Rename, Capability::RangeRead]
            } else {
                s@ == set![Capability::Read, Capability::Write, Capability::Rename, Capability::CreateDirectory, Capability::RangeRead]
            }
        }),
{
    let c = split_segments(path);
    proof {
        reveal_strlit("Albums");
        assert(forall|i: int| 0 <= i < c@.len() ==> #[trigger] c@[i]@ == segments(path@)[i]) by {
            assert(forall|i: int| 0 <= i < c@.len() ==> char_vec_views(c@)[i] == c@[i]@);
        }
    }
    if c.len() == 2 && spells(&c[0], "Albums") {
        let s = CapabilitySet::with(&[Capability::Read, Capability::Write, Capability::Rename, Capability::RangeRead]);
        proof {
            assert(s@ =~= set![Capability::Read, Capability::Write, Capability::Rename, Capability::RangeRead]);
        }
        s
    } else {
        google_photos_capabilities()
    }
}

/// The suffix that selects what a media download returns: the whole item,
/// or an inclusive byte range; an empty or reversed range is refused with
/// the reason.
pub fn range_suffix(range: Option<ByteRange>) -> (r: Result<String, String>)
    ensures
        match range {
            None => r matches Ok(s) && s@ == "=d"@,
            Some(b) => if b.start < b.end {
                r matches Ok(s) && s@ == "=d-r"@ + decimal_text(b.start as nat) + "-"@ + decimal_text((b.end - 1) as nat)
            } else {
                r matches Err(m) && m@ == empty_range_text()
            },
        },
{
    match range {
        None => Ok(String::from_str("=d")),
        Some(b) => {
            if b.start >= b.end {
                return Err(String::from_str("read range must have a positive length"));
            }
            let mut s = String::from_str("=d-r");
            push_decimal(&mut s, b.start);
            s.append("-");
            push_decimal(&mut s, b.end - 1);
            Ok(s)
        },
    }
}

/// Whether a path lies in the `Legacy` folder.
pub open spec fn in_legacy(path: Seq<char>) -> bool {
    path == "Legacy"@ || (path.len() >= 7 && path.take(7) == "Legacy/"@)
}

/// Whether a path lies in the `Legacy` folder.
pub fn is_legacy(path: &RemotePath) -> (r: bool)
    ensures
        r == in_legacy(path@),
{
    let v = chars_of(path.as_str());
    let name = chars_of("Legacy");
    let prefix = chars_of("Legacy/");
    proof {
        reveal_strlit("Legacy");
        reveal_strlit("Legacy/");
    }
    crate::text::chars_eq(v.as_slice(), name.as_slice()) || crate::text::chars_start_with(v.as_slice(), prefix.as_slice())
}

/// Why a path has no counterpart in the older Drive tree.
#[derive(Debug)]
pub enum LegacyPathError {
    /// The path is not in the `Legacy` folder.
    NotFound,
    /// The rest of the path does not parse; the reason.
    Invalid(String),
}

/// The text of a path after its `Legacy` folder.
pub open spec fn legacy_rest(path: Seq<char>) -> Seq<char> {
    if path == "Legacy"@ {
        Seq::empty()
    } else {
        path.skip(7)
    }
}

/// The path in the older Drive tree that a `Legacy` path shows.
pub fn legacy_path(path: &RemotePath) -> (r: Result<RemotePath, LegacyPathError>)
    ensures
        !in_legacy(path@) ==> r matches Err(LegacyPathError::NotFound),
        in_legacy(path@) ==> match parse_outcome(legacy_rest(path@)) {
            Ok(p) => r matches Ok(q) && q@ == p,
            Err(issue) => r matches Err(LegacyPathError::Invalid(m))
                && exists|e| parse_error_matches(legacy_rest(path@), issue, e) && m@ == bifrost_error_text(e),
        },
{
    if !is_legacy(path) {
        return Err(LegacyPathError::NotFound);
    }
    let v = chars_of(path.as_str());
    let mut rest: Vec<char> = Vec::new();
    if v.len() > 6 {
        for i in 7..v.len()
            invariant
                7 <= v@.len(),
                rest@ == v@.subrange(7, i as int),
        {
            rest.push(v[i]);
            proof {
                assert(v@.subrange(7, i + 1) =~= v@.subrange(7, i as int).push(v@[i as int]));
            }
        }
    }
    proof {
        reveal_strlit("Legacy");
        reveal_strlit("Legacy/");
        if path@ == "Legacy"@ {
            assert(rest@ =~= Seq::<char>::empty());
        } else {
            assert(v@.subrange(7, v@.len() as int) =~= v@.skip(7));
        }
    }
    let text = string_from_chars(rest.as_slice());
    match RemotePath::parse(text.as_str()) {
        Ok(p) => Ok(p),
        Err(e) => {
            proof {
                if let Err(issue) = parse_outcome(legacy_rest(path@)) {
                    assert(parse_error_matches(legacy_rest(path@), issue, e));
                }
            }
            Err(LegacyPathError::Invalid(e.message()))
        },
    }
}

/// The path under which an item of the older Drive tree is shown: inside
/// `Legacy`.
pub fn legacy_display_path(drive_path: &RemotePath) -> (r: Result<RemotePath, String>)
    ensures
        ({
            let candidate = if drive_path@.len() == 0 { "Legacy"@ } else { "Legacy"@ + seq!['/'] + drive_path@ };
            match parse_outcome(candidate) {
                Ok(p) => r matches Ok(q) && q@ == p,
                Err(issue) => r matches Err(m) && exists|e| parse_error_matches(candidate, issue, e) && m@ == bifrost_error_text(e),
            }
        }),
{
    let mut candidate = String::from_str("Legacy");
    let empty = drive_path.as_str().unicode_len() == 0;
    if !empty {
        candidate.append("/");
        candidate.append(drive_path.as_str());
    }
    proof {
        reveal_strlit("Legacy");
        reveal_strlit("/");
        if drive_path@.len() == 0 {
            assert(candidate@ == "Legacy"@);
        } else {
            assert(candidate@ =~= "Legacy"@ + seq!['/'] + drive_path@);
        }
    }
    match RemotePath::parse(candidate.as_str()) {
        Ok(p) => Ok(p),
        Err(e) => {
            proof {
                if let Err(issue) = parse_outcome(candidate@) {
                    assert(parse_error_matches(candidate@, issue, e));
                }
            }
            Err(e.message())
        },
    }
}

/// What the library with an optional older Drive tree offers: what Google
/// Photos offers, and what Google Drive offers when the tree is there.
pub fn hybrid_capabilities(has_legacy: bool) -> (s: CapabilitySet)
    ensures
        has_legacy ==> s@ == set![Capability::Read, Capability::Write, Capability::Rename, Capability::CreateDirectory, Capability::RangeRead]
            .union(set![Capability::Read, Capability::Write, Capability::Delete, Capability::Rename, Capability::ServerSideCopy,
                Capability::CreateDirectory, Capability::RangeRead]),
        !has_legacy ==> s@ == set![Capability::Read, Capability::Write, Capability::Rename, Capability::CreateDirectory, Capability::RangeRead],
{
    let photos = google_photos_capabilities();
    if has_legacy {
        let drive = google_drive_capabilities();
        union_of(&photos, &drive)
    } else {
        photos
    }
}

/// What a path of the library with an optional older Drive tree offers:
/// paths in `Legacy` offer what Google Drive offers (nothing without the
/// tree); others what their Google Photos folder offers.
pub fn hybrid_capabilities_for_path(has_legacy: bool, path: &RemotePath) -> (s: CapabilitySet)
    ensures
        in_legacy(path@) && has_legacy ==> s@ == set![Capability::Read, Capability::Write, Capability::Delete, Capability::Rename,
            Capability::ServerSideCopy, Capability::CreateDirectory, Capability::RangeRead],
        in_legacy(path@) && !has_legacy ==> s@ == Set::<Capability>::empty(),
        !in_legacy(path@) ==> ({
            let c = segments(path@);
            if c.len() == 2 && is_albums(c[0]) {
                s@ == set![Capability::Read, Capability::Write, Capability::Rename, Capability::RangeRead]
            } else {
                s@ == set![Capability::Read, Capability::Write, Capability::Rename, Capability::CreateDirectory, Capability::RangeRead]
            }
        }),
{
    if is_legacy(path) {
        if has_legacy {
            google_drive_capabilities()
        } else {
            CapabilitySet::new()
        }
    } else {
        capabilities_for_path(path.as_str())
    }
}

} // verus!
