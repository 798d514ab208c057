//! How the Immich provider lays out a photo library as folders: `Photos`
//! holds every asset, `Albums` one folder per album; asset and album names
//! carry their Immich id after `--`. Also the rules for reading the server
//! address a user typed and for paging through albums.
use vstd::prelude::*;
use crate::storage::ByteRange;
use crate::text::{
    char_vec_views, chars_contain, chars_of, contains_seq, decimal_text, matches_at, occurs_at, parse_u64, parsed_u64,
    push_char, push_decimal, segments, split_segments, string_from_chars, trim_chars, trimmed,
};

verus! {

broadcast use vstd::string::group_string_axioms;

/// The folder that holds every photo.
pub const PHOTOS_DIRECTORY: &'static str = "Photos";
/// The folder that holds one folder per album.
pub const ALBUMS_DIRECTORY: &'static str = "Albums";
/// How many assets a page of an album holds.
pub const PAGE_SIZE: u32 = 100;

/// How a user signs in to Immich.
#[derive(Debug, Clone, PartialEq, Eq)]
pub enum ImmichCredentials {
    ApiKey(String),
    Password { email: String, password: String },
}

/// The stored choice of sign-in method.
#[derive(Debug, Clone)]
pub struct ImmichAuthConfiguration {
    pub authentication: String,
}

/// Whether `value` starts with a non-empty scheme followed by `://`: its
/// first `://` is not at the start.
pub open spec fn spells_scheme(value: Seq<char>) -> bool {
    contains_seq(value, "://"@) && !occurs_at(value, "://"@, 0)
}

/// Whether a server address names its scheme explicitly.
pub fn has_explicit_scheme(value: &str) -> (r: bool)
    ensures
        r == spells_scheme(value@),
{
    let chars = chars_of(value);
    let sep = chars_of("://");
    proof {
        reveal_strlit("://");
    }
    chars_contain(chars.as_slice(), sep.as_slice()) && !matches_at(chars.as_slice(), sep.as_slice(), 0)
}

/// How one character of an asset or album name is written in a path.
pub open spec fn name_escape(c: char) -> Seq<char> {
    if c == '%' {
        "%25"@
    } else if c == '/' {
        "%2F"@
    } else if c == '\\' {
        "%5C"@
    } else {
        seq![c]
    }
}

/// A name with `%`, `/` and `\` percent-encoded.
pub open spec fn escaped_name(v: Seq<char>) -> Seq<char>
    decreases v.len(),
{
    if v.len() == 0 {
        Seq::empty()
    } else {
        escaped_name(v.drop_last()) + name_escape(v.last())
    }
}

/// Percent-encodes `%`, `/` and `\` in a name.
pub fn encode_name(value: &str) -> (r: String)
    ensures
        r@ == escaped_name(value@),
{
    let chars = chars_of(value);
    let mut out = String::new();
    proof {
        reveal_strlit("%25");
        reveal_strlit("%2F");
        reveal_strlit("%5C");
        assert(chars@.take(0) =~= Seq::<char>::empty());
    }
    for i in 0..chars.len()
        invariant
            chars@ == value@,
            out@ == escaped_name(chars@.take(i as int)),
    {
        let c = chars[i];
        proof {
            assert(chars@.take(i + 1).drop_last() =~= chars@.take(i as int));
            assert(chars@.take(i + 1).last() == c);
        }
        if c == '%' {
            out.append("%25");
        } else if c == '/' {
            out.append("%2F");
        } else if c == '\\' {
            out.append("%5C");
        } else {
            push_char(&mut out, c);
        }
    }
    proof {
        assert(chars@.take(chars@.len() as int) =~= chars@);
    }
    out
}

/// The path component of an asset or album: its encoded name, `--`, its id.
pub open spec fn named_with_id(name: Seq<char>, id: Seq<char>) -> Seq<char> {
    escaped_name(name) + "--"@ + id
}

/// The path component of an asset or album.
pub fn item_name(name: &str, id: &str) -> (r: String)
    ensures
        r@ == named_with_id(name@, id@),
{
    let mut out = encode_name(name);
    out.append("--");
    out.append(id);
    out
}

/// The position of the last `--` in `v`, if any.
pub open spec fn last_id_separator(v: Seq<char>) -> Option<int> {
    if exists|i: int| 0 <= i && occurs_at(v, "--"@, i) {
        Some(choose|i: int| 0 <= i && occurs_at(v, "--"@, i) && forall|j: int| i < j ==> !occurs_at(v, "--"@, j))
    } else {
        None
    }
}

/// The id a path component carries: what follows its last `--`.
pub open spec fn component_id(v: Seq<char>) -> Option<Seq<char>> {
    match last_id_separator(v) {
        Some(i) => Some(v.skip(i + 2)),
        None => None,
    }
}

/// The id a path component carries.
pub fn id_from_component(component: &[char]) -> (r: Option<String>)
    ensures
        match component_id(component@) {
            Some(id) => r matches Some(s) && s@ == id,
            None => r is None,
        },
{
    let sep = chars_of("--");
    proof {
        reveal_strlit("--");
    }
    let n = component.len();
    if n < 2 {
        proof {
            assert forall|i: int| 0 <= i && occurs_at(component@, "--"@, i) implies false by {}
        }
        return None;
    }
    let mut k: usize = n - 1;
    loop
        invariant
            n == component@.len() >= 2,
            sep@ == "--"@,
            1 <= k <= n - 1,
            forall|j: int| k <= j ==> !occurs_at(component@, "--"@, j),
        decreases k,
    {
        let at = k - 1;
        if matches_at(component, sep.as_slice(), at) {
            proof {
                assert(forall|j: int| at < j ==> !occurs_at(component@, "--"@, j));
                let w = choose|i: int| 0 <= i && occurs_at(component@, "--"@, i) && forall|j: int| i < j ==> !occurs_at(component@, "--"@, j);
                if w < at {
                    assert(!occurs_at(component@, "--"@, w) || !(forall|j: int| w < j ==> !occurs_at(component@, "--"@, j)));
                }
            }
            let mut id: Vec<char> = Vec::new();
            for i in at + 2..n
                invariant
                    at + 2 <= n == component@.len(),
                    id@ == component@.subrange(at + 2, i as int),
            {
                id.push(component[i]);
                proof {
                    assert(component@.subrange(at + 2, i + 1) =~= component@.subrange(at + 2, i as int).push(component@[i as int]));
                }
            }
            proof {
                assert(component@.subrange(at + 2, n as int) =~= component@.skip(at + 2));
            }
            return Some(string_from_chars(id.as_slice()));
        }
        if at == 0 {
            proof {
                assert forall|i: int| 0 <= i && occurs_at(component@, "--"@, i) implies false by {}
            }
            return None;
        }
        k = at;
    }
}

/// No `--` starts after the separator in front of such an id.
proof fn lemma_no_later_separator(e: Seq<char>, id: Seq<char>, j: int)
    requires
        !(id.len() > 0 && id[0] == '-'),
        forall|t: int| !occurs_at(id, "--"@, t),
        e.len() < j,
    ensures
        !occurs_at(e + "--"@ + id, "--"@, j),
{
    reveal_strlit("--");
    let v = e + "--"@ + id;
    let k = e.len() as int;
    if occurs_at(v, "--"@, j) {
        assert(v.subrange(j, j + 2)[0] == '-' && v.subrange(j, j + 2)[1] == '-');
        assert(v[j] == '-' && v[j + 1] == '-');
        if j == k + 1 {
            assert(v[k + 2] == id[0]);
        } else {
            let t = j - (k + 2);
            assert(id[t] == v[j] && id[t + 1] == v[j + 1]);
            assert(id.subrange(t, t + 2) =~= "--"@);
            assert(occurs_at(id, "--"@, t));
        }
    }
}

/// The id after a `--` that follows any prefix is what the component gives
/// back, when the id neither starts with `-` nor holds `--`.
proof fn lemma_id_after_separator(e: Seq<char>, id: Seq<char>)
    requires
        !(id.len() > 0 && id[0] == '-'),
        forall|t: int| !occurs_at(id, "--"@, t),
    ensures
        component_id(e + "--"@ + id) == Some(id),
{
    reveal_strlit("--");
    let v = e + "--"@ + id;
    let k = e.len() as int;
    assert(v.subrange(k, k + 2) =~= "--"@);
    assert(occurs_at(v, "--"@, k));
    let i = choose|i: int| 0 <= i && occurs_at(v, "--"@, i) && forall|j: int| i < j ==> !occurs_at(v, "--"@, j);
    assert(0 <= k && occurs_at(v, "--"@, k) && forall|j: int| k < j ==> !occurs_at(v, "--"@, j)) by {
        assert forall|j: int| k < j implies !occurs_at(v, "--"@, j) by {
            lemma_no_later_separator(e, id, j);
        }
    }
    if i > k {
        lemma_no_later_separator(e, id, i);
    }
    assert(i == k);
    assert(v.skip(k + 2) =~= id);
}

/// An asset or album component gives back the id it was named with, as long
/// as the id neither starts with `-` nor holds `--`.
pub proof fn lemma_component_id_round_trip(name: Seq<char>, id: Seq<char>)
    requires
        !(id.len() > 0 && id[0] == '-'),
        !contains_seq(id, "--"@),
    ensures
        component_id(named_with_id(name, id)) == Some(id),
{
    lemma_id_after_separator(escaped_name(name), id);
}

/// What a listing of a path of the library shows.
#[derive(Debug)]
pub enum ImmichListing {
    /// The two top folders.
    Root,
    /// One page of all photos.
    Photos,
    /// The album folders.
    Albums,
    /// One page of the assets of the album with this id.
    AlbumAssets { album_id: String },
    /// Nothing: the path does not exist.
    NotFound,
}

/// Whether a component is the photos folder.
pub open spec fn is_photos(c: Seq<char>) -> bool {
    c == "Photos"@
}

/// Whether a component is the albums folder.
pub open spec fn is_albums(c: Seq<char>) -> bool {
    c == "Albums"@
}

/// Whether `listing` is what a listing of `path` shows.
pub open spec fn listing_for(path: Seq<char>, listing: ImmichListing) -> bool {
    let c = segments(path);
    if c.len() == 0 {
        listing is Root
    } else if c.len() == 1 && is_photos(c[0]) {
        listing is Photos
    } else if c.len() == 1 && is_albums(c[0]) {
        listing is Albums
    } else if c.len() == 2 && is_albums(c[0]) {
        match component_id(c[1]) {
            Some(id) => listing matches ImmichListing::AlbumAssets { album_id } && album_id@ == id,
            None => listing is NotFound,
        }
    } else {
        listing is NotFound
    }
}

/// Whether a component vector spells `name`.
fn spells(c: &Vec<char>, name: &str) -> (r: bool)
    ensures
        r == (c@ == name@),
{
    let n = chars_of(name);
    crate::text::chars_eq(c.as_slice(), n.as_slice())
}

/// Decides what a listing of `path` shows.
pub fn classify_listing(path: &str) -> (r: ImmichListing)
    ensures
        listing_for(path@, r),
{
    let c = split_segments(path);
    proof {
        reveal_strlit("Photos");
        reveal_strlit("Albums");
        assert(c@.len() == segments(path@).len());
        assert(forall|i: int| 0 <= i < c@.len() ==> #[trigger] c@[i]@ == segments(path@)[i]) by {
            assert(forall|i: int| 0 <= i < c@.len() ==> char_vec_views(c@)[i] == c@[i]@);
        }
    }
    if c.len() == 0 {
        ImmichListing::Root
    } else if c.len() == 1 && spells(&c[0], "Photos") {
        ImmichListing::Photos
    } else if c.len() == 1 && spells(&c[0], "Albums") {
        ImmichListing::Albums
    } else if c.len() == 2 && spells(&c[0], "Albums") {
        match id_from_component(c[1].as_slice()) {
            Some(album_id) => ImmichListing::AlbumAssets { album_id },
            None => ImmichListing::NotFound,
        }
    } else {
        ImmichListing::NotFound
    }
}

/// What a path of the library is, for its metadata.
#[derive(Debug)]
pub enum ImmichItem {
    /// A folder: the root, a top folder, or (once the album is found) an album.
    Directory,
    /// The asset with this id.
    Asset { id: String },
    /// The album folder with this id.
    Album { id: String },
    /// Nothing: the path does not exist.
    NotFound,
}

/// Whether `item` is what `path` is.
pub open spec fn item_for(path: Seq<char>, item: ImmichItem) -> bool {
    let c = segments(path);
    if c.len() == 0 || (c.len() == 1 && (is_photos(c[0]) || is_albums(c[0]))) {
        item is Directory
    } else if c.len() == 2 && is_photos(c[0]) {
        match component_id(c[1]) {
            Some(id) => item matches ImmichItem::Asset { id: i } && i@ == id,
            None => item is NotFound,
        }
    } else if c.len() == 2 && is_albums(c[0]) {
        match component_id(c[1]) {
            Some(id) => item matches ImmichItem::Album { id: i } && i@ == id,
            None => item is NotFound,
        }
    } else if c.len() == 3 && is_albums(c[0]) {
        match component_id(c[2]) {
            Some(id) => item matches ImmichItem::Asset { id: i } && i@ == id,
            None => item is NotFound,
        }
    } else {
        item is NotFound
    }
}

/// Decides what a path of the library is.
pub fn classify_item(path: &str) -> (r: ImmichItem)
    ensures
        item_for(path@, r),
{
    let c = split_segments(path);
    proof {
        reveal_strlit("Photos");
        reveal_strlit("Albums");
        assert(forall|i: int| 0 <= i < c@.len() ==> #[trigger] c@[i]@ == segments(path@)[i]) by {
            assert(forall|i: int| 0 <= i < c@.len() ==> char_vec_views(c@)[i] == c@[i]@);
        }
    }
    if c.len() == 0 || (c.len() == 1 && (spells(&c[0], "Photos") || spells(&c[0], "Albums"))) {
        ImmichItem::Directory
    } else if c.len() == 2 && spells(&c[0], "Photos") {
        match id_from_component(c[1].as_slice()) {
            Some(id) => ImmichItem::Asset { id },
            None => ImmichItem::NotFound,
        }
    } else if c.len() == 2 && spells(&c[0], "Albums") {
        match id_from_component(c[1].as_slice()) {
            Some(id) => ImmichItem::Album { id },
            None => ImmichItem::NotFound,
        }
    } else if c.len() == 3 && spells(&c[0], "Albums") {
        match id_from_component(c[2].as_slice()) {
            Some(id) => ImmichItem::Asset { id },
            None => ImmichItem::NotFound,
        }
    } else {
        ImmichItem::NotFound
    }
}

/// The asset a read of `path` downloads: the id of `Photos/<asset>` or
/// `Albums/<album>/<asset>`.
pub open spec fn readable_asset(path: Seq<char>) -> Option<Seq<char>> {
    let c = segments(path);
    if c.len() == 2 && is_photos(c[0]) {
        component_id(c[1])
    } else if c.len() == 3 && is_albums(c[0]) {
        component_id(c[2])
    } else {
        None
    }
}

/// The asset a read of `path` downloads; other paths (folders) cannot be
/// read.
pub fn read_asset_id(path: &str) -> (r: Option<String>)
    ensures
        match readable_asset(path@) {
            Some(id) => r matches Some(s) && s@ == id,
            None => r is None,
        },
{
    let c = split_segments(path);
    proof {
        reveal_strlit("Photos");
        reveal_strlit("Albums");
        assert(forall|i: int| 0 <= i < c@.len() ==> #[trigger] c@[i]@ == segments(path@)[i]) by {
            assert(forall|i: int| 0 <= i < c@.len() ==> char_vec_views(c@)[i] == c@[i]@);
        }
    }
    if c.len() == 2 && spells(&c[0], "Photos") {
        id_from_component(c[1].as_slice())
    } else if c.len() == 3 && spells(&c[0], "Albums") {
        id_from_component(c[2].as_slice())
    } else {
        None
    }
}

/// The page a cursor names: the first page without one; the cursor must be
/// a `u32`.
pub open spec fn cursor_page(cursor: Option<Seq<char>>) -> Option<u32> {
    let text = match cursor {
        Some(t) => t,
        None => "1"@,
    };
    match parsed_u64(text) {
        Some(v) => if v <= u32::MAX { Some(v as u32) } else { None },
        None => None,
    }
}

/// Reads an album page cursor; a cursor that is not a `u32` is refused
/// with the reason.
pub fn album_page(cursor: Option<&str>) -> (r: Result<u32, String>)
    ensures
        match cursor_page(match cursor { Some(t) => Some(t@), None => None }) {
            Some(p) => r matches Ok(v) && v == p,
            None => r matches Err(m) && m@ == "Immich album page cursor is invalid"@,
        },
{
    let text = match cursor {
        Some(t) => chars_of(t),
        None => chars_of("1"),
    };
    proof {
        reveal_strlit("1");
    }
    match parse_u64(text.as_slice()) {
        Some(v) => if v <= 0xffff_ffff {
            Ok(v as u32)
        } else {
            Err(String::from_str("Immich album page cursor is invalid"))
        },
        None => Err(String::from_str("Immich album page cursor is invalid")),
    }
}

/// The assets that page `page` of an album with `total` assets shows, as the
/// positions `start..end`: pages hold `PAGE_SIZE` assets and are counted
/// from one (page zero is the first page too).
pub open spec fn album_page_window(total: nat, page: u32) -> (int, int) {
    let start = (if page == 0 { 0 } else { page - 1 }) * PAGE_SIZE;
    let end = start + PAGE_SIZE;
    (if start > total { total as int } else { start }, if end > total { total as int } else { end })
}

/// The positions of the assets of an album page.
pub fn album_page_range(total: usize, page: u32) -> (r: (usize, usize))
    ensures
        r.0 as int == album_page_window(total as nat, page).0,
        r.1 as int == album_page_window(total as nat, page).1,
{
    let before: u64 = if page == 0 { 0 } else { (page - 1) as u64 };
    let start: u64 = before * 100;
    let end: u64 = start + 100;
    let s = if start > total as u64 { total } else { start as usize };
    let e = if end > total as u64 { total } else { end as usize };
    (s, e)
}

/// The cursor of the page after `page` of an album: present only when this
/// page was full.
pub open spec fn next_album_cursor(page: u32, shown: nat) -> Option<Seq<char>> {
    if shown > 0 && shown == PAGE_SIZE {
        Some(decimal_text((page + 1) as nat))
    } else {
        None
    }
}

/// The cursor of the page after `page`, given how many assets it showed.
pub fn album_next_cursor(page: u32, shown: usize) -> (r: Option<String>)
    ensures
        match next_album_cursor(page, shown as nat) {
            Some(t) => r matches Some(s) && s@ == t,
            None => r is None,
        },
{
    if shown > 0 && shown == 100 {
        let mut s = String::new();
        push_decimal(&mut s, page as u64 + 1);
        Some(s)
    } else {
        None
    }
}

/// The `nextPage` value of a search answer, as JSON carries it.
pub enum CursorValue {
    Null,
    Text(String),
    /// A number, by its JSON spelling.
    Number(String),
    /// Anything else.
    Other,
}

/// The next-page cursor of a search answer: text that is not empty, or a
/// number's spelling.
pub fn value_to_cursor(value: CursorValue) -> (r: Option<String>)
    ensures
        match value {
            CursorValue::Text(t) => if t@.len() == 0 { r is None } else { r matches Some(s) && s@ == t@ },
            CursorValue::Number(n) => r matches Some(s) && s@ == n@,
            _ => r is None,
        },
{
    match value {
        CursorValue::Null => None,
        CursorValue::Text(t) => if t.as_str().unicode_len() == 0 { None } else { Some(t) },
        CursorValue::Number(n) => Some(n),
        CursorValue::Other => None,
    }
}

/// How a typed server address is tried.
#[derive(Debug)]
pub enum EndpointPlan {
    /// The address names its scheme: try it as it is.
    AsTyped(String),
    /// Try HTTPS, then HTTP, in front of the address.
    Fallback { https: String, http: String },
}

/// Reads a typed server address: surrounding white space is dropped; an
/// empty address is refused with the reason; one without a scheme is tried
/// over HTTPS and then HTTP.
pub fn endpoint_plan(input: &str) -> (r: Result<EndpointPlan, String>)
    ensures
        ({
            let t = trimmed(input@);
            if t.len() == 0 {
                r matches Err(m) && m@ == "Immich server URL is required"@
            } else if spells_scheme(t) {
                r matches Ok(EndpointPlan::AsTyped(s)) && s@ == t
            } else {
                r matches Ok(EndpointPlan::Fallback { https, http }) && https@ == "https://"@ + t && http@ == "http://"@ + t
            }
        }),
{
    let chars = chars_of(input);
    let t = trim_chars(chars.as_slice());
    if t.len() == 0 {
        return Err(String::from_str("Immich server URL is required"));
    }
    let text = string_from_chars(t.as_slice());
    if has_explicit_scheme(text.as_str()) {
        Ok(EndpointPlan::AsTyped(text))
    } else {
        let mut https = String::from_str("https://");
        https.append(text.as_str());
        let mut http = String::from_str("http://");
        http.append(text.as_str());
        Ok(EndpointPlan::Fallback { https, http })
    }
}

/// The texts joined with `sep` between them.
pub open spec fn joined(parts: Seq<Seq<char>>, sep: Seq<char>) -> Seq<char>
    decreases parts.len(),
{
    if parts.len() == 0 {
        Seq::empty()
    } else if parts.len() == 1 {
        parts[0]
    } else {
        joined(parts.drop_last(), sep) + sep + parts.last()
    }
}

/// The views of some strings.
pub open spec fn string_views(v: Seq<String>) -> Seq<Seq<char>> {
    v.map_values(|s: String| s@)
}

/// The reason reported when neither HTTPS nor HTTP reached the server, with
/// the failures that were met, separated by `; `.
pub fn fallback_failure(failures: &Vec<String>) -> (m: String)
    ensures
        m@ == "could not connect using HTTPS or HTTP: "@ + joined(string_views(failures@), "; "@),
{
    let mut message = String::from_str("could not connect using HTTPS or HTTP: ");
    let ghost head = message@;
    proof {
        reveal_strlit("; ");
        assert(string_views(failures@).take(0) =~= Seq::<Seq<char>>::empty());
    }
    for i in 0..failures.len()
        invariant
            message@ == head + joined(string_views(failures@).take(i as int), "; "@),
    {
        proof {
            let v = string_views(failures@);
            assert(v.take(i + 1).drop_last() =~= v.take(i as int));
            assert(v.take(i + 1).last() == failures@[i as int]@);
            assert(v.take(i + 1).len() == i + 1);
            if i == 0 {
                assert(v.take(1)[0] == failures@[0]@);
            }
        }
        if i > 0 {
            message.append("; ");
        }
        message.append(failures[i].as_str());
    }
    proof {
        assert(string_views(failures@).take(failures@.len() as int) =~= string_views(failures@));
    }
    message
}

/// The `Range` header of an asset download; an empty or reversed range is
/// refused with the reason.
pub fn range_header(range: Option<ByteRange>) -> (r: Result<Option<String>, String>)
    ensures
        match range {
            None => r matches Ok(None),
            Some(b) => if b.start < b.end {
                r matches Ok(Some(h)) && h@ == crate::storage::range_header_text(b)
            } else {
                r matches Err(m) && m@ == crate::storage::empty_range_text()
            },
        },
{
    match range {
        None => Ok(None),
        Some(b) => {
            if b.start >= b.end {
                return Err(String::from_str("read range must have a positive length"));
            }
            let mut header = String::from_str("bytes=");
            push_decimal(&mut header, b.start);
            header.append("-");
            push_decimal(&mut header, b.end - 1);
            Ok(Some(header))
        },
    }
}

} // verus!
