//! What each Google Photos operation does with the path it is given: which
//! listing answers a folder, what a `stat` looks up, where reads and uploads
//! go, which albums can be made or renamed, how listed media and albums
//! become entries, and what an upload's answer means.
use vstd::prelude::*;
use crate::google_photos::{encode_name, media_item_name, PhotosTarget};
use crate::immich::{escaped_name, named_with_id};
use crate::path::{lemma_plain_component_parses, parse_outcome, path_issue_text, RemotePath};
use crate::storage::{RemoteEntry, RemoteMetadata};
use crate::sync_run::opt_text;
use crate::text::str_eq;

verus! {

broadcast use vstd::string::group_string_axioms;

/// A media item as the Library API describes it. The creation time is RFC
/// 3339 text.
#[derive(Debug)]
pub struct MediaItem {
    pub id: String,
    pub filename: String,
    pub base_url: String,
    pub creation_time: Option<String>,
}

/// An album as the Library API describes it.
#[derive(Debug)]
pub struct Album {
    pub id: String,
    pub title: String,
}

/// Why a Google Photos operation is refused.
#[derive(Debug)]
pub enum PhotosError {
    /// The library refuses the request, with the reason.
    Provider(String),
    /// The operation is not offered at that path.
    Unsupported(String),
    /// Nothing is at the path.
    NotFound(RemotePath),
}

/// Whether an error is the refusal that a path outcome gives.
pub open spec fn refuses_with(e: PhotosError, outcome: Result<Seq<char>, Seq<char>>) -> bool {
    outcome matches Err(m) && e matches PhotosError::Provider(t) && t@ == m
}

/// Which listing answers a folder.
#[derive(Debug)]
pub enum PhotosListing {
    /// The root: the `All Photos` and `Albums` folders.
    TopFolders,
    /// `All Photos`: every media item.
    AllMedia,
    /// `Albums`: one folder per album.
    AlbumList,
    /// An album folder: the album's media.
    AlbumMedia(String),
    /// Nothing to list.
    Missing,
}

/// Which listing answers a folder: the root lists the two top folders,
/// `All Photos` the media, `Albums` the albums, an album folder its media;
/// other paths list nothing.
pub fn listing_plan(target: PhotosTarget) -> (r: PhotosListing)
    ensures
        match target {
            PhotosTarget::Root => r is TopFolders,
            PhotosTarget::AllPhotos => r is AllMedia,
            PhotosTarget::Albums => r is AlbumList,
            PhotosTarget::Album { title } => r matches PhotosListing::AlbumMedia(t) && t@ == title@,
            _ => r is Missing,
        },
{
    match target {
        PhotosTarget::Root => PhotosListing::TopFolders,
        PhotosTarget::AllPhotos => PhotosListing::AllMedia,
        PhotosTarget::Albums => PhotosListing::AlbumList,
        PhotosTarget::Album { title } => PhotosListing::AlbumMedia(title),
        _ => PhotosListing::Missing,
    }
}

/// A folder's metadata: a directory with nothing else known.
pub fn folder_metadata(path: RemotePath) -> (m: RemoteMetadata)
    ensures
        m.path@ == path@,
        m.is_directory,
        m.size_bytes is None && m.etag is None && m.modified_at is None,
{
    RemoteMetadata { path, is_directory: true, size_bytes: None, etag: None, modified_at: None }
}

/// The entries of the library's root: the `All Photos` folder, then the
/// `Albums` folder.
pub fn top_folders() -> (r: Vec<RemoteEntry>)
    ensures
        r@.len() == 2,
        r@[0].metadata.path@ == "All Photos"@ && r@[0].metadata.is_directory,
        r@[1].metadata.path@ == "Albums"@ && r@[1].metadata.is_directory,
        forall|k: int| 0 <= k < 2 ==> (#[trigger] r@[k]).metadata.size_bytes is None && r@[k].metadata.etag is None
            && r@[k].metadata.modified_at is None,
{
    proof {
        reveal_strlit("All Photos");
        reveal_strlit("Albums");
        lemma_plain_component_parses("All Photos"@);
        lemma_plain_component_parses("Albums"@);
    }
    let all = match RemotePath::parse("All Photos") {
        Ok(p) => p,
        Err(_) => RemotePath::root(),
    };
    let albums = match RemotePath::parse("Albums") {
        Ok(p) => p,
        Err(_) => RemotePath::root(),
    };
    let mut entries: Vec<RemoteEntry> = Vec::new();
    entries.push(RemoteEntry { metadata: folder_metadata(all) });
    entries.push(RemoteEntry { metadata: folder_metadata(albums) });
    entries
}

/// The path of a listed media item below `prefix`, as joining its name
/// (`name--id`) to the prefix gives it, or the reason it is refused.
pub open spec fn media_path_outcome(prefix: Seq<char>, filename: Seq<char>, id: Seq<char>) -> Result<Seq<char>, Seq<char>> {
    let name = named_with_id(filename, id);
    let candidate = if prefix.len() == 0 { name } else { prefix + seq!['/'] + name };
    match parse_outcome(candidate) {
        Ok(p) => Ok(p),
        Err(issue) => Err(path_issue_text(candidate, issue)),
    }
}

/// The path of a listed media item below `prefix`.
pub fn media_path(prefix: &RemotePath, item: &MediaItem) -> (r: Result<RemotePath, PhotosError>)
    ensures
        match media_path_outcome(prefix@, item.filename@, item.id@) {
            Ok(p) => r matches Ok(path) && path@ == p,
            Err(m) => r matches Err(PhotosError::Provider(e)) && e@ == m,
        },
{
    let name = media_item_name(item.filename.as_str(), item.id.as_str());
    let joined = prefix.join(name.as_str());
    proof {
        if joined is Err {
            let e = joined->Err_0;
            let candidate = if prefix@.len() == 0 { name@ } else { prefix@ + seq!['/'] + name@ };
            assert(crate::error::bifrost_error_text(e) =~= path_issue_text(candidate, parse_outcome(candidate)->Err_0));
        }
    }
    match joined {
        Ok(p) => Ok(p),
        Err(e) => Err(PhotosError::Provider(e.message())),
    }
}

/// The metadata of a media item listed at `path`: a file of unknown size,
/// tagged by its id, made at its creation time.
pub fn media_metadata(item: MediaItem, path: RemotePath) -> (m: RemoteMetadata)
    ensures
        m.path@ == path@,
        !m.is_directory,
        m.size_bytes is None,
        opt_text(m.etag) == Some(item.id@),
        opt_text(m.modified_at) == opt_text(item.creation_time),
{
    RemoteMetadata { path, is_directory: false, size_bytes: None, etag: Some(item.id), modified_at: item.creation_time }
}

/// Whether an entry is what a listed media item gives at `path`.
pub open spec fn is_media_entry(e: RemoteEntry, item: MediaItem, path: Seq<char>) -> bool {
    &&& e.metadata.path@ == path
    &&& !e.metadata.is_directory
    &&& e.metadata.size_bytes is None
    &&& opt_text(e.metadata.etag) == Some(item.id@)
    &&& opt_text(e.metadata.modified_at) == opt_text(item.creation_time)
}

/// The entries of listed media items below `prefix`, in order; the first
/// item whose path is refused refuses the listing.
pub fn media_entries(prefix: &RemotePath, items: Vec<MediaItem>) -> (r: Result<Vec<RemoteEntry>, PhotosError>)
    ensures
        (forall|k: int| 0 <= k < items@.len() ==> (#[trigger] media_path_outcome(prefix@, items@[k].filename@, items@[k].id@)) is Ok)
            ==> (r matches Ok(v) && v@.len() == items@.len() && forall|k: int| 0 <= k < items@.len() ==> #[trigger] is_media_entry(
            v@[k],
            items@[k],
            media_path_outcome(prefix@, items@[k].filename@, items@[k].id@)->Ok_0,
        )),
        r matches Err(e) ==> exists|k: int| 0 <= k < items@.len()
            && (forall|j: int| 0 <= j < k ==> (#[trigger] media_path_outcome(prefix@, items@[j].filename@, items@[j].id@)) is Ok)
            && refuses_with(e, #[trigger] media_path_outcome(prefix@, items@[k].filename@, items@[k].id@)),
{
    let ghost all = items@;
    let mut pending = items;
    let mut out: Vec<RemoteEntry> = Vec::new();
    let ghost mut done: int = 0;
    while pending.len() > 0
        invariant
            all == items@,
            0 <= done <= all.len(),
            pending@ == all.skip(done),
            out@.len() == done,
            forall|j: int| 0 <= j < done ==> (#[trigger] media_path_outcome(prefix@, all[j].filename@, all[j].id@)) is Ok,
            forall|j: int| 0 <= j < done ==> #[trigger] is_media_entry(
                out@[j],
                all[j],
                media_path_outcome(prefix@, all[j].filename@, all[j].id@)->Ok_0,
            ),
        decreases pending@.len(),
    {
        let ghost before = pending@;
        let item = pending.remove(0);
        proof {
            assert(before[0] == all[done]);
            assert(pending@ =~= all.skip(done + 1));
        }
        let path = match media_path(prefix, &item) {
            Ok(p) => p,
            Err(e) => {
                proof {
                    assert(media_path_outcome(prefix@, all[done].filename@, all[done].id@) is Err);
                }
                return Err(e);
            },
        };
        out.push(RemoteEntry { metadata: media_metadata(item, path) });
        proof {
            done = done + 1;
        }
    }
    Ok(out)
}

/// The path of an album's folder, as joining its escaped title to `Albums`
/// gives it, or the reason it is refused.
pub open spec fn album_path_outcome(title: Seq<char>) -> Result<Seq<char>, Seq<char>> {
    let candidate = "Albums"@ + seq!['/'] + escaped_name(title);
    match parse_outcome(candidate) {
        Ok(p) => Ok(p),
        Err(issue) => Err(path_issue_text(candidate, issue)),
    }
}

/// The folders of listed albums, in order; the first album whose folder is
/// refused refuses the listing.
pub fn album_entries(albums: &Vec<Album>) -> (r: Result<Vec<RemoteEntry>, PhotosError>)
    ensures
        (forall|k: int| 0 <= k < albums@.len() ==> (#[trigger] album_path_outcome(albums@[k].title@)) is Ok) ==> (r matches Ok(
            v,
        ) && v@.len() == albums@.len() && forall|k: int| 0 <= k < albums@.len() ==> {
            &&& (#[trigger] v@[k]).metadata.path@ == album_path_outcome(albums@[k].title@)->Ok_0
            &&& v@[k].metadata.is_directory
        }),
        r matches Err(e) ==> exists|k: int| 0 <= k < albums@.len()
            && (forall|j: int| 0 <= j < k ==> (#[trigger] album_path_outcome(albums@[j].title@)) is Ok)
            && refuses_with(e, #[trigger] album_path_outcome(albums@[k].title@)),
{
    let mut out: Vec<RemoteEntry> = Vec::new();
    for k in 0..albums.len()
        invariant
            out@.len() == k,
            forall|j: int| 0 <= j < k ==> (#[trigger] album_path_outcome(albums@[j].title@)) is Ok,
            forall|j: int| 0 <= j < k ==> {
                &&& (#[trigger] out@[j]).metadata.path@ == album_path_outcome(albums@[j].title@)->Ok_0
                &&& out@[j].metadata.is_directory
            },
    {
        let mut candidate = String::from_str("Albums/");
        let escaped = encode_name(albums[k].title.as_str());
        candidate.append(escaped.as_str());
        proof {
            reveal_strlit("Albums/");
            reveal_strlit("Albums");
            assert(candidate@ =~= "Albums"@ + seq!['/'] + escaped_name(albums@[k as int].title@));
        }
        let parsed = RemotePath::parse(candidate.as_str());
        proof {
            if parsed is Err {
                let e = parsed->Err_0;
                assert(crate::error::bifrost_error_text(e) =~= path_issue_text(candidate@, parse_outcome(candidate@)->Err_0));
            }
        }
        match parsed {
            Ok(path) => {
                out.push(RemoteEntry { metadata: folder_metadata(path) });
            },
            Err(e) => {
                let message = e.message();
                proof {
                    assert(album_path_outcome(albums@[k as int].title@) == Err::<Seq<char>, Seq<char>>(message@));
                    assert(refuses_with(PhotosError::Provider(message), album_path_outcome(albums@[k as int].title@)));
                }
                return Err(PhotosError::Provider(message));
            },
        }
    }
    Ok(out)
}

/// What a `stat` looks up.
#[derive(Debug)]
pub enum PhotosStat {
    /// The path is a folder that is always there.
    Folder,
    /// The album with this title is found; the path is its folder.
    AlbumFolder(String),
    /// The media item named `name` is found, in the album with this title
    /// or in `All Photos`.
    Media { album: Option<String>, name: String },
    /// Nothing is at the path.
    Missing,
}

/// What a `stat` looks up: the root and the two top folders are always
/// there; an album folder needs its album, a media item its item.
pub fn stat_plan(target: PhotosTarget) -> (r: PhotosStat)
    ensures
        match target {
            PhotosTarget::Root | PhotosTarget::AllPhotos | PhotosTarget::Albums => r is Folder,
            PhotosTarget::Album { title } => r matches PhotosStat::AlbumFolder(t) && t@ == title@,
            PhotosTarget::Media { album, name } => r matches PhotosStat::Media { album: a, name: n }
                && opt_text(a) == opt_text(album) && n@ == name@,
            PhotosTarget::NotFound => r is Missing,
        },
{
    match target {
        PhotosTarget::Root | PhotosTarget::AllPhotos | PhotosTarget::Albums => PhotosStat::Folder,
        PhotosTarget::Album { title } => PhotosStat::AlbumFolder(title),
        PhotosTarget::Media { album, name } => PhotosStat::Media { album, name },
        PhotosTarget::NotFound => PhotosStat::Missing,
    }
}

/// Where a read goes: a media item (with its album's title, if it is in
/// one); a folder cannot be read.
pub fn read_plan(target: PhotosTarget) -> (r: Result<(Option<String>, String), PhotosError>)
    ensures
        match target {
            PhotosTarget::Media { album, name } => r matches Ok(v) && opt_text(v.0) == opt_text(album) && v.1@ == name@,
            _ => r matches Err(PhotosError::Unsupported(c)) && c@ == "read_directory"@,
        },
{
    match target {
        PhotosTarget::Media { album, name } => Ok((album, name)),
        _ => Err(PhotosError::Unsupported(String::from_str("read_directory"))),
    }
}

/// Where an upload goes: `All Photos` (no album) or an album, by title; any
/// other path is refused.
pub fn upload_plan(target: PhotosTarget) -> (r: Result<Option<String>, PhotosError>)
    ensures
        match target {
            PhotosTarget::Media { album, .. } => r matches Ok(a) && opt_text(a) == opt_text(album),
            _ => r matches Err(PhotosError::Provider(m))
                && m@ == "Google Photos uploads must target All Photos or an app-created album"@,
        },
{
    match target {
        PhotosTarget::Media { album, .. } => Ok(album),
        _ => Err(PhotosError::Provider(String::from_str("Google Photos uploads must target All Photos or an app-created album"))),
    }
}

/// The text after the last `/` (all of it where there is none).
pub open spec fn after_last_slash(s: Seq<char>) -> Seq<char> {
    crate::drive_ops::split_at_last_slash(s).1
}

/// The file name an upload is given: the last component of its path, which
/// must not be empty.
pub fn upload_file_name(path: &RemotePath) -> (r: Result<String, PhotosError>)
    ensures
        after_last_slash(path@).len() > 0 ==> (r matches Ok(n) && n@ == after_last_slash(path@)),
        after_last_slash(path@).len() == 0 ==> (r matches Err(PhotosError::Provider(m))
            && m@ == "a file name is required for Google Photos uploads"@),
{
    let (_, name) = crate::drive_ops::split_last_component(path.as_str());
    if name.unicode_len() == 0 {
        return Err(PhotosError::Provider(String::from_str("a file name is required for Google Photos uploads")));
    }
    Ok(name)
}

/// The title of an album to be made: only a folder directly in `Albums` can
/// be made.
pub fn new_album_title(target: PhotosTarget) -> (r: Result<String, PhotosError>)
    ensures
        match target {
            PhotosTarget::Album { title } => r matches Ok(t) && t@ == title@,
            _ => r matches Err(PhotosError::Unsupported(c)) && c@ == "create_directory"@,
        },
{
    match target {
        PhotosTarget::Album { title } => Ok(title),
        _ => Err(PhotosError::Unsupported(String::from_str("create_directory"))),
    }
}

/// The titles of an album renamed: only an album folder renamed to another
/// album folder.
pub fn album_rename(from: PhotosTarget, to: PhotosTarget) -> (r: Result<(String, String), PhotosError>)
    ensures
        match (from, to) {
            (PhotosTarget::Album { title: a }, PhotosTarget::Album { title: b }) => r matches Ok(v) && v.0@ == a@ && v.1@ == b@,
            _ => r matches Err(PhotosError::Unsupported(c)) && c@ == "rename"@,
        },
{
    match (from, to) {
        (PhotosTarget::Album { title: a }, PhotosTarget::Album { title: b }) => Ok((a, b)),
        _ => Err(PhotosError::Unsupported(String::from_str("rename"))),
    }
}

/// The position of the first listed album with this title.
pub fn find_album_in(albums: &Vec<Album>, title: &str) -> (r: Option<usize>)
    ensures
        match r {
            Some(k) => k < albums@.len() && albums@[k as int].title@ == title@
                && forall|j: int| 0 <= j < k ==> #[trigger] albums@[j].title@ != title@,
            None => forall|j: int| 0 <= j < albums@.len() ==> #[trigger] albums@[j].title@ != title@,
        },
{
    for k in 0..albums.len()
        invariant
            forall|j: int| 0 <= j < k ==> #[trigger] albums@[j].title@ != title@,
    {
        if str_eq(albums[k].title.as_str(), title) {
            return Some(k);
        }
    }
    None
}

/// Whether a listed media item is the one a path component names: its
/// name (`name--id`) read as a path is the component.
pub open spec fn media_named(filename: Seq<char>, id: Seq<char>, name: Seq<char>) -> bool {
    media_path_outcome(Seq::empty(), filename, id) == Ok::<Seq<char>, Seq<char>>(name)
}

/// The position of the first listed media item that a path component
/// names.
pub fn find_media_in(items: &Vec<MediaItem>, name: &str) -> (r: Option<usize>)
    ensures
        match r {
            Some(k) => k < items@.len() && media_named(items@[k as int].filename@, items@[k as int].id@, name@)
                && forall|j: int| 0 <= j < k ==> !media_named(#[trigger] items@[j].filename@, items@[j].id@, name@),
            None => forall|j: int| 0 <= j < items@.len() ==> !media_named(#[trigger] items@[j].filename@, items@[j].id@, name@),
        },
{
    let root = RemotePath::root();
    for k in 0..items.len()
        invariant
            root@.len() == 0,
            forall|j: int| 0 <= j < k ==> !media_named(#[trigger] items@[j].filename@, items@[j].id@, name@),
    {
        let matched = match media_path(&root, &items[k]) {
            Ok(p) => str_eq(p.as_str(), name),
            Err(_) => false,
        };
        if matched {
            return Some(k);
        }
    }
    None
}

/// How the library answered an upload.
#[derive(Debug)]
pub struct UploadStatus {
    pub code: Option<i32>,
    pub message: Option<String>,
}

/// The first result of a batch upload.
#[derive(Debug)]
pub struct UploadResult {
    pub status: Option<UploadStatus>,
    pub media_item: Option<MediaItem>,
}

/// What an upload's answer gives: no result, a non-zero status (with its
/// message, or a default one), or no media item are refused; otherwise the
/// media item made.
pub fn accept_upload(first: Option<UploadResult>) -> (r: Result<MediaItem, PhotosError>)
    ensures
        match first {
            None => r matches Err(PhotosError::Provider(m)) && m@ == "Google Photos did not return an upload result"@,
            Some(result) => match result.status {
                Some(s) if s.code matches Some(c) && c != 0 => r matches Err(PhotosError::Provider(m)) && m@ == match s.message {
                    Some(t) => t@,
                    None => "Google Photos rejected the upload"@,
                },
                _ => match result.media_item {
                    None => r matches Err(PhotosError::Provider(m)) && m@ == "Google Photos did not create a media item"@,
                    Some(item) => r matches Ok(i) && i.id@ == item.id@ && i.filename@ == item.filename@
                        && i.base_url@ == item.base_url@ && opt_text(i.creation_time) == opt_text(item.creation_time),
                },
            },
        },
{
    let result = match first {
        None => return Err(PhotosError::Provider(String::from_str("Google Photos did not return an upload result"))),
        Some(r) => r,
    };
    if let Some(status) = result.status {
        let failed = match status.code {
            Some(c) => c != 0,
            None => false,
        };
        if failed {
            return Err(PhotosError::Provider(
                match status.message {
                    Some(t) => t,
                    None => String::from_str("Google Photos rejected the upload"),
                },
            ));
        }
    }
    match result.media_item {
        None => Err(PhotosError::Provider(String::from_str("Google Photos did not create a media item"))),
        Some(item) => Ok(item),
    }
}

/// The folder an uploaded item is listed in: `Albums/` and the album's id,
/// or `All Photos`.
pub open spec fn upload_folder_text(album_id: Option<Seq<char>>) -> Seq<char> {
    match album_id {
        Some(id) => "Albums/"@ + id,
        None => "All Photos"@,
    }
}

/// The metadata of an uploaded item, listed in the folder it went to. An
/// album's id must make a valid folder path.
pub fn uploaded_metadata(album_id: Option<&str>, item: MediaItem) -> (r: Result<RemoteMetadata, PhotosError>)
    requires
        parse_outcome(upload_folder_text(
            match album_id {
                Some(a) => Some(a@),
                None => None,
            },
        )) is Ok,
    ensures
        ({
            let folder = parse_outcome(upload_folder_text(
                match album_id {
                    Some(a) => Some(a@),
                    None => None,
                },
            ))->Ok_0;
            match media_path_outcome(folder, item.filename@, item.id@) {
                Ok(p) => r matches Ok(m) && is_media_entry((RemoteEntry { metadata: m }), item, p),
                Err(e) => r matches Err(PhotosError::Provider(t)) && t@ == e,
            }
        }),
{
    let folder_text = match album_id {
        Some(a) => {
            let mut t = String::from_str("Albums/");
            t.append(a);
            t
        },
        None => String::from_str("All Photos"),
    };
    proof {
        reveal_strlit("Albums/");
        reveal_strlit("All Photos");
    }
    let folder = match RemotePath::parse(folder_text.as_str()) {
        Ok(p) => p,
        Err(_) => RemotePath::root(),
    };
    let path = media_path(&folder, &item)?;
    Ok(media_metadata(item, path))
}

} // verus!
