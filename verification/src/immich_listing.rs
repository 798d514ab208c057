//! What an Immich listing gives: the root holds the `Photos` and `Albums`
//! folders; assets become files named `name--id` with their size, id and
//! creation time; albums become folders named the same way below `Albums`.
use vstd::prelude::*;
use crate::immich::{item_name, named_with_id};
use crate::immich_ops::ImmichError;
use crate::path::{lemma_plain_component_parses, parse_outcome, path_issue_text, RemotePath};
use crate::photos_ops::folder_metadata;
use crate::storage::{Page, RemoteEntry, RemoteMetadata};
use crate::sync_run::opt_text;

verus! {

broadcast use vstd::string::group_string_axioms;

/// An asset as the Immich API describes it. The creation time is RFC 3339
/// text.
#[derive(Debug)]
pub struct ImmichAsset {
    pub id: String,
    pub original_file_name: String,
    pub original_file_size: Option<u64>,
    pub file_created_at: Option<String>,
}

/// An album as the Immich API describes it.
#[derive(Debug)]
pub struct ImmichAlbum {
    pub id: String,
    pub album_name: String,
}

/// Whether metadata is a folder's at `path`, with nothing else known.
pub open spec fn is_folder_at(m: RemoteMetadata, path: Seq<char>) -> bool {
    &&& m.path@ == path
    &&& m.is_directory
    &&& m.size_bytes is None && m.etag is None && m.modified_at is None
}

/// The listing of the root: the `Photos` folder, then the `Albums` folder,
/// on one page.
pub fn immich_root_page() -> (r: Page<RemoteEntry>)
    ensures
        r.entries@.len() == 2,
        is_folder_at(r.entries@[0].metadata, "Photos"@),
        is_folder_at(r.entries@[1].metadata, "Albums"@),
        r.next_cursor is None,
{
    proof {
        reveal_strlit("Photos");
        reveal_strlit("Albums");
        lemma_plain_component_parses("Photos"@);
        lemma_plain_component_parses("Albums"@);
    }
    let photos = match RemotePath::parse("Photos") {
        Ok(p) => p,
        Err(_) => RemotePath::root(),
    };
    let albums = match RemotePath::parse("Albums") {
        Ok(p) => p,
        Err(_) => RemotePath::root(),
    };
    let mut entries: Vec<RemoteEntry> = Vec::new();
    entries.push(RemoteEntry { metadata: folder_metadata(photos) });
    entries.push(RemoteEntry { metadata: folder_metadata(albums) });
    Page { entries, next_cursor: None }
}

/// The path of an item named `name--id` below `prefix`, as joining the name
/// to the prefix gives it, or the reason it is refused.
pub open spec fn child_path_outcome(prefix: Seq<char>, name: Seq<char>, id: Seq<char>) -> Result<Seq<char>, Seq<char>> {
    let child = named_with_id(name, id);
    let candidate = if prefix.len() == 0 { child } else { prefix + seq!['/'] + child };
    match parse_outcome(candidate) {
        Ok(p) => Ok(p),
        Err(issue) => Err(path_issue_text(candidate, issue)),
    }
}

/// Whether an error is the refusal that an outcome gives.
pub open spec fn refused_with(e: ImmichError, outcome: Result<Seq<char>, Seq<char>>) -> bool {
    outcome matches Err(m) && e matches ImmichError::Provider(t) && t@ == m
}

/// The path of an item named `name--id` below `prefix`.
pub fn child_path(prefix: &RemotePath, name: &str, id: &str) -> (r: Result<RemotePath, ImmichError>)
    ensures
        match child_path_outcome(prefix@, name@, id@) {
            Ok(p) => r matches Ok(path) && path@ == p,
            Err(m) => r matches Err(ImmichError::Provider(e)) && e@ == m,
        },
{
    let child = item_name(name, id);
    let joined = prefix.join(child.as_str());
    proof {
        if joined is Err {
            let e = joined->Err_0;
            let candidate = if prefix@.len() == 0 { child@ } else { prefix@ + seq!['/'] + child@ };
            assert(crate::error::bifrost_error_text(e) =~= path_issue_text(candidate, parse_outcome(candidate)->Err_0));
        }
    }
    match joined {
        Ok(p) => Ok(p),
        Err(e) => Err(ImmichError::Provider(e.message())),
    }
}

/// The metadata of an asset listed at `path`: a file of its original size,
/// tagged by its id, made at its creation time.
pub fn asset_metadata(asset: ImmichAsset, path: RemotePath) -> (m: RemoteMetadata)
    ensures
        is_asset_at(m, asset, path@),
{
    RemoteMetadata {
        path,
        is_directory: false,
        size_bytes: asset.original_file_size,
        etag: Some(asset.id),
        modified_at: asset.file_created_at,
    }
}

/// Whether metadata is what a listed asset gives at `path`.
pub open spec fn is_asset_at(m: RemoteMetadata, asset: ImmichAsset, path: Seq<char>) -> bool {
    &&& m.path@ == path
    &&& !m.is_directory
    &&& m.size_bytes == asset.original_file_size
    &&& opt_text(m.etag) == Some(asset.id@)
    &&& opt_text(m.modified_at) == opt_text(asset.file_created_at)
}

/// The entries of listed assets below `prefix` (the `Photos` folder or an
/// album's folder), in order; the first asset whose path is refused refuses
/// the listing.
pub fn asset_entries(prefix: &RemotePath, assets: Vec<ImmichAsset>) -> (r: Result<Vec<RemoteEntry>, ImmichError>)
    ensures
        (forall|k: int| 0 <= k < assets@.len() ==> (#[trigger] child_path_outcome(
            prefix@,
            assets@[k].original_file_name@,
            assets@[k].id@,
        )) is Ok) ==> (r matches Ok(v) && v@.len() == assets@.len() && forall|k: int|
            0 <= k < assets@.len() ==> #[trigger] is_asset_at(
                v@[k].metadata,
                assets@[k],
                child_path_outcome(prefix@, assets@[k].original_file_name@, assets@[k].id@)->Ok_0,
            )),
        r matches Err(e) ==> exists|k: int| 0 <= k < assets@.len()
            && (forall|j: int| 0 <= j < k ==> (#[trigger] child_path_outcome(prefix@, assets@[j].original_file_name@, assets@[j].id@)) is Ok)
            && refused_with(e, #[trigger] child_path_outcome(prefix@, assets@[k].original_file_name@, assets@[k].id@)),
{
    let ghost all = assets@;
    let mut pending = assets;
    let mut out: Vec<RemoteEntry> = Vec::new();
    let ghost mut done: int = 0;
    while pending.len() > 0
        invariant
            all == assets@,
            0 <= done <= all.len(),
            pending@ == all.skip(done),
            out@.len() == done,
            forall|j: int| 0 <= j < done ==> (#[trigger] child_path_outcome(prefix@, all[j].original_file_name@, all[j].id@)) is Ok,
            forall|j: int| 0 <= j < done ==> #[trigger] is_asset_at(
                out@[j].metadata,
                all[j],
                child_path_outcome(prefix@, all[j].original_file_name@, all[j].id@)->Ok_0,
            ),
        decreases pending@.len(),
    {
        let ghost before = pending@;
        let asset = pending.remove(0);
        proof {
            assert(before[0] == all[done]);
            assert(pending@ =~= all.skip(done + 1));
        }
        let path = match child_path(prefix, asset.original_file_name.as_str(), asset.id.as_str()) {
            Ok(p) => p,
            Err(e) => {
                proof {
                    assert(child_path_outcome(prefix@, all[done].original_file_name@, all[done].id@) is Err);
                }
                return Err(e);
            },
        };
        out.push(RemoteEntry { metadata: asset_metadata(asset, path) });
        proof {
            done = done + 1;
        }
    }
    Ok(out)
}

/// The folders of listed albums below `Albums`, in order; the first album
/// whose folder is refused refuses the listing.
pub fn album_folders(albums: &Vec<ImmichAlbum>) -> (r: Result<Vec<RemoteEntry>, ImmichError>)
    ensures
        (forall|k: int| 0 <= k < albums@.len() ==> (#[trigger] child_path_outcome("Albums"@, albums@[k].album_name@, albums@[k].id@)) is Ok)
            ==> (r matches Ok(v) && v@.len() == albums@.len() && forall|k: int| 0 <= k < albums@.len() ==> #[trigger] is_folder_at(
            v@[k].metadata,
            child_path_outcome("Albums"@, albums@[k].album_name@, albums@[k].id@)->Ok_0,
        )),
        r matches Err(e) ==> exists|k: int| 0 <= k < albums@.len()
            && (forall|j: int| 0 <= j < k ==> (#[trigger] child_path_outcome("Albums"@, albums@[j].album_name@, albums@[j].id@)) is Ok)
            && refused_with(e, #[trigger] child_path_outcome("Albums"@, albums@[k].album_name@, albums@[k].id@)),
{
    proof {
        reveal_strlit("Albums");
        lemma_plain_component_parses("Albums"@);
    }
    let parent = match RemotePath::parse("Albums") {
        Ok(p) => p,
        Err(_) => RemotePath::root(),
    };
    let mut out: Vec<RemoteEntry> = Vec::new();
    for k in 0..albums.len()
        invariant
            parent@ == "Albums"@,
            out@.len() == k,
            forall|j: int| 0 <= j < k ==> (#[trigger] child_path_outcome("Albums"@, albums@[j].album_name@, albums@[j].id@)) is Ok,
            forall|j: int| 0 <= j < k ==> #[trigger] is_folder_at(
                out@[j].metadata,
                child_path_outcome("Albums"@, albums@[j].album_name@, albums@[j].id@)->Ok_0,
            ),
    {
        match child_path(&parent, albums[k].album_name.as_str(), albums[k].id.as_str()) {
            Ok(path) => {
                out.push(RemoteEntry { metadata: folder_metadata(path) });
            },
            Err(e) => {
                return Err(e);
            },
        }
    }
    Ok(out)
}

} // verus!
