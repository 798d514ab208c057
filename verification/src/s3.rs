//! S3: what a bucket connection needs, how a `ListObjectsV2` answer becomes
//! a page of entries (objects as files, common prefixes as folders), and
//! what object metadata says.
use vstd::prelude::*;
use crate::common::ProviderKind;
use crate::connections::{blank, is_blank};
use crate::path::{parse_outcome, path_issue_text, RemotePath};
use crate::storage::{Page, RemoteEntry, RemoteMetadata, StorageError};
use crate::sync_run::opt_text;
use crate::text::chars_of;
use crate::timestamps::{s3_modified_time, utc_timestamp_text};
use crate::urls::UrlParts;
use crate::webdav::{metadata_view, trim_trailing_slashes, without_trailing_slashes, EntryView};

verus! {

broadcast use vstd::string::group_string_axioms;

/// How an S3 (or S3-compatible) bucket is reached.
#[derive(Debug)]
pub struct S3Config {
    pub endpoint: UrlParts,
    pub region: String,
    pub bucket: String,
    pub path_style: bool,
}

/// An S3 connection needs a bucket name.
pub fn s3_connect_check(config: &S3Config) -> (r: Result<(), StorageError>)
    ensures
        is_blank(config.bucket@) ==> (r matches Err(StorageError::Provider { provider, message }) && provider == ProviderKind::S3
            && message@ == "bucket name must not be empty"@),
        !is_blank(config.bucket@) ==> r is Ok,
{
    if blank(config.bucket.as_str()) {
        return Err(StorageError::Provider {
            provider: ProviderKind::S3,
            message: String::from_str("bucket name must not be empty"),
        });
    }
    Ok(())
}

/// An object of a listing, as the S3 API describes it: its key, size, entity
/// tag and last modification (seconds and nanoseconds since the Unix epoch).
#[derive(Debug)]
pub struct S3Object {
    pub key: Option<String>,
    pub size: Option<i64>,
    pub e_tag: Option<String>,
    pub last_modified: Option<(i64, u32)>,
}

/// A size that S3 reports, where it is not negative.
pub open spec fn byte_count(size: Option<i64>) -> Option<u64> {
    match size {
        Some(s) => if s >= 0 { Some(s as u64) } else { None },
        None => None,
    }
}

/// The modification time of an object, as text.
pub open spec fn object_time(last_modified: Option<(i64, u32)>) -> Option<Seq<char>> {
    match last_modified {
        Some((s, n)) => utc_timestamp_text(s, n),
        None => None,
    }
}

/// A provider error of S3 with its message.
pub open spec fn is_s3_error(e: StorageError, m: Seq<char>) -> bool {
    e matches StorageError::Provider { provider, message } && provider == ProviderKind::S3 && message@ == m
}

/// What a listed object gives: nothing without a key; otherwise the file at
/// its key, or why the key is refused as a path.
pub open spec fn object_outcome(object: S3Object) -> Result<Option<EntryView>, Seq<char>> {
    match object.key {
        None => Ok(None),
        Some(k) => match parse_outcome(k@) {
            Ok(p) => Ok(
                Some(
                    EntryView {
                        path: p,
                        is_directory: false,
                        size_bytes: byte_count(object.size),
                        etag: opt_text(object.e_tag),
                        modified_at: object_time(object.last_modified),
                    },
                ),
            ),
            Err(issue) => Err(path_issue_text(k@, issue)),
        },
    }
}

/// The entry of a listed object.
pub fn map_object(object: S3Object) -> (r: Result<Option<RemoteEntry>, StorageError>)
    ensures
        match object_outcome(object) {
            Ok(None) => r matches Ok(None),
            Ok(Some(e)) => r matches Ok(Some(x)) && metadata_view(x.metadata) == e,
            Err(m) => r matches Err(e) && is_s3_error(e, m),
        },
{
    let key = match object.key {
        None => return Ok(None),
        Some(k) => k,
    };
    let parsed = RemotePath::parse(key.as_str());
    proof {
        if parsed is Err {
            let e = parsed->Err_0;
            assert(crate::error::bifrost_error_text(e) =~= path_issue_text(key@, parse_outcome(key@)->Err_0));
        }
    }
    let path = match parsed {
        Ok(p) => p,
        Err(e) => return Err(StorageError::Provider { provider: ProviderKind::S3, message: e.message() }),
    };
    let size_bytes = match object.size {
        Some(s) => if s >= 0 { Some(s as u64) } else { None },
        None => None,
    };
    let modified_at = s3_modified_time(object.last_modified);
    Ok(Some(RemoteEntry { metadata: RemoteMetadata { path, is_directory: false, size_bytes, etag: object.e_tag, modified_at } }))
}

/// What a common prefix gives: the folder at the prefix without its
/// trailing `/`, or why that is refused as a path.
pub open spec fn prefix_outcome(prefix: Seq<char>) -> Result<EntryView, Seq<char>> {
    let p = without_trailing_slashes(prefix);
    match parse_outcome(p) {
        Ok(path) => Ok(EntryView { path, is_directory: true, size_bytes: None, etag: None, modified_at: None }),
        Err(issue) => Err(path_issue_text(p, issue)),
    }
}

/// The folder entry of a common prefix.
pub fn map_common_prefix(prefix: &str) -> (r: Result<RemoteEntry, StorageError>)
    ensures
        match prefix_outcome(prefix@) {
            Ok(e) => r matches Ok(x) && metadata_view(x.metadata) == e,
            Err(m) => r matches Err(e) && is_s3_error(e, m),
        },
{
    let chars = chars_of(prefix);
    let trimmed = trim_trailing_slashes(chars.as_slice());
    let text = crate::text::string_from_chars(trimmed.as_slice());
    let parsed = RemotePath::parse(text.as_str());
    proof {
        if parsed is Err {
            let e = parsed->Err_0;
            assert(crate::error::bifrost_error_text(e) =~= path_issue_text(text@, parse_outcome(text@)->Err_0));
        }
    }
    match parsed {
        Ok(path) => Ok(
            RemoteEntry { metadata: RemoteMetadata { path, is_directory: true, size_bytes: None, etag: None, modified_at: None } },
        ),
        Err(e) => Err(StorageError::Provider { provider: ProviderKind::S3, message: e.message() }),
    }
}

/// The entries that listed objects give, in order, skipping those without
/// a key.
pub open spec fn object_entries(objects: Seq<S3Object>) -> Result<Seq<EntryView>, Seq<char>>
    decreases objects.len(),
{
    if objects.len() == 0 {
        Ok(Seq::empty())
    } else {
        match object_entries(objects.drop_last()) {
            Err(m) => Err(m),
            Ok(before) => match object_outcome(objects.last()) {
                Err(m) => Err(m),
                Ok(None) => Ok(before),
                Ok(Some(e)) => Ok(before.push(e)),
            },
        }
    }
}

/// The folders that common prefixes give, in order, skipping the prefixes
/// that are missing.
pub open spec fn prefix_entries(prefixes: Seq<Option<String>>) -> Result<Seq<EntryView>, Seq<char>>
    decreases prefixes.len(),
{
    if prefixes.len() == 0 {
        Ok(Seq::empty())
    } else {
        match prefix_entries(prefixes.drop_last()) {
            Err(m) => Err(m),
            Ok(before) => match prefixes.last() {
                None => Ok(before),
                Some(p) => match prefix_outcome(p@) {
                    Err(m) => Err(m),
                    Ok(e) => Ok(before.push(e)),
                },
            },
        }
    }
}

/// The views of some entries' metadata.
pub open spec fn metadata_views(v: Seq<RemoteEntry>) -> Seq<EntryView> {
    v.map_values(|e: RemoteEntry| metadata_view(e.metadata))
}

/// Once listing objects is refused, the refusal stands.
proof fn lemma_object_refusal_stands(objects: Seq<S3Object>, k: int)
    requires
        0 <= k <= objects.len(),
        object_entries(objects.take(k)) is Err,
    ensures
        object_entries(objects) == object_entries(objects.take(k)),
    decreases objects.len() - k,
{
    if k == objects.len() {
        assert(objects.take(k) =~= objects);
    } else {
        assert(objects.drop_last().take(k) =~= objects.take(k));
        lemma_object_refusal_stands(objects.drop_last(), k);
    }
}

/// Once listing prefixes is refused, the refusal stands.
proof fn lemma_prefix_refusal_stands(prefixes: Seq<Option<String>>, k: int)
    requires
        0 <= k <= prefixes.len(),
        prefix_entries(prefixes.take(k)) is Err,
    ensures
        prefix_entries(prefixes) == prefix_entries(prefixes.take(k)),
    decreases prefixes.len() - k,
{
    if k == prefixes.len() {
        assert(prefixes.take(k) =~= prefixes);
    } else {
        assert(prefixes.drop_last().take(k) =~= prefixes.take(k));
        lemma_prefix_refusal_stands(prefixes.drop_last(), k);
    }
}

/// A page of a bucket listing: the objects with keys as files, then the
/// common prefixes as folders, with the continuation token; the first key
/// or prefix refused as a path refuses the page.
pub fn s3_listing(objects: Vec<S3Object>, prefixes: &Vec<Option<String>>, next_token: Option<String>) -> (r: Result<Page<RemoteEntry>, StorageError>)
    ensures
        match object_entries(objects@) {
            Err(m) => r matches Err(e) && is_s3_error(e, m),
            Ok(files) => match prefix_entries(prefixes@) {
                Err(m) => r matches Err(e) && is_s3_error(e, m),
                Ok(folders) => r matches Ok(page) && metadata_views(page.entries@) == files + folders
                    && opt_text(page.next_cursor) == opt_text(next_token),
            },
        },
{
    let ghost all = objects@;
    let mut entries: Vec<RemoteEntry> = Vec::new();
    let mut pending = objects;
    let ghost mut done: int = 0;
    proof {
        assert(all.take(0) =~= Seq::<S3Object>::empty());
        assert(metadata_views(entries@) =~= Seq::<EntryView>::empty());
    }
    while pending.len() > 0
        invariant
            all == objects@,
            0 <= done <= all.len(),
            pending@ == all.skip(done),
            object_entries(all.take(done)) == Ok::<Seq<EntryView>, Seq<char>>(metadata_views(entries@)),
        decreases pending@.len(),
    {
        let ghost before = pending@;
        let object = pending.remove(0);
        proof {
            assert(before[0] == all[done]);
            assert(pending@ =~= all.skip(done + 1));
            assert(all.take(done + 1).drop_last() =~= all.take(done));
            assert(all.take(done + 1).last() == all[done]);
        }
        let ghost prior = entries@;
        match map_object(object) {
            Ok(Some(entry)) => {
                entries.push(entry);
                proof {
                    assert(metadata_views(entries@) =~= metadata_views(prior).push(metadata_view(entry.metadata)));
                }
            },
            Ok(None) => {},
            Err(e) => {
                proof {
                    lemma_object_refusal_stands(all, done + 1);
                }
                return Err(e);
            },
        }
        proof {
            done = done + 1;
        }
    }
    proof {
        assert(all.take(done) =~= all);
    }
    let ghost files = metadata_views(entries@);
    for k in 0..prefixes.len()
        invariant
            object_entries(objects@) == Ok::<Seq<EntryView>, Seq<char>>(files),
            prefix_entries(prefixes@.take(k as int)) matches Ok(folders) && metadata_views(entries@) == files + folders,
    {
        proof {
            assert(prefixes@.take(k + 1).drop_last() =~= prefixes@.take(k as int));
            assert(prefixes@.take(k + 1).last() == prefixes@[k as int]);
        }
        let ghost prior = entries@;
        match &prefixes[k] {
            None => {},
            Some(p) => match map_common_prefix(p.as_str()) {
                Ok(entry) => {
                    entries.push(entry);
                    proof {
                        let folders = prefix_entries(prefixes@.take(k as int))->Ok_0;
                        assert(metadata_views(entries@) =~= metadata_views(prior).push(metadata_view(entry.metadata)));
                        assert(files + folders.push(metadata_view(entry.metadata)) =~= (files + folders).push(metadata_view(entry.metadata)));
                    }
                },
                Err(e) => {
                    proof {
                        lemma_prefix_refusal_stands(prefixes@, k + 1);
                    }
                    return Err(e);
                },
            },
        }
    }
    proof {
        assert(prefixes@.take(prefixes@.len() as int) =~= prefixes@);
    }
    Ok(Page { entries, next_cursor: next_token })
}

/// The content length of an upload, which S3 takes as a signed number:
/// none where the size is unknown, refused where it does not fit.
pub fn s3_content_length(size: Option<u64>) -> (r: Result<Option<i64>, StorageError>)
    ensures
        match size {
            None => r matches Ok(None),
            Some(s) => if s <= i64::MAX {
                r matches Ok(Some(n)) && n == s
            } else {
                r matches Err(e) && is_s3_error(e, "object is too large for S3 content length"@)
            },
        },
{
    match size {
        None => Ok(None),
        Some(s) => if s <= 9223372036854775807u64 {
            Ok(Some(s as i64))
        } else {
            Err(StorageError::Provider {
                provider: ProviderKind::S3,
                message: String::from_str("object is too large for S3 content length"),
            })
        },
    }
}

/// The metadata that an object's head gives at `path`.
pub fn s3_head_metadata(path: RemotePath, content_length: Option<i64>, e_tag: Option<String>, last_modified: Option<(i64, u32)>) -> (m: RemoteMetadata)
    ensures
        metadata_view(m) == (EntryView {
            path: path@,
            is_directory: false,
            size_bytes: byte_count(content_length),
            etag: opt_text(e_tag),
            modified_at: object_time(last_modified),
        }),
{
    let size_bytes = match content_length {
        Some(s) => if s >= 0 { Some(s as u64) } else { None },
        None => None,
    };
    let modified_at = s3_modified_time(last_modified);
    RemoteMetadata { path, is_directory: false, size_bytes, etag: e_tag, modified_at }
}

/// Listed objects are files and common prefixes are folders: an object's
/// entry is never a directory and carries the object's size (when not
/// negative) and entity tag; a prefix's entry is a directory with nothing
/// else known.
pub proof fn lemma_objects_are_files(object: S3Object, prefix: Seq<char>)
    ensures
        object_outcome(object) matches Ok(Some(e)) ==> !e.is_directory && e.size_bytes == byte_count(object.size)
            && e.etag == opt_text(object.e_tag) && object.key is Some,
        object.key is None ==> object_outcome(object) == Ok::<Option<EntryView>, Seq<char>>(None),
        prefix_outcome(prefix) matches Ok(e) ==> e.is_directory && e.size_bytes is None && e.etag is None,
{
}

/// Every entry a listing gives for objects is a file, and every entry it
/// gives for prefixes is a folder.
pub proof fn lemma_listing_kinds(objects: Seq<S3Object>, prefixes: Seq<Option<String>>)
    ensures
        object_entries(objects) matches Ok(files) ==> forall|k: int| 0 <= k < files.len() ==> !(#[trigger] files[k]).is_directory,
        prefix_entries(prefixes) matches Ok(folders) ==> forall|k: int| 0 <= k < folders.len() ==> (#[trigger] folders[k]).is_directory,
    decreases objects.len() + prefixes.len(),
{
    if objects.len() > 0 {
        lemma_listing_kinds(objects.drop_last(), prefixes);
        lemma_objects_are_files(objects.last(), Seq::empty());
        if object_entries(objects) is Ok {
            let files = object_entries(objects)->Ok_0;
            let before = object_entries(objects.drop_last())->Ok_0;
            assert forall|k: int| 0 <= k < files.len() implies !(#[trigger] files[k]).is_directory by {
                if k < before.len() {
                    assert(before[k] == files[k]);
                }
            }
        }
    }
    if prefixes.len() > 0 {
        lemma_listing_kinds(objects, prefixes.drop_last());
        if prefix_entries(prefixes) is Ok {
            let folders = prefix_entries(prefixes)->Ok_0;
            let before = prefix_entries(prefixes.drop_last())->Ok_0;
            assert forall|k: int| 0 <= k < folders.len() implies (#[trigger] folders[k]).is_directory by {
                if k < before.len() {
                    assert(before[k] == folders[k]);
                }
            }
        }
    }
}

} // verus!
