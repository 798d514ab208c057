use bifrost_drive::google_photos::classify_path;
use bifrost_drive::path::RemotePath;
use bifrost_drive::photos_ops::{
    accept_upload, album_entries, album_rename, find_album_in, find_media_in, listing_plan, media_entries,
    new_album_title, read_plan, stat_plan, top_folders, upload_file_name, upload_plan, uploaded_metadata, Album,
    MediaItem, PhotosError, PhotosListing, PhotosStat, UploadResult, UploadStatus,
};

fn item(id: &str, filename: &str) -> MediaItem {
    MediaItem {
        id: id.to_owned(),
        filename: filename.to_owned(),
        base_url: format!("https://photos.test/{id}"),
        creation_time: Some("2024-01-02T03:04:05+00:00".to_owned()),
    }
}

fn album(id: &str, title: &str) -> Album {
    Album { id: id.to_owned(), title: title.to_owned() }
}

#[test]
fn folders_are_answered_by_their_listing() {
    assert!(matches!(listing_plan(classify_path("")), PhotosListing::TopFolders));
    assert!(matches!(listing_plan(classify_path("All Photos")), PhotosListing::AllMedia));
    assert!(matches!(listing_plan(classify_path("Albums")), PhotosListing::AlbumList));
    assert!(matches!(listing_plan(classify_path("Albums/Trip")), PhotosListing::AlbumMedia(t) if t == "Trip"));
    assert!(matches!(listing_plan(classify_path("Other")), PhotosListing::Missing));
    let roots = top_folders();
    assert_eq!(roots.len(), 2);
    assert_eq!(roots[0].metadata.path.as_str(), "All Photos");
    assert_eq!(roots[1].metadata.path.as_str(), "Albums");
}

#[test]
fn listed_media_and_albums_become_entries() {
    let prefix = RemotePath::parse("All Photos").unwrap();
    let entries = media_entries(&prefix, vec![item("a1", "cat/dog.jpg"), item("b2", "sun.png")]).unwrap();
    assert_eq!(entries.len(), 2);
    assert_eq!(entries[0].metadata.path.as_str(), "All Photos/cat%2Fdog.jpg--a1");
    assert_eq!(entries[0].metadata.etag.as_deref(), Some("a1"));
    assert_eq!(entries[1].metadata.modified_at.as_deref(), Some("2024-01-02T03:04:05+00:00"));
    let dotted = media_entries(&prefix, vec![item("x", ".."), item("y", "ok.jpg")]).unwrap();
    assert_eq!(dotted[0].metadata.path.as_str(), "All Photos/..--x");
    match media_entries(&prefix, vec![item("y", "ok.jpg"), item("z", "c:d")]) {
        Err(PhotosError::Provider(message)) => {
            assert_eq!(message, "invalid remote path: absolute path: All Photos/c:d--z")
        }
        other => panic!("unexpected {other:?}"),
    }
    let folders = album_entries(&vec![album("1", "Trip 2024"), album("2", "a/b")]).unwrap();
    assert_eq!(folders[0].metadata.path.as_str(), "Albums/Trip 2024");
    assert_eq!(folders[1].metadata.path.as_str(), "Albums/a%2Fb");
    assert!(folders[1].metadata.is_directory);
    match album_entries(&vec![album("3", "..")]) {
        Err(PhotosError::Provider(message)) => assert_eq!(message, "invalid remote path: parent traversal: Albums/.."),
        other => panic!("unexpected {other:?}"),
    }
}

#[test]
fn stats_reads_and_uploads_go_where_the_path_says() {
    assert!(matches!(stat_plan(classify_path("Albums")), PhotosStat::Folder));
    assert!(matches!(stat_plan(classify_path("Albums/Trip")), PhotosStat::AlbumFolder(t) if t == "Trip"));
    assert!(matches!(
        stat_plan(classify_path("Albums/Trip/x--1")),
        PhotosStat::Media { album: Some(a), name } if a == "Trip" && name == "x--1"
    ));
    assert!(matches!(stat_plan(classify_path("a/b/c/d")), PhotosStat::Missing));
    assert!(matches!(read_plan(classify_path("All Photos")), Err(PhotosError::Unsupported(c)) if c == "read_directory"));
    assert!(matches!(read_plan(classify_path("All Photos/x--1")), Ok((None, n)) if n == "x--1"));
    assert!(matches!(upload_plan(classify_path("Albums/Trip/new.jpg")), Ok(Some(a)) if a == "Trip"));
    assert!(matches!(
        upload_plan(classify_path("Albums/Trip")),
        Err(PhotosError::Provider(m)) if m == "Google Photos uploads must target All Photos or an app-created album"
    ));
    assert_eq!(upload_file_name(&RemotePath::parse("All Photos/new.jpg").unwrap()).unwrap(), "new.jpg");
    assert!(upload_file_name(&RemotePath::root()).is_err());
}

#[test]
fn only_album_folders_are_made_and_renamed() {
    assert!(matches!(new_album_title(classify_path("Albums/New")), Ok(t) if t == "New"));
    assert!(matches!(new_album_title(classify_path("All Photos/New")), Err(PhotosError::Unsupported(c)) if c == "create_directory"));
    assert!(matches!(
        album_rename(classify_path("Albums/Old"), classify_path("Albums/New")),
        Ok((a, b)) if a == "Old" && b == "New"
    ));
    assert!(matches!(
        album_rename(classify_path("Albums/Old"), classify_path("All Photos/New")),
        Err(PhotosError::Unsupported(c)) if c == "rename"
    ));
}

#[test]
fn listed_albums_and_media_are_found_by_name() {
    let albums = vec![album("1", "Trip"), album("2", "Home"), album("3", "Home")];
    assert_eq!(find_album_in(&albums, "Home"), Some(1));
    assert_eq!(find_album_in(&albums, "Work"), None);
    let items = vec![item("a1", "one.jpg"), item("b2", "two.jpg")];
    assert_eq!(find_media_in(&items, "two.jpg--b2"), Some(1));
    assert_eq!(find_media_in(&items, "two.jpg"), None);
}

#[test]
fn upload_answers_are_read() {
    assert!(matches!(
        accept_upload(None),
        Err(PhotosError::Provider(m)) if m == "Google Photos did not return an upload result"
    ));
    let rejected = UploadResult { status: Some(UploadStatus { code: Some(3), message: None }), media_item: None };
    assert!(matches!(accept_upload(Some(rejected)), Err(PhotosError::Provider(m)) if m == "Google Photos rejected the upload"));
    let empty = UploadResult { status: Some(UploadStatus { code: Some(0), message: None }), media_item: None };
    assert!(matches!(accept_upload(Some(empty)), Err(PhotosError::Provider(m)) if m == "Google Photos did not create a media item"));
    let made = UploadResult { status: None, media_item: Some(item("n1", "new.jpg")) };
    let accepted = accept_upload(Some(made)).unwrap();
    assert_eq!(accepted.id, "n1");
    let metadata = uploaded_metadata(Some("album-7"), accepted).unwrap();
    assert_eq!(metadata.path.as_str(), "Albums/album-7/new.jpg--n1");
    let plain = uploaded_metadata(None, item("n2", "b.jpg")).unwrap();
    assert_eq!(plain.path.as_str(), "All Photos/b.jpg--n2");
}
