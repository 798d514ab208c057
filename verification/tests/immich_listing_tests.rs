use bifrost_drive::immich_listing::{album_folders, asset_entries, immich_root_page, ImmichAlbum, ImmichAsset};
use bifrost_drive::immich_ops::ImmichError;
use bifrost_drive::path::RemotePath;

#[test]
fn root_lists_the_photos_and_albums_folders() {
    let page = immich_root_page();
    assert_eq!(page.next_cursor, None);
    assert_eq!(page.entries.len(), 2);
    assert_eq!(page.entries[0].metadata.path.as_str(), "Photos");
    assert_eq!(page.entries[1].metadata.path.as_str(), "Albums");
    for entry in &page.entries {
        assert!(entry.metadata.is_directory);
        assert_eq!(entry.metadata.size_bytes, None);
        assert_eq!(entry.metadata.etag, None);
        assert_eq!(entry.metadata.modified_at, None);
    }
}

#[test]
fn assets_become_files_named_by_name_and_id() {
    let photos = RemotePath::parse("Photos").unwrap();
    let assets = vec![ImmichAsset {
        id: "a1".to_owned(),
        original_file_name: "beach.jpg".to_owned(),
        original_file_size: Some(42),
        file_created_at: Some("2024-01-02T03:04:05+00:00".to_owned()),
    }];
    let entries = asset_entries(&photos, assets).unwrap();
    assert_eq!(entries.len(), 1);
    let m = &entries[0].metadata;
    assert_eq!(m.path.as_str(), "Photos/beach.jpg--a1");
    assert!(!m.is_directory);
    assert_eq!(m.size_bytes, Some(42));
    assert_eq!(m.etag.as_deref(), Some("a1"));
    assert_eq!(m.modified_at.as_deref(), Some("2024-01-02T03:04:05+00:00"));
}

#[test]
fn an_asset_whose_path_is_refused_refuses_the_listing() {
    let photos = RemotePath::parse("Photos").unwrap();
    let assets = vec![ImmichAsset {
        id: "/..".to_owned(),
        original_file_name: "a".to_owned(),
        original_file_size: None,
        file_created_at: None,
    }];
    assert!(matches!(asset_entries(&photos, assets), Err(ImmichError::Provider(_))));
}

#[test]
fn albums_become_folders_below_albums() {
    let albums = vec![ImmichAlbum { id: "b2".to_owned(), album_name: "Trips".to_owned() }];
    let entries = album_folders(&albums).unwrap();
    assert_eq!(entries[0].metadata.path.as_str(), "Albums/Trips--b2");
    assert!(entries[0].metadata.is_directory);
}
