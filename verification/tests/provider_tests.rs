use bifrost_drive::roots::{server_key_decision, ServerKeyDecision};
use bifrost_drive::drive_write::{plan_write, WriteTarget};
use bifrost_drive::cache::{CacheError, CacheManager};
use bifrost_drive::common::{ConnectionId, ProviderKind, TransferId};
use bifrost_drive::drive_names::{decode_path_component, encode_path_component};
use bifrost_drive::drive_workspace::{
    drive_metadata, entry_path, escape_query_literal, remote_destination_name, remote_file_name, workspace_browser_shortcut, workspace_format,
    workspace_range, DriveFile, WorkspaceOpenMode, WorkspaceSelector,
};
use bifrost_drive::export_cache::WorkspaceExportCache;
use bifrost_drive::google_photos;
use bifrost_drive::immich;
use bifrost_drive::path::RemotePath;
use bifrost_drive::providers::{ftp_capabilities, s3_capabilities, webdav_capabilities};
use bifrost_drive::capability::Capability;
use bifrost_drive::retry::{backoff, dispatch_step, is_rate_limited, is_transient, AttemptOutcome, DispatchStep, MAX_BACKOFF_MILLIS};
use bifrost_drive::roots::{
    check_mega_config, ftp_path, mega_normalize_root_path, sftp_authentication, sftp_normalize_root_path, sftp_path,
    sftp_range, smb_path, MegaConfig, SftpAuthentication,
};
use bifrost_drive::storage::{range_header, ByteRange};
use bifrost_drive::transfer::{TransferDirection, TransferQueue, TransferStatus, NANOS_PER_SECOND};

const GOOGLE_DOC_MIME_TYPE: &str = "application/vnd.google-apps.document";

fn file(name: &str, mime_type: &str) -> DriveFile {
    DriveFile {
        id: "file-id".to_owned(),
        name: name.to_owned(),
        mime_type: mime_type.to_owned(),
        size: None,
        modified_time: None,
        md5_checksum: None,
        version: None,
        web_view_link: None,
    }
}

#[test]
fn detects_google_rate_limit_reasons() {
    assert!(is_rate_limited(r#"{"error":{"errors":[{"reason":"userRateLimitExceeded"}]}}"#));
    assert!(is_rate_limited(r#"{"errors":[{"reason":"rateLimitExceeded"}]}"#));
    assert!(!is_rate_limited(r#"{"errors":[{"reason":"insufficientPermissions"}]}"#));
}

#[test]
fn retries_only_transient_statuses() {
    assert!(is_transient(429));
    assert!(is_transient(503));
    assert!(!is_transient(404));
    assert!(!is_transient(401));
}

#[test]
fn backoff_grows_and_stays_bounded() {
    assert!(backoff(0) >= 1000);
    assert!(backoff(0) < 2000);
    assert!(backoff(3) >= 8000);
    assert!(backoff(20) < MAX_BACKOFF_MILLIS + 1000);
}

#[test]
fn detects_only_explicit_url_schemes() {
    assert!(immich::has_explicit_scheme("https://photos.example"));
    assert!(immich::has_explicit_scheme("http://localhost:2283"));
    assert!(!immich::has_explicit_scheme("photos.example"));
}

#[test]
fn escapes_asset_names() {
    assert_eq!(immich::encode_name("holiday/100%\\original.jpg"), "holiday%2F100%25%5Coriginal.jpg");
}

#[test]
fn escapes_virtual_file_names_without_double_encoding() {
    assert_eq!(google_photos::encode_name("holiday/100%\\original.jpg"), "holiday%2F100%25%5Coriginal.jpg");
}

#[test]
fn escapes_drive_query_literals() {
    assert_eq!(escape_query_literal(r"owner\\s file's"), r"owner\\\\s file\'s");
}

#[test]
fn joins_nested_remote_paths() {
    let path = entry_path(&RemotePath::parse("documents").unwrap(), "report.txt", "text/plain", WorkspaceOpenMode::NativeApps)
        .unwrap();
    assert_eq!(path.as_str(), "documents/report.txt");
}

#[test]
fn encodes_google_names_that_are_not_safe_path_components() {
    let name = r#"Report: Q3/100% \ draft?.txt"#;
    let path = entry_path(&RemotePath::root(), name, "text/plain", WorkspaceOpenMode::NativeApps).unwrap();
    assert_eq!(path.as_str(), "Report%3A Q3%2F100%25 %5C draft%3F.txt");
    assert_eq!(decode_path_component(path.as_str()).unwrap(), name);
}

#[test]
fn encodes_windows_reserved_names_and_trailing_characters() {
    for (name, encoded) in [
        ("CON.txt", "%43ON.txt"),
        ("quarterly report. ", "quarterly report%2E%20"),
        ("..", "%2E%2E"),
        ("räksmörgås.txt", "räksmörgås.txt"),
    ] {
        let path = entry_path(&RemotePath::root(), name, "application/octet-stream", WorkspaceOpenMode::NativeApps).unwrap();
        assert_eq!(path.as_str(), encoded);
        assert_eq!(decode_path_component(encoded).unwrap(), name);
    }
}

#[test]
fn workspace_files_have_unambiguous_office_names() {
    assert_eq!(
        entry_path(&RemotePath::root(), "Project brief", GOOGLE_DOC_MIME_TYPE, WorkspaceOpenMode::NativeApps)
            .unwrap()
            .as_str(),
        "Project brief.docx"
    );
    assert_eq!(
        entry_path(&RemotePath::root(), "Project brief.docx", "application/octet-stream", WorkspaceOpenMode::NativeApps)
            .unwrap()
            .as_str(),
        "Project brief%2Edocx"
    );
    let (name, selector) = remote_file_name("Project brief.docx", WorkspaceOpenMode::NativeApps).unwrap();
    assert_eq!(name, "Project brief");
    assert!(matches!(selector, WorkspaceSelector::Format(format) if format.google_mime_type() == GOOGLE_DOC_MIME_TYPE));
    let (name, selector) = remote_file_name("Project brief%2Edocx", WorkspaceOpenMode::NativeApps).unwrap();
    assert_eq!(name, "Project brief.docx");
    assert!(matches!(selector, WorkspaceSelector::Binary));
}

#[test]
fn workspace_listing_does_not_advertise_the_google_source_size() {
    let mut document = file("Project brief", GOOGLE_DOC_MIME_TYPE);
    document.size = Some("4412".to_owned());
    let metadata = drive_metadata(document, RemotePath::parse("Project brief.docx").unwrap());
    assert_eq!(metadata.size_bytes, None);
    let mut plain = file("notes.txt", "text/plain");
    plain.size = Some("4412".to_owned());
    assert_eq!(drive_metadata(plain, RemotePath::parse("notes.txt").unwrap()).size_bytes, Some(4412));
}

#[test]
fn workspace_destinations_drop_only_the_virtual_extension() {
    let format = workspace_format(GOOGLE_DOC_MIME_TYPE).unwrap();
    assert_eq!(remote_destination_name("Renamed.docx", Some(format), WorkspaceOpenMode::NativeApps).unwrap(), "Renamed");
    assert_eq!(remote_destination_name("Uploaded.docx", None, WorkspaceOpenMode::NativeApps).unwrap(), "Uploaded.docx");
    assert_eq!(remote_destination_name("Renamed.url", Some(format), WorkspaceOpenMode::Browser).unwrap(), "Renamed");
}

#[test]
fn slices_cached_workspace_exports_for_filesystem_ranges() {
    let content = b"exported document";
    assert_eq!(workspace_range(content, Some(ByteRange { start: 9, end: 17 })).unwrap(), b"document".to_vec());
    assert!(workspace_range(content, Some(ByteRange { start: 30, end: 40 })).unwrap().is_empty());
}

#[test]
fn workspace_cache_evicts_content_but_keeps_revision_baselines() {
    let mut cache = WorkspaceExportCache::new();
    cache.insert("first".to_owned(), Some("1".to_owned()), b"1234".to_vec(), 6);
    cache.insert("second".to_owned(), Some("2".to_owned()), b"5678".to_vec(), 6);
    let first = cache.entry("first").unwrap();
    assert!(first.content.is_none());
    assert_eq!(first.version.as_deref(), Some("1"));
    assert_eq!(cache.entry("second").unwrap().content.as_deref(), Some(b"5678".as_slice()));
    assert_eq!(cache.lookup("second", &Some("2".to_owned())), Some(b"5678".to_vec()));
    assert_eq!(cache.lookup("second", &Some("3".to_owned())), None);
}

#[test]
fn drive_names_decode_to_what_was_encoded() {
    for name in ["CON", "a:b", "trailing. ", "100%", "plain.txt", "NUL.tar.gz"] {
        assert_eq!(decode_path_component(encode_path_component(name).as_str()).unwrap(), name);
    }
    assert!(decode_path_component("%zz").is_none());
}

#[test]
fn range_header_uses_exclusive_end_ranges() {
    assert_eq!(range_header(ProviderKind::S3, Some(ByteRange { start: 2, end: 7 })).unwrap().as_deref(), Some("bytes=2-6"));
    assert!(range_header(ProviderKind::S3, Some(ByteRange { start: 7, end: 7 })).is_err());
    assert_eq!(range_header(ProviderKind::S3, None).unwrap(), None);
}

#[test]
fn requires_email_and_password() {
    assert!(check_mega_config(&MegaConfig { email: String::new(), password: "password".to_owned(), root_path: String::new() })
        .is_err());
    assert!(check_mega_config(&MegaConfig {
        email: "user@example.com".to_owned(),
        password: String::new(),
        root_path: String::new(),
    })
    .is_err());
}

#[test]
fn rejects_parent_traversal_in_start_path() {
    assert!(check_mega_config(&MegaConfig {
        email: "user@example.com".to_owned(),
        password: "password".to_owned(),
        root_path: "documents/../private".to_owned(),
    })
    .is_err());
    assert_eq!(mega_normalize_root_path(r" a\b/./c ").unwrap(), vec!["a".to_owned(), "b".to_owned(), "c".to_owned()]);
}

#[test]
fn accepts_absolute_start_paths_without_parent_traversal() {
    assert_eq!(sftp_normalize_root_path("/data").unwrap(), "/data");
    assert!(sftp_normalize_root_path("/data/../etc").is_err());
    assert_eq!(sftp_normalize_root_path(r" srv\\files/. ").unwrap(), "srv/files");
}

#[test]
fn file_protocol_paths_follow_their_servers() {
    let docs = RemotePath::parse("docs/a.txt").unwrap();
    assert_eq!(sftp_path("", &RemotePath::root()), ".");
    assert_eq!(sftp_path("", &docs), "docs/a.txt");
    assert_eq!(sftp_path("/srv", &RemotePath::root()), "/srv");
    assert_eq!(sftp_path("/", &docs), "/docs/a.txt");
    assert_eq!(sftp_path("/srv", &docs), "/srv/docs/a.txt");
    assert_eq!(smb_path(&docs), r"docs\a.txt");
    assert_eq!(ftp_path(&RemotePath::root()), ".");
    assert_eq!(sftp_range(Some(ByteRange { start: 4, end: 9 })).unwrap(), (4, Some(5)));
    assert_eq!(sftp_range(None).unwrap(), (0, None));
    assert!(sftp_range(Some(ByteRange { start: 9, end: 9 })).is_err());
}

#[test]
fn sftp_sign_in_follows_the_stored_settings() {
    let key = sftp_authentication("private_key", None, Some("/keys/id".to_owned()), None, None).unwrap();
    assert_eq!(key, SftpAuthentication::PrivateKey { path: "/keys/id".to_owned(), passphrase: None });
    assert!(sftp_authentication("private_key", None, None, None, Some("pw".to_owned())).is_err());
    assert_eq!(
        sftp_authentication("password", None, None, None, Some("pw".to_owned())).unwrap(),
        SftpAuthentication::Password("pw".to_owned())
    );
    assert!(sftp_authentication("password", None, None, None, None).is_err());
}

#[test]
fn immich_paths_name_assets_and_albums() {
    assert_eq!(immich::item_name("a/b.jpg", "id1"), "a%2Fb.jpg--id1");
    assert!(matches!(immich::classify_listing(""), immich::ImmichListing::Root));
    assert!(matches!(immich::classify_listing("Photos"), immich::ImmichListing::Photos));
    assert!(
        matches!(immich::classify_listing("Albums/Trip--abc"), immich::ImmichListing::AlbumAssets { album_id } if album_id == "abc")
    );
    assert!(matches!(immich::classify_listing("Albums/noid"), immich::ImmichListing::NotFound));
    assert!(matches!(immich::classify_item("Photos/cat.jpg--x--y"), immich::ImmichItem::Asset { id } if id == "y"));
    assert_eq!(immich::read_asset_id("Albums/Trip--a/cat.jpg--z").unwrap(), "z");
    assert!(immich::read_asset_id("Albums").is_none());
    assert_eq!(immich::album_page(None).unwrap(), 1);
    assert!(immich::album_page(Some("x")).is_err());
    assert_eq!(immich::album_page_range(250, 3), (200, 250));
    assert_eq!(immich::album_next_cursor(2, 100).as_deref(), Some("3"));
    assert_eq!(immich::album_next_cursor(2, 40), None);
    assert!(immich::endpoint_plan("   ").is_err());
    assert!(matches!(immich::endpoint_plan(" photos.example "), Ok(immich::EndpointPlan::Fallback { https, .. }) if https == "https://photos.example"));
    assert_eq!(
        immich::fallback_failure(&vec!["a".to_owned(), "b".to_owned()]),
        "could not connect using HTTPS or HTTP: a; b"
    );
}

#[test]
fn google_photos_layout() {
    assert!(matches!(google_photos::classify_path("All Photos"), google_photos::PhotosTarget::AllPhotos));
    assert!(
        matches!(google_photos::classify_path("Albums/Trip%2F2024"), google_photos::PhotosTarget::Album { title } if title == "Trip%2F2024")
    );
    assert_eq!(google_photos::album_title("a%2Fb"), "a%2Fb");
    assert_eq!(google_photos::unescape_name("a%2Fb%25"), "a/b%");
    assert_eq!(google_photos::range_suffix(None).unwrap(), "=d");
    assert_eq!(google_photos::range_suffix(Some(ByteRange { start: 1, end: 5 })).unwrap(), "=d-r1-4");
    assert!(google_photos::capabilities_for_path("Albums/Trip").contains(Capability::Rename));
    assert!(!google_photos::capabilities_for_path("Albums/Trip").contains(Capability::CreateDirectory));
    let legacy = RemotePath::parse("Legacy/docs").unwrap();
    assert!(google_photos::is_legacy(&legacy));
    assert_eq!(google_photos::legacy_path(&legacy).unwrap().as_str(), "docs");
    assert!(google_photos::legacy_path(&RemotePath::parse("Legacyx").unwrap()).is_err());
    assert_eq!(google_photos::legacy_display_path(&RemotePath::parse("docs").unwrap()).unwrap().as_str(), "Legacy/docs");
    assert!(google_photos::hybrid_capabilities(true).contains(Capability::Delete));
    assert!(!google_photos::hybrid_capabilities(false).contains(Capability::Delete));
}

#[test]
fn providers_advertise_their_operations() {
    assert!(s3_capabilities().contains(Capability::RangeRead));
    assert!(!s3_capabilities().contains(Capability::Rename));
    assert!(!ftp_capabilities().contains(Capability::RangeRead));
    assert!(webdav_capabilities().contains(Capability::Locking));
}

#[test]
fn starts_only_within_the_concurrency_limit() {
    let mut queue = TransferQueue::new(1, 3);
    let first = queue.enqueue(ConnectionId::new(), RemotePath::root(), TransferDirection::Download, Some(5));
    let second = queue.enqueue(ConnectionId::new(), RemotePath::root(), TransferDirection::Upload, None);
    let started = queue.start_available(1_000);
    assert_eq!(started, vec![first]);
    assert_eq!(queue.get(second).unwrap().status, TransferStatus::Pending);
}

#[test]
fn retry_uses_capped_exponential_backoff_and_eventually_fails() {
    let now: u128 = 0;
    let mut queue = TransferQueue::new(1, 2);
    let id = queue.enqueue(ConnectionId::new(), RemotePath::root(), TransferDirection::Download, None);
    queue.start_available(now);
    queue.fail(id, true, now).unwrap();
    assert_eq!(queue.get(id).unwrap().status, TransferStatus::Pending);
    assert_eq!(queue.get(id).unwrap().next_retry_at, Some(now + 2 * NANOS_PER_SECOND));
    queue.start_available(now + 2 * NANOS_PER_SECOND);
    queue.fail(id, true, now + 2 * NANOS_PER_SECOND).unwrap();
    assert_eq!(queue.get(id).unwrap().status, TransferStatus::Failed);
}

#[test]
fn pause_resume_cancel_and_progress_are_explicit_state_changes() {
    let mut queue = TransferQueue::new(2, 1);
    let id = queue.enqueue(ConnectionId::new(), RemotePath::root(), TransferDirection::Download, Some(10));
    queue.start_available(5);
    queue.update_progress(id, 12).unwrap();
    assert_eq!(queue.get(id).unwrap().transferred_bytes, 10);
    queue.pause(id).unwrap();
    queue.resume(id).unwrap();
    queue.cancel(id).unwrap();
    assert_eq!(queue.get(id).unwrap().status, TransferStatus::Cancelled);
}

#[test]
fn commits_to_a_stable_hashed_path_and_can_reopen() {
    let connection = ConnectionId::new();
    let path = RemotePath::parse("docs/report.txt").unwrap();
    let mut cache = CacheManager::new("/cache", 100);
    let (record, evicted) = cache.commit_file(connection, path.clone(), 6, false, 10);
    assert!(evicted.is_empty());
    assert_eq!(cache.open(connection, &path, true, 20).unwrap(), record.local_path);
    assert_eq!(cache.cached_path(connection, &path), record.local_path);
    let name = record.local_path.rsplit('/').next().unwrap();
    assert!(name.len() >= 32);
    assert!(name.chars().all(|c| c.is_ascii_hexdigit() && !c.is_ascii_uppercase()));
    let other = cache.cached_path(connection, &RemotePath::parse("docs/other.txt").unwrap());
    assert_ne!(other, record.local_path);
    assert_eq!(
        cache.temporary_path(TransferId::from_uuid(1)),
        "/cache/.00000000-0000-0000-0000-000000000001.partial"
    );
}

#[test]
fn evicts_oldest_unpinned_item_but_preserves_pins_and_active_transfers() {
    let mut cache = CacheManager::new("/cache", 10);
    let connection = ConnectionId::new();
    let first = RemotePath::parse("first").unwrap();
    let second = RemotePath::parse("second").unwrap();
    cache.commit_file(connection, first.clone(), 6, true, 1);
    let (_, evicted) = cache.commit_file(connection, second.clone(), 6, false, 2);
    assert_eq!(evicted.len(), 1);
    assert!(cache.open(connection, &first, true, 3).is_ok());
    assert!(cache.open(connection, &second, true, 3).is_err());
    assert_eq!(cache.total_bytes(), 6);

    let active = RemotePath::parse("active").unwrap();
    cache.commit_file(connection, active.clone(), 4, false, 4);
    cache.set_active_transfer(connection, &active, true).unwrap();
    assert!(cache.open(connection, &active, true, 5).is_ok());
}

#[test]
fn cache_evicts_least_recently_used_first() {
    let mut cache = CacheManager::new("/cache", 10);
    let connection = ConnectionId::new();
    let a = RemotePath::parse("a").unwrap();
    let b = RemotePath::parse("b").unwrap();
    let c = RemotePath::parse("c").unwrap();
    cache.commit_file(connection, a.clone(), 4, false, 1);
    cache.commit_file(connection, b.clone(), 4, false, 2);
    assert!(cache.open(connection, &a, true, 3).is_ok());
    let (_, evicted) = cache.commit_file(connection, c.clone(), 4, false, 4);
    assert_eq!(evicted.len(), 1);
    assert_eq!(evicted[0].remote_path.as_str(), "b");
    assert!(matches!(cache.open(connection, &b, true, 5), Err(CacheError::NotFound(p)) if p.as_str() == "b"));
    assert!(cache.open(connection, &a, false, 6).is_err());
    assert!(cache.local_path(connection, &a).is_none());
    let (bytes, removed) = cache.clear_unpinned();
    assert_eq!(bytes, 4);
    assert_eq!(removed.len(), 1);
    assert_eq!(cache.total_bytes(), 0);
}

fn sftp_config(trust_on_first_use: bool) -> bifrost_drive::roots::SftpConfig {
    bifrost_drive::roots::SftpConfig {
        host: "example.test".to_owned(),
        port: 22,
        username: "user".to_owned(),
        known_hosts: "missing-known-hosts".to_owned(),
        root_path: String::new(),
        trust_on_first_use,
    }
}

#[test]
fn refuses_missing_known_hosts_instead_of_trusting_unknown_servers() {
    let result = bifrost_drive::roots::check_sftp_config(&sftp_config(false), false, None);
    assert_eq!(result.unwrap_err(), "known_hosts file does not exist: missing-known-hosts");
}

#[test]
fn allows_missing_known_hosts_for_explicit_first_use_trust() {
    assert!(bifrost_drive::roots::check_sftp_config(&sftp_config(true), false, None).is_ok());
}

#[test]
fn refuses_missing_private_keys_before_network_access() {
    let result = bifrost_drive::roots::check_sftp_config(&sftp_config(false), true, Some(("/keys/missing-key", false)));
    assert_eq!(result.unwrap_err(), "private key file does not exist: /keys/missing-key");
    let mut config = sftp_config(true);
    config.host = "  ".to_owned();
    assert_eq!(
        bifrost_drive::roots::check_sftp_config(&config, true, None).unwrap_err(),
        "SFTP host and username are required"
    );
    config.host = "h".to_owned();
    config.root_path = "/srv/files/".to_owned();
    assert_eq!(bifrost_drive::roots::check_sftp_config(&config, true, None).unwrap(), "/srv/files");
}

#[test]
fn server_keys_are_trusted_only_when_known_or_on_first_use() {
    assert_eq!(server_key_decision(true, false), ServerKeyDecision::Accept);
    assert_eq!(server_key_decision(false, true), ServerKeyDecision::LearnAndAccept);
    assert_eq!(server_key_decision(false, false), ServerKeyDecision::Reject);
}

#[test]
fn drive_writes_are_planned_from_the_existing_file() {
    let mut exports = WorkspaceExportCache::new();
    let plan = plan_write(None, WorkspaceOpenMode::NativeApps, &exports).unwrap();
    assert!(matches!(plan.target, WriteTarget::Create));
    assert_eq!(plan.content_type, "application/octet-stream");

    let folder = file("Folder", "application/vnd.google-apps.folder");
    assert!(plan_write(Some(&folder), WorkspaceOpenMode::NativeApps, &exports).is_err());

    let mut document = file("Brief", GOOGLE_DOC_MIME_TYPE);
    document.version = Some("7".to_owned());
    assert!(matches!(
        plan_write(Some(&document), WorkspaceOpenMode::Browser, &exports),
        Err(bifrost_drive::storage::StorageError::Unsupported { .. })
    ));
    match plan_write(Some(&document), WorkspaceOpenMode::NativeApps, &exports) {
        Err(bifrost_drive::storage::StorageError::Provider { message, .. }) => assert_eq!(
            message,
            "Brief changed in Google Drive after it was opened; close and reopen the file before saving"
        ),
        _ => panic!("expected a stale-document refusal"),
    }
    exports.record_version("file-id".to_owned(), Some("7".to_owned()));
    let plan = plan_write(Some(&document), WorkspaceOpenMode::NativeApps, &exports).unwrap();
    assert!(matches!(plan.target, WriteTarget::Existing(ref id) if id == "file-id"));
    assert_eq!(plan.content_type, "application/vnd.openxmlformats-officedocument.wordprocessingml.document");
    assert!(exports.entry("file-id").unwrap().content.is_none());
}

#[test]
fn asset_components_give_back_their_ids() {
    let id = "9f0c2b7e-1d2a-4c55-8e7f-0a1b2c3d4e5f";
    let component = immich::item_name("holiday--2024/beach.jpg", id);
    let listing = format!("Albums/{component}");
    assert!(matches!(immich::classify_listing(&listing), immich::ImmichListing::AlbumAssets { album_id } if album_id == id));
    let photo = format!("Photos/{component}");
    assert_eq!(immich::read_asset_id(&photo).unwrap(), id);
}

#[test]
fn browser_mode_exposes_workspace_files_as_google_shortcuts() {
    let mut document = file("Project brief", GOOGLE_DOC_MIME_TYPE);
    document.web_view_link = Some("https://docs.google.com/document/d/file-id/edit".to_owned());
    let binary_shortcut = file("Project brief.url", "application/internet-shortcut");

    assert_eq!(
        entry_path(&RemotePath::root(), &document.name, &document.mime_type, WorkspaceOpenMode::Browser)
            .unwrap()
            .as_str(),
        "Project brief.url"
    );
    assert_eq!(
        entry_path(&RemotePath::root(), &binary_shortcut.name, &binary_shortcut.mime_type, WorkspaceOpenMode::Browser)
            .unwrap()
            .as_str(),
        "Project brief%2Eurl"
    );
    assert_eq!(
        workspace_browser_shortcut(&document),
        b"[InternetShortcut]\r\nURL=https://docs.google.com/document/d/file-id/edit\r\n".to_vec()
    );

    let (name, selector) = remote_file_name("Project brief.url", WorkspaceOpenMode::Browser).unwrap();
    assert_eq!(name, "Project brief");
    assert!(matches!(selector, WorkspaceSelector::Any));
}

#[test]
fn shortcuts_without_a_web_link_open_the_file_by_id() {
    let mut document = file("Plan", GOOGLE_DOC_MIME_TYPE);
    document.id = "a b/c".to_owned();
    assert_eq!(
        String::from_utf8(workspace_browser_shortcut(&document)).unwrap(),
        "[InternetShortcut]\r\nURL=https://drive.google.com/open?id=a+b%2Fc\r\n"
    );
    for id in ["1AbC-_x.y*z", "ü ñ~!@#$%^&()=+;,", ""] {
        document.id = id.to_owned();
        let mut url = url::Url::parse("https://drive.google.com/open").unwrap();
        url.query_pairs_mut().append_pair("id", id);
        let expected = format!("[InternetShortcut]\r\nURL={url}\r\n");
        assert_eq!(String::from_utf8(workspace_browser_shortcut(&document)).unwrap(), expected);
    }
}

#[test]
fn every_server_error_is_retried() {
    for status in [500u16, 501, 505, 599] {
        assert!(is_transient(status));
        let outcome = AttemptOutcome::Response { status, rate_limited: false, retry_after_seconds: None };
        assert!(matches!(dispatch_step(0, true, &outcome, 0), DispatchStep::Retry { delay_millis: 1000 }));
    }
    assert!(!is_transient(600));
    assert!(!is_transient(499));
    let outcome = AttemptOutcome::Response { status: 501, rate_limited: false, retry_after_seconds: None };
    assert!(matches!(dispatch_step(0, false, &outcome, 0), DispatchStep::Deliver));
}

#[test]
fn encoded_names_hold_no_forbidden_character_and_no_trailing_space_or_dot() {
    for name in ["a<b>c:d\"e/f\\g|h?i*j", "trailing. ", "tab\there", "CON", "plain.txt", "%"] {
        let encoded = encode_path_component(name);
        for c in encoded.chars() {
            assert!(!c.is_ascii_control());
            assert!(!"<>:\"/\\|?*".contains(c));
        }
        assert!(!encoded.ends_with(' ') && !encoded.ends_with('.'));
        assert_eq!(decode_path_component(&encoded).unwrap(), name);
    }
}

#[test]
fn freed_slots_are_counted_as_free_again() {
    let mut queue = TransferQueue::new(2, 3);
    let ids: Vec<_> = (0..4)
        .map(|_| queue.enqueue(ConnectionId::new(), RemotePath::root(), TransferDirection::Download, None))
        .collect();
    assert_eq!(queue.start_available(0), vec![ids[0], ids[1]]);
    queue.complete(ids[0]).unwrap();
    queue.pause(ids[1]).unwrap();
    assert_eq!(queue.start_available(0), vec![ids[2], ids[3]]);
    assert!(queue.start_available(0).is_empty());
    queue.cancel(ids[2]).unwrap();
    queue.resume(ids[1]).unwrap();
    assert_eq!(queue.start_available(0), vec![ids[1]]);
}

#[test]
fn eviction_removes_only_what_the_limit_needs() {
    let connection = ConnectionId::from_uuid(7);
    let mut cache = CacheManager::new("/cache", 10);
    let a = RemotePath::parse("a").unwrap();
    let b = RemotePath::parse("b").unwrap();
    let c = RemotePath::parse("c").unwrap();
    assert!(cache.commit_file(connection, a.clone(), 9, false, 1).1.is_empty());
    assert!(cache.commit_file(connection, b.clone(), 1, false, 2).1.is_empty());
    let (_, evicted) = cache.commit_file(connection, c.clone(), 9, false, 3);
    assert_eq!(evicted.len(), 1);
    assert_eq!(evicted[0].remote_path.as_str(), "a");
    assert_eq!(cache.total_bytes(), 10);
    assert!(cache.open(connection, &b, true, 4).is_ok());
}

#[test]
fn a_request_is_sent_at_most_six_times_and_once_without_a_copyable_body() {
    let busy = AttemptOutcome::Response { status: 503, rate_limited: false, retry_after_seconds: None };
    let mut sends = 0u32;
    let last = loop {
        sends += 1;
        match dispatch_step(sends - 1, true, &busy, 0) {
            DispatchStep::Retry { .. } => continue,
            other => break other,
        }
    };
    assert_eq!(sends, 6);
    assert_eq!(last, DispatchStep::Deliver);
    assert_eq!(dispatch_step(0, false, &busy, 0), DispatchStep::Deliver);
    let forbidden = AttemptOutcome::Response { status: 403, rate_limited: true, retry_after_seconds: None };
    assert_eq!(dispatch_step(0, false, &forbidden, 0), DispatchStep::Forbidden { rate_limited: true });
    let failure = AttemptOutcome::Failure { connect_or_timeout: true };
    assert_eq!(dispatch_step(0, false, &failure, 0), DispatchStep::NetworkFailure);
}

#[test]
fn ssh_ciphers_prefer_aes_gcm_then_chacha() {
    let names: Vec<String> = [
        "chacha20-poly1305@openssh.com",
        "aes256-ctr",
        "aes256-gcm@openssh.com",
        "aes128-ctr",
        "aes128-gcm@openssh.com",
    ]
    .iter()
    .map(|n| n.to_string())
    .collect();
    assert_eq!(
        bifrost_drive::roots::prefer_ciphers(&names),
        vec![
            "aes128-gcm@openssh.com",
            "aes256-gcm@openssh.com",
            "chacha20-poly1305@openssh.com",
            "aes256-ctr",
            "aes128-ctr",
        ]
    );
}
