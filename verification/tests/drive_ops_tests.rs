use bifrost_drive::drive_ops::{
    check_new_folder, children_query, choose_file, choose_folder, drive_status, ensure_destination_free,
    listing_parameters, parent_change, plan_destination, plan_file_lookup, plan_replace, refreshed_expiry,
    split_last_component, token_needs_refresh, ReplacePlan,
};
use bifrost_drive::drive_workspace::{DriveFile, WorkspaceFormat, WorkspaceOpenMode, WorkspaceSelector};
use bifrost_drive::export_cache::WorkspaceExportCache;
use bifrost_drive::path::RemotePath;
use bifrost_drive::storage::StorageError;

fn drive_file(id: &str, name: &str, mime_type: &str, version: Option<&str>) -> DriveFile {
    DriveFile {
        id: id.to_owned(),
        name: name.to_owned(),
        mime_type: mime_type.to_owned(),
        size: None,
        modified_time: None,
        md5_checksum: None,
        version: version.map(str::to_owned),
        web_view_link: None,
    }
}

#[test]
fn tokens_are_refreshed_only_near_expiry_and_when_possible() {
    assert!(!token_needs_refresh(None, 1_000, true));
    assert!(!token_needs_refresh(Some(1_061), 1_000, true));
    assert!(token_needs_refresh(Some(1_060), 1_000, true));
    assert!(!token_needs_refresh(Some(1_060), 1_000, false));
    assert_eq!(refreshed_expiry(1_000, 3_599), 4_599);
}

#[test]
fn folder_listings_ask_for_escaped_names() {
    assert_eq!(children_query("root", None), "'root' in parents and trashed = false");
    assert_eq!(
        children_query("abc", Some("it's a\\b")),
        "'abc' in parents and trashed = false and name = 'it\\'s a\\\\b'"
    );
    let all = listing_parameters("q".to_owned(), "files(id)", None);
    assert_eq!(all.len(), 7);
    assert_eq!(all[6], ("corpora", "allDrives".to_owned()));
    let shared = listing_parameters("q".to_owned(), "files(id)", Some("drive-1"));
    assert_eq!(shared.len(), 8);
    assert_eq!(shared[7], ("driveId", "drive-1".to_owned()));
}

#[test]
fn listed_files_are_chosen_by_kind() {
    let files = vec![
        drive_file("1", "Plan", "application/vnd.google-apps.document", None),
        drive_file("2", "Plan", "application/pdf", None),
        drive_file("3", "Plan", "application/vnd.google-apps.folder", None),
    ];
    assert_eq!(choose_file(&files, WorkspaceSelector::Binary), Some(1));
    assert_eq!(choose_file(&files, WorkspaceSelector::Any), Some(0));
    assert_eq!(choose_file(&files, WorkspaceSelector::Format(WorkspaceFormat::Spreadsheet)), None);
    assert_eq!(choose_folder(&files), Some(2));
    assert_eq!(choose_folder(&files[..1].iter().map(|f| drive_file(&f.id, &f.name, &f.mime_type, None)).collect()), None);
}

#[test]
fn paths_split_into_folder_and_name() {
    assert_eq!(split_last_component("a/b/c"), ("a/b".to_owned(), "c".to_owned()));
    assert_eq!(split_last_component("c"), ("".to_owned(), "c".to_owned()));
    for path in ["a/b/c", "x/y", "only"] {
        let (parent, last) = split_last_component(path);
        let rejoined = if path.contains('/') { format!("{parent}/{last}") } else { last.clone() };
        assert_eq!(rejoined, path);
        assert!(!last.contains('/'));
    }
    let lookup = plan_file_lookup(&RemotePath::parse("docs/Report.docx").unwrap(), WorkspaceOpenMode::NativeApps).unwrap();
    assert_eq!(lookup.parent.as_str(), "docs");
    assert_eq!(lookup.name, "Report");
    assert_eq!(lookup.selector, WorkspaceSelector::Format(WorkspaceFormat::Document));
    assert!(matches!(
        plan_file_lookup(&RemotePath::root(), WorkspaceOpenMode::NativeApps),
        Err(StorageError::Provider { message, .. }) if message == "the Drive root has no file ID"
    ));
    let (parent, name) = plan_destination(
        &RemotePath::parse("a/Budget.xlsx").unwrap(),
        Some(WorkspaceFormat::Spreadsheet),
        WorkspaceOpenMode::NativeApps,
    )
    .unwrap();
    assert_eq!(parent.as_str(), "a");
    assert_eq!(name, "Budget");
}

#[test]
fn moves_and_new_folders_check_their_destination() {
    assert!(ensure_destination_free(0).is_ok());
    assert!(matches!(
        ensure_destination_free(2),
        Err(StorageError::Provider { message, .. }) if message == "a remote item already exists at the destination"
    ));
    assert!(check_new_folder(&RemotePath::root()).is_err());
    assert!(check_new_folder(&RemotePath::parse("new").unwrap()).is_ok());
    assert_eq!(parent_change("p1", "p1"), None);
    assert_eq!(parent_change("p1", "p2"), Some(("p2".to_owned(), "p1".to_owned())));
}

#[test]
fn replacing_a_workspace_document_uploads_its_export() {
    let mut exports = WorkspaceExportCache::new();
    let binary = drive_file("b", "notes.txt", "text/plain", None);
    assert!(matches!(plan_replace(&binary, WorkspaceOpenMode::NativeApps, &exports), Ok(ReplacePlan::DeleteThenMove)));
    let document = drive_file("d", "Plan", "application/vnd.google-apps.document", Some("7"));
    assert!(matches!(
        plan_replace(&document, WorkspaceOpenMode::Browser, &exports),
        Err(StorageError::Unsupported { capability, .. }) if capability == "replace_workspace_browser_shortcut"
    ));
    assert!(matches!(
        plan_replace(&document, WorkspaceOpenMode::NativeApps, &exports),
        Err(StorageError::Provider { message, .. })
            if message == "Plan changed in Google Drive after it was opened; close and reopen the file before saving"
    ));
    exports.record_version("d".to_owned(), Some("7".to_owned()));
    match plan_replace(&document, WorkspaceOpenMode::NativeApps, &exports).unwrap() {
        ReplacePlan::Upload { file_id, content_type } => {
            assert_eq!(file_id, "d");
            assert_eq!(content_type, "application/vnd.openxmlformats-officedocument.wordprocessingml.document");
        }
        other => panic!("unexpected plan {other:?}"),
    }
}

#[test]
fn answer_statuses_become_drive_errors() {
    assert!(drive_status(204, "204 No Content", None).is_ok());
    assert!(matches!(drive_status(403, "403 Forbidden", None), Err(StorageError::AuthenticationFailed { .. })));
    assert!(matches!(
        drive_status(404, "404 Not Found", Some("gone".to_owned())),
        Err(StorageError::Provider { message, .. }) if message == "remote item was not found"
    ));
    assert!(matches!(
        drive_status(500, "500 Internal Server Error", Some("boom".to_owned())),
        Err(StorageError::Provider { message, .. }) if message == "server returned HTTP 500 Internal Server Error: boom"
    ));
    assert!(matches!(
        drive_status(502, "502 Bad Gateway", None),
        Err(StorageError::Provider { message, .. })
            if message == "server returned HTTP 502 Bad Gateway: server returned HTTP 502 Bad Gateway"
    ));
}

use bifrost_drive::drive_ops::{drive_capacity, drive_listing, drive_read_plan, DriveRead};

#[test]
fn folder_listings_name_files_as_the_mode_shows_them() {
    let files = vec![
        drive_file("1", "Plan", "application/vnd.google-apps.document", Some("3")),
        drive_file("2", "a/b.txt", "text/plain", None),
        drive_file("3", "Photos", "application/vnd.google-apps.folder", None),
    ];
    let entries = drive_listing(&RemotePath::parse("docs").unwrap(), files, WorkspaceOpenMode::NativeApps).unwrap();
    assert_eq!(entries.len(), 3);
    assert_eq!(entries[0].metadata.path.as_str(), "docs/Plan.docx");
    assert_eq!(entries[0].metadata.etag.as_deref(), Some("3"));
    assert_eq!(entries[1].metadata.path.as_str(), "docs/a%2Fb.txt");
    assert!(entries[2].metadata.is_directory);
    let browser = drive_listing(
        &RemotePath::root(),
        vec![drive_file("1", "Plan", "application/vnd.google-apps.spreadsheet", None)],
        WorkspaceOpenMode::Browser,
    )
    .unwrap();
    assert_eq!(browser[0].metadata.path.as_str(), "Plan.url");
}

#[test]
fn reads_follow_the_kind_of_file() {
    let folder = drive_file("f", "Photos", "application/vnd.google-apps.folder", None);
    assert!(matches!(
        drive_read_plan(&folder, WorkspaceOpenMode::NativeApps),
        Err(StorageError::Unsupported { capability, .. }) if capability == "read_directory"
    ));
    let sheet = drive_file("s", "Budget", "application/vnd.google-apps.spreadsheet", None);
    assert!(matches!(
        drive_read_plan(&sheet, WorkspaceOpenMode::NativeApps),
        Ok(DriveRead::Export(WorkspaceFormat::Spreadsheet))
    ));
    assert!(matches!(drive_read_plan(&sheet, WorkspaceOpenMode::Browser), Ok(DriveRead::Shortcut)));
    let binary = drive_file("b", "x.bin", "application/octet-stream", None);
    assert!(matches!(drive_read_plan(&binary, WorkspaceOpenMode::Browser), Ok(DriveRead::Download(id)) if id == "b"));
}

#[test]
fn drive_capacity_needs_a_numeric_limit() {
    assert_eq!(drive_capacity(None), None);
    assert_eq!(drive_capacity(Some((None, Some("5".to_owned())))), None);
    assert_eq!(drive_capacity(Some((Some("unlimited".to_owned()), None))), None);
    let capacity = drive_capacity(Some((Some("100".to_owned()), Some("30".to_owned())))).unwrap();
    assert_eq!((capacity.total_bytes, capacity.available_bytes), (100, 70));
    let over = drive_capacity(Some((Some("100".to_owned()), Some("300".to_owned())))).unwrap();
    assert_eq!(over.available_bytes, 0);
    let unknown_usage = drive_capacity(Some((Some("100".to_owned()), Some("?".to_owned())))).unwrap();
    assert_eq!(unknown_usage.available_bytes, 100);
}
