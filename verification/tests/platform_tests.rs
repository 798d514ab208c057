use bifrost_drive::drive_engine::{
    can_delete, ensure_missing, ensure_writable, flush_action, listing_cache_usable, metadata_cache_usable, rename_kind,
    stages_on_open, FlushAction, RenameKind,
};
use bifrost_drive::winfsp::WinFspFilesystemError;
use bifrost_drive::settings::{drive_presentation, set_drive_presentation, DriveIcon, IconFile};
use bifrost_drive::settings::check_custom_icon;
use bifrost_drive::common::ConnectionId;
use bifrost_drive::settings::{drive_letters_available, ensure_drive_letter_unassigned, StoredConnection};
use bifrost_drive::settings::{merge_connection_credentials, CredentialValue};
use bifrost_drive::bridge::{
    broker_operation, failure_response, payload_path, remote_item, request_path, required_filename, target_path,
    BrokerFailure, BrokerOperation,
};
use bifrost_drive::capability::{Capability, CapabilitySet};
use bifrost_drive::cfapi::{
    cfapi_action, fetch_data_range, next_fetch_offset, placeholder_relative_name, placeholders_for_listing,
    remote_path_from_identity, wide, CfapiAction, CfapiEvent, STATUS_UNSUCCESSFUL,
};
use bifrost_drive::common::ProviderKind;
use bifrost_drive::drive::{
    cleanup_bifrost_mount_points, cleanup_bifrost_mount_points_for_share, default_sftp_authentication,
    is_bifrost_mount_point, is_uninstall_quit_request, network_prefix, next_mount_point_index,
    normalize_drive_letter, should_remove_mount_point, windows_wide_null,
};
use bifrost_drive::fuse::{attributes, entries_from_offset, read_range, InodeTable, ROOT_INODE};
use bifrost_drive::path::RemotePath;
use bifrost_drive::settings::{configured_drive_letter, configured_drive_type, connection_activity_details, mount_on_startup};
use bifrost_drive::storage::{ByteRange, RemoteEntry, RemoteMetadata, StorageError};
use bifrost_drive::winfsp::{file_attributes, remote_path_from_windows, FILE_ATTRIBUTE_DIRECTORY, FILE_ATTRIBUTE_HIDDEN};

fn metadata(path: &str, is_directory: bool, size: Option<u64>) -> RemoteMetadata {
    RemoteMetadata {
        path: if path.is_empty() { RemotePath::root() } else { RemotePath::parse(path).unwrap() },
        is_directory,
        size_bytes: size,
        etag: None,
        modified_at: None,
    }
}

#[test]
fn matches_only_bifrost_mount_metadata() {
    assert!(is_bifrost_mount_point("##bifrost-123#Yggdrasil"));
    assert!(!is_bifrost_mount_point("##server#share"));
}

#[test]
fn recognizes_only_the_uninstall_quit_switch() {
    assert!(is_uninstall_quit_request(&["bifrost-drive.exe".to_owned(), "--quit-for-uninstall".to_owned()]));
    assert!(!is_uninstall_quit_request(&[
        "bifrost-drive.exe".to_owned(),
        "--cleanup-windows-integrations".to_owned(),
    ]));
}

#[test]
fn confines_payloads_to_the_shared_payload_directory() {
    assert!(payload_path("/shared", "../secret").is_err());
    assert!(request_path(Some("../secret")).is_err());
}

#[test]
fn maps_root_and_child_identifiers() {
    let root = remote_item("Team Files", metadata("", true, None), &CapabilitySet::with(&[Capability::Read]));
    assert_eq!(root.identifier, "");
    assert_eq!(root.filename, "Team Files");

    let child = remote_item(
        "Team Files",
        metadata("docs/report.txt", false, Some(12)),
        &CapabilitySet::with(&[Capability::Read, Capability::Write]),
    );
    assert_eq!(child.parent_identifier, "docs");
    assert_eq!(child.filename, "report.txt");
    assert_eq!(child.capabilities, vec!["read", "write"]);
    assert_eq!(child.size, Some(12));
}

#[test]
fn reads_startup_domain_preference() {
    assert!(mount_on_startup("{}"));
    assert!(mount_on_startup(r#"{"mount_on_startup":true}"#));
    assert!(!mount_on_startup(r#"{"mount_on_startup":false}"#));
}

#[test]
fn normalizes_windows_paths() {
    assert_eq!(remote_path_from_windows(r"\docs\report.txt").unwrap().as_str(), "docs/report.txt");
    assert_eq!(remote_path_from_windows(r"\").unwrap().as_str(), RemotePath::root().as_str());
    assert!(remote_path_from_windows(r"\docs\..\secret.txt").is_err());
}

#[test]
fn marks_unix_dotfiles_hidden() {
    let attributes = file_attributes(&RemotePath::parse(".DAV").unwrap(), true);
    assert_ne!(attributes & FILE_ATTRIBUTE_DIRECTORY, 0);
    assert_ne!(attributes & FILE_ATTRIBUTE_HIDDEN, 0);
}

#[test]
fn network_prefixes_are_safe_named_and_unique() {
    let first = network_prefix("Yggdrasil:data", 4242, 1);
    let second = network_prefix("Yggdrasil:data", 4242, 2);
    assert!(first.ends_with(r"\Yggdrasil_data"));
    assert_ne!(first, second);
}

#[test]
fn bridge_requests_need_a_single_component_filename() {
    assert!(matches!(required_filename(None), Err(BrokerFailure::Message(m)) if m == "filename is required"));
    assert!(matches!(required_filename(Some("")), Err(BrokerFailure::Message(m)) if m == "filename is required"));
    assert!(matches!(required_filename(Some("a/b")), Err(BrokerFailure::Message(m)) if m == "filename is invalid"));
    assert!(matches!(required_filename(Some("..")), Err(BrokerFailure::Message(m)) if m == "filename is invalid"));
    assert_eq!(required_filename(Some("notes.txt")).unwrap(), "notes.txt");
    assert_eq!(payload_path("/shared", "abc").unwrap(), "/shared/payloads/abc");
    assert_eq!(request_path(None).unwrap().as_str(), "");
    let parent = RemotePath::parse("docs").unwrap();
    assert_eq!(target_path(&parent, Some("new.txt")).unwrap().as_str(), "docs/new.txt");
}

#[test]
fn bridge_failures_carry_their_code_and_text() {
    let response = failure_response(&BrokerFailure::Storage(StorageError::NotFound {
        path: RemotePath::parse("docs/a.txt").unwrap(),
    }));
    assert!(!response.ok);
    let error = response.error.unwrap();
    assert_eq!(error.code, "not_found");
    assert_eq!(error.message, "remote item was not found: docs/a.txt");
    let response = failure_response(&BrokerFailure::Message("filename is required".to_owned()));
    assert_eq!(response.error.unwrap().code, "invalid_request");
    let response = failure_response(&BrokerFailure::Storage(StorageError::Unsupported {
        provider: ProviderKind::WebDav,
        capability: "rename".to_owned(),
    }));
    assert_eq!(response.error.unwrap().message, "capability rename is not supported by WebDAV");
    assert_eq!(broker_operation("enumerate"), BrokerOperation::Enumerate);
    assert_eq!(broker_operation("explode"), BrokerOperation::Unsupported);
}

#[test]
fn cfapi_events_resolve_identities_and_ranges() {
    let root = remote_path_from_identity(b"root").unwrap();
    assert_eq!(root.as_str(), "");
    assert_eq!(remote_path_from_identity(b"docs/a.txt").unwrap().as_str(), "docs/a.txt");
    assert!(remote_path_from_identity(b"../x").is_none());
    assert_eq!(fetch_data_range(4, 6), Some(ByteRange { start: 4, end: 10 }));
    assert_eq!(fetch_data_range(4, 0), None);
    assert_eq!(fetch_data_range(i64::MAX - 1, 5), Some(ByteRange { start: (i64::MAX - 1) as u64, end: i64::MAX as u64 }));
    assert_eq!(next_fetch_offset(10, 5), 15);
    assert_eq!(next_fetch_offset(i64::MAX, 5), i64::MAX);

    let event = CfapiEvent::FetchData {
        file_identity: b"../escape".to_vec(),
        connection_key: 1,
        transfer_key: 2,
        request_key: 3,
        file_offset: 0,
        required_length: 10,
    };
    assert!(matches!(cfapi_action(&event), CfapiAction::FailFetch { status } if status == STATUS_UNSUCCESSFUL));
    let event = CfapiEvent::FetchData {
        file_identity: b"docs/a.txt".to_vec(),
        connection_key: 1,
        transfer_key: 2,
        request_key: 3,
        file_offset: 8,
        required_length: 2,
    };
    match cfapi_action(&event) {
        CfapiAction::Hydrate { path, range, offset } => {
            assert_eq!(path.as_str(), "docs/a.txt");
            assert_eq!(range, Some(ByteRange { start: 8, end: 10 }));
            assert_eq!(offset, 8);
        }
        _ => panic!("expected a hydration"),
    }
    let event = CfapiEvent::NotifyRename { file_identity: b"a.txt".to_vec(), target_path: "docs/b.txt".to_owned() };
    match cfapi_action(&event) {
        CfapiAction::Rename { from, to } => {
            assert_eq!(from.as_str(), "a.txt");
            assert_eq!(to.as_str(), "docs/b.txt");
        }
        _ => panic!("expected a rename"),
    }
    let event = CfapiEvent::NotifyDelete { file_identity: b"root".to_vec() };
    assert!(matches!(cfapi_action(&event), CfapiAction::Delete { path } if path.as_str() == "root"));
}

#[test]
fn cfapi_placeholders_are_named_relative_to_their_folder() {
    assert_eq!(placeholder_relative_name("docs", "docs/a.txt"), "a.txt");
    assert_eq!(placeholder_relative_name("", "docs/a.txt"), "docs/a.txt");
    assert_eq!(placeholder_relative_name("other", "docs/a.txt"), "docs/a.txt");
    let parent = RemotePath::parse("docs").unwrap();
    let placeholders = placeholders_for_listing(
        &parent,
        vec![RemoteEntry { metadata: metadata("docs/a.txt", false, Some(3)) }, RemoteEntry { metadata: metadata("docs/sub", true, None) }],
    );
    assert_eq!(placeholders.len(), 2);
    assert_eq!(placeholders[0].relative_name, "a.txt");
    assert_eq!(placeholders[0].identity, b"docs/a.txt".to_vec());
    assert_eq!(placeholders[1].relative_name, "sub");
}

#[test]
fn wide_strings_are_utf16_with_a_terminator() {
    assert_eq!(wide("Ab"), vec![65, 98, 0]);
    assert_eq!(wide("€"), vec![0x20AC, 0]);
    assert_eq!(wide("😀"), vec![0xD83D, 0xDE00, 0]);
    assert_eq!(windows_wide_null("x"), vec![120, 0]);
}

#[test]
fn mount_point_cleanups_select_their_entries() {
    let all = cleanup_bifrost_mount_points();
    assert!(should_remove_mount_point(&all, "##bifrost-1#Share"));
    assert!(!should_remove_mount_point(&all, "##server#share"));
    let share = cleanup_bifrost_mount_points_for_share("Yggdrasil:data");
    assert!(should_remove_mount_point(&share, "##BIFROST-1#yggdrasil_data"));
    assert!(!should_remove_mount_point(&share, "##bifrost-1#other"));
    assert_eq!(next_mount_point_index(true, 3), 3);
    assert_eq!(next_mount_point_index(false, 3), 4);
    assert_eq!(default_sftp_authentication(), "password");
}

#[test]
fn configuration_settings_are_read_from_json() {
    assert_eq!(configured_drive_letter(r#"{"drive_letter":"q:"}"#).unwrap(), Some('Q'));
    assert_eq!(configured_drive_letter("{}").unwrap(), None);
    assert!(configured_drive_letter("not json").is_err());
    assert!(configured_drive_letter(r#"{"drive_letter":"B"}"#).is_err());
    assert!(configured_drive_type("{}").unwrap());
    assert!(!configured_drive_type(r#"{"drive_type":"local"}"#).unwrap());
    assert!(configured_drive_type("nope").is_err());
    assert_eq!(
        connection_activity_details("Team", ProviderKind::WebDav, "https://dav.example", r#"{"drive_letter":"X"}"#),
        "Team · webdav · https://dav.example · Drive X:"
    );
    assert_eq!(connection_activity_details("Team", ProviderKind::S3, "https://s3", "{}"), "Team · s3 · https://s3");
    assert_eq!(normalize_drive_letter(Some(" e: ")).unwrap(), Some('E'));
}

#[test]
fn fuse_inodes_are_stable_and_unique() {
    let mut table = InodeTable::new();
    assert_eq!(table.path_for(ROOT_INODE).unwrap().as_str(), "");
    let a = table.inode_for(RemotePath::parse("docs").unwrap());
    let b = table.inode_for(RemotePath::parse("docs/a.txt").unwrap());
    let again = table.inode_for(RemotePath::parse("docs").unwrap());
    assert_eq!(a, again);
    assert_ne!(a, b);
    assert_ne!(a, ROOT_INODE);
    assert_eq!(table.path_for(b).unwrap().as_str(), "docs/a.txt");
    assert!(table.path_for(999).is_none());
    assert_eq!(table.parent_inode(b, &RemotePath::parse("docs/a.txt").unwrap()), a);
    assert_eq!(table.parent_inode(a, &RemotePath::parse("docs").unwrap()), ROOT_INODE);
}

#[test]
fn fuse_listings_and_reads() {
    let mut table = InodeTable::new();
    let docs = table.inode_for(RemotePath::parse("docs").unwrap());
    let entries = table.directory_entries(
        docs,
        &RemotePath::parse("docs").unwrap(),
        vec![RemoteEntry { metadata: metadata("docs/a.txt", false, Some(1025)) }],
    );
    assert_eq!(entries.len(), 3);
    assert_eq!(entries[0].name, ".");
    assert_eq!(entries[1].name, "..");
    assert_eq!(entries[1].inode, ROOT_INODE);
    assert_eq!(entries[2].name, "a.txt");
    assert!(!entries[2].is_directory);
    let page = entries_from_offset(entries, 2);
    assert_eq!(page.len(), 1);
    assert_eq!(page[0].0, 3);
    assert_eq!(page[0].1.name, "a.txt");
    let attrs = attributes(7, &metadata("docs/a.txt", false, Some(1025)));
    assert_eq!(attrs.blocks, 3);
    assert_eq!(attrs.perm, 0o444);
    assert_eq!(attributes(1, &metadata("", true, None)).perm, 0o555);
    assert_eq!(read_range(-1, 10), None);
    assert_eq!(read_range(5, 10), Some(ByteRange { start: 5, end: 15 }));
}

#[test]
fn validates_drive_presentation_settings() {
    let no_file = IconFile { extension: None, is_absolute: false, is_file: false };
    let configuration = set_drive_presentation("{}", "local", Some("bifrost"), &no_file).unwrap();
    assert_eq!(configured_drive_type(&configuration), Ok(false));
    assert!(configuration.contains("\"drive_type\":\"local\""));
    assert!(configuration.contains("\"drive_icon\":\"bifrost\""));
    assert!(set_drive_presentation(&configuration, "portable", None, &no_file).is_err());
}

#[test]
fn reads_drive_presentation_settings() {
    let (kind, icon) = drive_presentation("local", Some("bifrost")).unwrap();
    assert_eq!(kind, "local");
    assert!(matches!(icon, DriveIcon::Builtin(ref name) if name == "bifrost"));
    assert!(drive_presentation("portable", None).is_err());
    let (kind, icon) = drive_presentation("  ", None).unwrap();
    assert_eq!(kind, "network");
    assert!(matches!(icon, DriveIcon::Builtin(ref name) if name == "system"));
    assert!(matches!(drive_presentation("network", Some("stock:-12")).unwrap().1, DriveIcon::Builtin(_)));
    assert!(matches!(drive_presentation("network", Some("stock:x")).unwrap().1, DriveIcon::Custom(_)));
    assert!(matches!(drive_presentation("network", Some(" C:\\icons\\a.ico ")).unwrap().1, DriveIcon::Custom(ref p) if p == "C:\\icons\\a.ico"));
}

#[test]
fn presentation_refusals_write_nothing_and_check_custom_icons() {
    let no_file = IconFile { extension: None, is_absolute: false, is_file: false };
    assert_eq!(
        set_drive_presentation("{}", "portable", None, &no_file).unwrap_err(),
        "Drive type must be network or local"
    );
    assert_eq!(
        set_drive_presentation("{}", "network", Some("C:\\icons\\a.ico"), &no_file).unwrap_err(),
        "Custom drive icon must be an existing .ico, .exe, .dll, .png, .jpg, or .webp file"
    );
    let ico = IconFile { extension: Some("ICO".to_owned()), is_absolute: true, is_file: true };
    let written = set_drive_presentation("{}", " network ", Some(" C:\\icons\\a.ico "), &ico).unwrap();
    assert!(written.contains("\"drive_icon\":\"C:\\\\icons\\\\a.ico\""));
    assert_eq!(
        set_drive_presentation("[]", "network", None, &no_file).unwrap_err(),
        "Connection configuration must be an object"
    );
    assert_eq!(
        set_drive_presentation("[]", "portable", None, &no_file).unwrap_err(),
        "Drive type must be network or local"
    );
}

#[test]
fn custom_icons_must_be_existing_supported_files() {
    assert!(check_custom_icon(Some("ICO"), true, true).is_ok());
    assert!(check_custom_icon(Some("txt"), true, true).is_err());
    assert!(check_custom_icon(Some("png"), false, true).is_err());
    assert!(check_custom_icon(None, true, true).is_err());
}

#[test]
fn drive_letters_are_not_assigned_twice() {
    let first = ConnectionId::from_uuid(1);
    let connections = vec![
        StoredConnection { id: first, name: "Team".to_owned(), configuration_json: r#"{"drive_letter":"X"}"#.to_owned() },
        StoredConnection { id: ConnectionId::from_uuid(2), name: "Home".to_owned(), configuration_json: "{}".to_owned() },
    ];
    assert_eq!(
        ensure_drive_letter_unassigned(Some("x:"), None, &connections).unwrap_err(),
        "Drive X: is already assigned to Team"
    );
    assert!(ensure_drive_letter_unassigned(Some("X"), Some(first), &connections).is_ok());
    assert!(ensure_drive_letter_unassigned(Some("Y"), None, &connections).is_ok());
    assert!(ensure_drive_letter_unassigned(None, None, &connections).is_ok());
    let available = drive_letters_available((1 << 25) | (1 << 3) | 0b111);
    assert_eq!(available.first().map(String::as_str), Some("Y:"));
    assert_eq!(available.last().map(String::as_str), Some("E:"));
    assert_eq!(available.len(), 21);
}

#[test]
fn credential_updates_keep_stored_values_when_blank() {
    let stored = vec![
        ("username".to_owned(), CredentialValue::Text("ann".to_owned())),
        ("password".to_owned(), CredentialValue::Text("old".to_owned())),
    ];
    let updates = vec![
        ("password".to_owned(), CredentialValue::Text(String::new())),
        ("username".to_owned(), CredentialValue::Text("bob".to_owned())),
        ("token".to_owned(), CredentialValue::Null),
        ("port".to_owned(), CredentialValue::Other("22".to_owned())),
    ];
    let merged = merge_connection_credentials(stored, updates);
    assert_eq!(merged.len(), 3);
    assert!(matches!(&merged[0], (key, CredentialValue::Text(value)) if key == "username" && value == "bob"));
    assert!(matches!(&merged[1], (key, CredentialValue::Text(value)) if key == "password" && value == "old"));
    assert!(matches!(&merged[2], (key, CredentialValue::Other(value)) if key == "port" && value == "22"));
}

#[test]
fn drive_operations_follow_their_rules() {
    let target = RemotePath::parse("docs/a.txt").unwrap();
    let missing = || Err(WinFspFilesystemError::Storage(StorageError::NotFound { path: RemotePath::parse("docs/a.txt").unwrap() }));
    assert_eq!(rename_kind(missing(), false, &target).unwrap(), RenameKind::Move);
    assert!(matches!(rename_kind(Ok(metadata("docs/a.txt", false, Some(1))), false, &target), Err(WinFspFilesystemError::AlreadyExists(_))));
    assert_eq!(rename_kind(Ok(metadata("docs/a.txt", false, Some(1))), true, &target).unwrap(), RenameKind::Replace);
    assert!(rename_kind(Ok(metadata("docs/a.txt", true, None)), true, &target).is_err());
    assert!(ensure_missing(missing(), &target).is_ok());
    assert!(ensure_missing(Ok(metadata("docs/a.txt", false, None)), &target).is_err());
    assert_eq!(flush_action(false, true, true), FlushAction::Upload);
    assert_eq!(flush_action(false, true, false), FlushAction::Stat);
    assert_eq!(flush_action(true, true, true), FlushAction::Stat);
    assert!(can_delete(true, false, &target).is_err());
    assert!(can_delete(true, true, &target).is_ok());
    assert!(ensure_writable(false, &target).is_err());
    assert!(stages_on_open(true, false));
    assert!(!stages_on_open(true, true));
    assert!(metadata_cache_usable(1_000, &metadata("a", false, Some(3))));
    assert!(!metadata_cache_usable(1_000, &metadata("a", false, None)));
    assert!(!metadata_cache_usable(6_000_000_000, &metadata("a", true, None)));
    assert!(listing_cache_usable(4_999_999_999));
}

#[test]
fn placeholder_identities_name_their_items() {
    let parent = RemotePath::parse("docs").unwrap();
    let placeholders = placeholders_for_listing(&parent, vec![RemoteEntry { metadata: metadata("docs/räk smörgås.txt", false, None) }]);
    let back = remote_path_from_identity(&placeholders[0].identity).unwrap();
    assert_eq!(back.as_str(), "docs/räk smörgås.txt");
}
