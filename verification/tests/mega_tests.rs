use bifrost_drive::mega_ops::{
    download_window_of, find_node, joined_path, mega_capacity, mega_listing, node_for_path, MegaNode, MegaNodeKind,
    MegaTree,
};
use bifrost_drive::path::RemotePath;
use bifrost_drive::storage::ByteRange;

fn node(handle: &str, name: &str, kind: MegaNodeKind, children: &[&str]) -> MegaNode {
    MegaNode {
        handle: handle.to_owned(),
        name: name.to_owned(),
        kind,
        size: 42,
        children: children.iter().map(|c| (*c).to_owned()).collect(),
        modified_at: if kind == MegaNodeKind::File { Some("2024-05-01T00:00:00+00:00".to_owned()) } else { None },
    }
}

fn tree() -> MegaTree {
    MegaTree {
        nodes: vec![
            node("r", "Cloud Drive", MegaNodeKind::Root, &["d", "missing", "f"]),
            node("d", "docs", MegaNodeKind::Folder, &["a"]),
            node("a", "a.txt", MegaNodeKind::File, &[]),
            node("f", "notes.txt", MegaNodeKind::File, &[]),
        ],
        cloud_drive: Some(0),
    }
}

#[test]
fn mega_paths_are_found_in_the_node_tree() {
    let tree = tree();
    assert_eq!(find_node(&tree, "a"), Some(2));
    assert_eq!(find_node(&tree, "zz"), None);
    assert_eq!(node_for_path(&tree, &RemotePath::root()), Ok(0));
    assert_eq!(node_for_path(&tree, &RemotePath::parse("docs/a.txt").unwrap()), Ok(2));
    assert_eq!(
        node_for_path(&tree, &RemotePath::parse("docs/b.txt").unwrap()),
        Err("MEGA path not found: docs/b.txt".to_owned())
    );
    let rootless = MegaTree { nodes: vec![], cloud_drive: None };
    assert_eq!(
        node_for_path(&rootless, &RemotePath::root()),
        Err("MEGA cloud drive root is unavailable".to_owned())
    );
}

#[test]
fn mega_paths_sit_below_the_start_folder() {
    let path = RemotePath::parse("docs/a.txt").unwrap();
    assert_eq!(joined_path(" /Backups\\2024/ ", &path).unwrap().as_str(), "Backups/2024/docs/a.txt");
    assert_eq!(joined_path("", &RemotePath::root()).unwrap().as_str(), "");
    assert_eq!(joined_path("a/../b", &path).unwrap_err(), "MEGA start path cannot contain '..'");
}

#[test]
fn mega_listings_give_each_existing_child() {
    let tree = tree();
    let entries = mega_listing(&tree, 0, &RemotePath::root(), "2030-01-01T00:00:00+00:00").unwrap();
    assert_eq!(entries.len(), 2);
    assert_eq!(entries[0].metadata.path.as_str(), "docs");
    assert!(entries[0].metadata.is_directory);
    assert_eq!(entries[0].metadata.size_bytes, None);
    assert_eq!(entries[0].metadata.modified_at.as_deref(), Some("2030-01-01T00:00:00+00:00"));
    assert_eq!(entries[1].metadata.path.as_str(), "notes.txt");
    assert_eq!(entries[1].metadata.size_bytes, Some(42));
    assert_eq!(entries[1].metadata.modified_at.as_deref(), Some("2024-05-01T00:00:00+00:00"));
}

#[test]
fn mega_reads_and_quota_are_cut_to_what_exists() {
    assert_eq!(download_window_of(10, None), (0, 10));
    assert_eq!(download_window_of(10, Some(ByteRange { start: 2, end: 5 })), (2, 5));
    assert_eq!(download_window_of(10, Some(ByteRange { start: 8, end: 50 })), (8, 10));
    assert_eq!(download_window_of(10, Some(ByteRange { start: 20, end: 30 })), (10, 10));
    assert_eq!(download_window_of(10, Some(ByteRange { start: 6, end: 3 })), (6, 6));
    let capacity = mega_capacity(100, 130);
    assert_eq!(capacity.total_bytes, 100);
    assert_eq!(capacity.available_bytes, 0);
    assert_eq!(mega_capacity(100, 30).available_bytes, 70);
}

use bifrost_drive::smb::{smb_listing, smb_next_request, sftp_path_error, SftpFailure, SftpStatusCode, SmbDirEntry};
use bifrost_drive::storage::StorageError;

#[test]
fn maps_path_statuses_for_filesystem_decisions() {
    let path = RemotePath::parse("missing.txt").unwrap();
    let status = |code| SftpFailure::Status { code, text: String::new() };

    assert!(matches!(
        sftp_path_error(status(SftpStatusCode::NoSuchFile), &path),
        StorageError::NotFound { .. }
    ));
    assert!(matches!(
        sftp_path_error(status(SftpStatusCode::PermissionDenied), &path),
        StorageError::PermissionDenied { .. }
    ));
}

#[test]
fn other_sftp_failures_keep_their_text() {
    let path = RemotePath::parse("a").unwrap();
    assert!(matches!(
        sftp_path_error(SftpFailure::Status { code: SftpStatusCode::Failure, text: "Failure: disk".to_owned() }, &path),
        StorageError::Provider { message, .. } if message == "Failure: disk"
    ));
    assert!(matches!(
        sftp_path_error(SftpFailure::Other("timed out".to_owned()), &path),
        StorageError::Provider { message, .. } if message == "timed out"
    ));
}

#[test]
fn smb_listings_skip_dot_entries_and_unusable_names() {
    let entry = |name: &str, is_directory: bool| SmbDirEntry { name: name.to_owned(), is_directory, size: 7, modified: Some((0, 0)) };
    let listed = smb_listing(
        &RemotePath::parse("share").unwrap(),
        vec![entry(".", true), entry("..", true), entry("docs", true), entry("a:b", false), entry("x.txt", false)],
    );
    assert_eq!(listed.len(), 2);
    assert_eq!(listed[0].metadata.path.as_str(), "share/docs");
    assert!(listed[0].metadata.is_directory);
    assert_eq!(listed[1].metadata.path.as_str(), "share/x.txt");
    assert_eq!(listed[1].metadata.size_bytes, Some(7));
    assert_eq!(listed[1].metadata.modified_at.as_deref(), Some("1970-01-01T00:00:00+00:00"));
}

#[test]
fn smb_reads_ask_for_chunks_up_to_the_range_end() {
    assert_eq!(smb_next_request(0, None), 65536);
    assert_eq!(smb_next_request(100, Some(200)), 100);
    assert_eq!(smb_next_request(0, Some(200_000)), 65536);
    assert_eq!(smb_next_request(200, Some(200)), 0);
}
