use bifrost_drive::capability::{Capability, CapabilitySet};
use bifrost_drive::common::{ConnectionId, ProviderKind, SyncState, TransferId};
use bifrost_drive::credentials::SecretString;
use bifrost_drive::path::RemotePath;
use bifrost_drive::sync::{
    reconcile, resolve, transition, ConflictResolution, ReconciliationInput, Revision, SyncDecision, SyncError,
};

fn revision(value: &str) -> Option<Revision> {
    Some(Revision::new(value.to_owned()))
}

#[test]
fn normalizes_separators_and_dot_components() {
    assert_eq!(RemotePath::parse(r"docs\\./report.txt").unwrap().as_str(), "docs/report.txt");
}

#[test]
fn rejects_parent_traversal() {
    assert!(RemotePath::parse("docs/../secret.txt").is_err());
}

#[test]
fn capability_set_contains_only_currently_implemented_operations() {
    let capabilities = CapabilitySet::with(&[Capability::Read, Capability::Write, Capability::Delete, Capability::RangeRead]);
    assert!(capabilities.contains(Capability::RangeRead));
    assert!(!capabilities.contains(Capability::MultipartUpload));
    assert_eq!(RemotePath::root().as_str(), "");
}

#[test]
fn detects_one_sided_changes() {
    let base = revision("base");
    assert_eq!(
        reconcile(&ReconciliationInput { base: base.clone(), local: base.clone(), remote: revision("remote") }),
        SyncDecision::DownloadRemote
    );
    assert_eq!(
        reconcile(&ReconciliationInput { base: base.clone(), local: revision("local"), remote: base }),
        SyncDecision::UploadLocal
    );
}

#[test]
fn refuses_to_overwrite_when_both_sides_changed() {
    let input = ReconciliationInput { base: revision("base"), local: revision("local"), remote: revision("remote") };
    assert_eq!(reconcile(&input), SyncDecision::Conflict);
    assert_eq!(resolve(&input, None), Err(SyncError::ConflictRequiresResolution));
    assert_eq!(
        resolve(&input, Some(ConflictResolution::KeepBoth)).unwrap(),
        SyncDecision::Resolved(ConflictResolution::KeepBoth)
    );
}

#[test]
fn validates_conservative_state_transitions() {
    assert!(transition(SyncState::Online, SyncState::Syncing).is_ok());
    assert!(transition(SyncState::Downloading, SyncState::Uploading).is_err());
}

#[test]
fn secret_debug_and_display_are_redacted() {
    let secret = SecretString::new("do-not-log".to_owned());
    assert_eq!(secret.debug_text(), "SecretString(REDACTED)");
    assert_eq!(secret.display_text(), "[REDACTED]");
    assert_eq!(secret.expose(), "do-not-log");
}

#[test]
fn parsing_a_parsed_path_gives_it_back() {
    let once = RemotePath::parse(r"a\\b/./c//").unwrap();
    let twice = RemotePath::parse(once.as_str()).unwrap();
    assert_eq!(once.as_str(), "a/b/c");
    assert_eq!(twice.as_str(), once.as_str());
}

#[test]
fn joins_children_and_refuses_traversal() {
    let docs = RemotePath::parse("docs").unwrap();
    assert_eq!(docs.join("report.txt").unwrap().as_str(), "docs/report.txt");
    assert_eq!(RemotePath::root().join("top").unwrap().as_str(), "top");
    assert!(docs.join("..").is_err());
    assert!(RemotePath::parse("/etc/passwd").is_err());
    assert!(RemotePath::parse("C:/data").is_err());
}

#[test]
fn provider_kinds_round_trip_through_their_identifiers() {
    for kind in [
        ProviderKind::S3,
        ProviderKind::Sftp,
        ProviderKind::WebDav,
        ProviderKind::Nextcloud,
        ProviderKind::GoogleDrive,
        ProviderKind::Ftp,
        ProviderKind::Smb,
    ] {
        assert_eq!(ProviderKind::parse(kind.as_str()).unwrap(), kind);
    }
    assert_eq!(ProviderKind::GoogleDrive.as_str(), "google-drive");
    assert!(ProviderKind::parse("dropbox").is_err());
}

#[test]
fn one_sided_decisions_are_symmetric() {
    let base = revision("base");
    assert_eq!(
        reconcile(&ReconciliationInput { base: base.clone(), local: revision("x"), remote: revision("x") }),
        SyncDecision::UpToDate
    );
    assert_eq!(
        reconcile(&ReconciliationInput { base: base.clone(), local: base.clone(), remote: base.clone() }),
        SyncDecision::UpToDate
    );
}

#[test]
fn capability_sets_ignore_order_and_repetition() {
    let a = CapabilitySet::with(&[Capability::Write, Capability::Read, Capability::Write]);
    assert_eq!(a.iter(), vec![Capability::Read, Capability::Write]);
    assert!(!CapabilitySet::new().contains(Capability::Read));
}

#[test]
fn fresh_identifiers_are_version_four_uuids() {
    for bits in [ConnectionId::new().as_uuid(), TransferId::new().as_uuid()] {
        assert_eq!((bits >> 76) & 0xf, 4);
        assert_eq!((bits >> 62) & 0x3, 2);
    }
    assert_ne!(ConnectionId::new().as_uuid(), ConnectionId::new().as_uuid());
}

#[test]
fn a_join_stays_below_its_parent() {
    let parent = RemotePath::parse("docs").unwrap();
    for name in ["a/./b", "./", "x//y", "c"] {
        let joined = parent.join(name).unwrap();
        assert!(joined.as_str() == "docs" || joined.as_str().starts_with("docs/"));
    }
    assert!(parent.join("a/../../etc").is_err());
}
