use bifrost_drive::endpoints::{
    endpoint_url, ftp_connect, ftp_connection_endpoint, http_connection_endpoint, smb_connect,
    smb_connection_endpoint, webdav_connect_check, EndpointRole,
};
use bifrost_drive::path::RemotePath;
use bifrost_drive::storage::{RemoteEntry, RemoteMetadata, StorageCapacity, StorageError};
use bifrost_drive::timestamps::{s3_modified_time, sftp_modified_time};
use bifrost_drive::webdav::{
    lock_body, lock_from_header, lock_timeout_header, multistatus_entries, parse_capacity, parse_multistatus,
    quota_capacity_of, stat_from_listing, u64_error_kind_of, webdav_root_stat, webdav_url_for, IntErrorKind, XmlEvent,
};

fn provider_message(error: StorageError) -> String {
    match error {
        StorageError::Provider { message, .. } => message,
        other => panic!("unexpected error {other:?}"),
    }
}

#[test]
fn parses_dav_metadata_without_including_the_collection_root() {
    let xml = br#"<d:multistatus xmlns:d="DAV:"><d:response><d:href>https://dav.test/files/</d:href><d:propstat><d:prop><d:resourcetype><d:collection/></d:resourcetype></d:prop></d:propstat></d:response><d:response><d:href>https://dav.test/files/report.txt</d:href><d:propstat><d:prop><d:getcontentlength>12</d:getcontentlength><d:getetag>\"abc\"</d:getetag></d:prop></d:propstat></d:response></d:multistatus>"#;
    let endpoint = endpoint_url("https://dav.test/files/", EndpointRole::WebDav).unwrap();
    let entries = parse_multistatus(xml.to_vec(), &endpoint.path).unwrap();
    assert_eq!(entries.len(), 1);
    assert_eq!(entries[0].metadata.path.as_str(), "report.txt");
    assert_eq!(entries[0].metadata.size_bytes, Some(12));
}

#[test]
fn parses_dav_quota_capacity() {
    let xml = br#"<d:multistatus xmlns:d="DAV:"><d:response><d:propstat><d:prop><d:quota-used-bytes>100</d:quota-used-bytes><d:quota-available-bytes>900</d:quota-available-bytes></d:prop></d:propstat></d:response></d:multistatus>"#;
    let capacity = parse_capacity(xml.to_vec()).unwrap().unwrap();
    assert_eq!(capacity.total_bytes, 1_000);
    assert_eq!(capacity.available_bytes, 900);
}

#[test]
fn leaves_dav_capacity_unknown_without_both_quota_properties() {
    let xml = br#"<d:multistatus xmlns:d="DAV:"><d:response><d:propstat><d:prop><d:quota-available-bytes>900</d:quota-available-bytes></d:prop></d:propstat></d:response></d:multistatus>"#;
    assert_eq!(parse_capacity(xml.to_vec()).unwrap(), None);
}

#[test]
fn rejects_non_http_endpoints() {
    let endpoint = endpoint_url("sftp://dav.test", EndpointRole::WebDav).unwrap();
    let result = webdav_connect_check(&endpoint);
    assert!(result.is_err());
}

#[test]
fn accepts_only_ftp_schemes() {
    let endpoint = endpoint_url("https://example.test", EndpointRole::Ftp).unwrap();
    assert!(ftp_connect(&endpoint, "user").is_err());
}

#[test]
fn accepts_explicit_ftps_configuration() {
    let endpoint = endpoint_url("ftps://example.test", EndpointRole::Ftp).unwrap();
    assert!(ftp_connect(&endpoint, "user").is_ok());
}

#[test]
fn ftp_dials_the_host_and_the_known_port() {
    let plain = endpoint_url("ftp://files.example.test", EndpointRole::Ftp).unwrap();
    assert_eq!(ftp_connect(&plain, "user").unwrap(), "files.example.test:21");
    let secure = endpoint_url("ftps://files.example.test:2121", EndpointRole::Ftp).unwrap();
    assert_eq!(ftp_connect(&secure, "user").unwrap(), "files.example.test:2121");
    let error = ftp_connect(&plain, "  ").unwrap_err();
    assert_eq!(provider_message(error), "FTP host and username are required");
}

#[test]
fn smb_dials_the_host_and_names_the_share() {
    let endpoint = endpoint_url("smb://nas.local/media/photos", EndpointRole::Smb).unwrap();
    let (address, share) = smb_connect(&endpoint).unwrap();
    assert_eq!(address, "nas.local:445");
    assert_eq!(share, "media");
    let with_port = endpoint_url("smb://nas.local:1445/media", EndpointRole::Smb).unwrap();
    assert_eq!(smb_connect(&with_port).unwrap().0, "nas.local:1445");
    let no_share = endpoint_url("smb://nas.local/", EndpointRole::Smb).unwrap();
    assert_eq!(provider_message(smb_connect(&no_share).unwrap_err()), "SMB endpoint must include a share name");
    let wrong = endpoint_url("ftp://nas.local/media", EndpointRole::Smb).unwrap();
    assert_eq!(provider_message(smb_connect(&wrong).unwrap_err()), "endpoint must use smb://");
}

#[test]
fn connection_endpoints_are_checked_by_kind() {
    assert_eq!(http_connection_endpoint("not a url").unwrap_err(), "Connection endpoint must be a valid URL");
    assert_eq!(
        http_connection_endpoint("ftp://example.test").unwrap_err(),
        "Connection endpoint must use HTTP or HTTPS"
    );
    assert_eq!(http_connection_endpoint("HTTPS://Example.test").unwrap().text, "https://example.test/");
    assert_eq!(
        ftp_connection_endpoint("https://example.test").unwrap_err(),
        "FTP endpoint must use ftp:// or ftps://"
    );
    assert_eq!(ftp_connection_endpoint("::").unwrap_err(), "FTP endpoint must be a valid URL");
    assert_eq!(smb_connection_endpoint("http://nas").unwrap_err(), "SMB endpoint must use smb://");
    assert!(smb_connection_endpoint("smb://nas/share").is_ok());
    assert_eq!(endpoint_url("", EndpointRole::WebDav).unwrap_err(), "WebDAV endpoint must be a valid URL");
}

#[test]
fn webdav_urls_add_the_path_segments_to_the_endpoint() {
    let endpoint = endpoint_url("https://dav.test/files/", EndpointRole::WebDav).unwrap();
    let path = RemotePath::parse("docs/report final.txt").unwrap();
    assert_eq!(
        webdav_url_for(&endpoint, &path).unwrap(),
        "https://dav.test/files/docs/report%20final.txt"
    );
    assert_eq!(webdav_url_for(&endpoint, &RemotePath::root()).unwrap(), "https://dav.test/files");
    let opaque = endpoint_url("mailto:someone@example.test", EndpointRole::WebDav).unwrap();
    assert_eq!(
        provider_message(webdav_url_for(&opaque, &path).unwrap_err()),
        "WebDAV endpoint cannot be used as a base path"
    );
}

#[test]
fn multistatus_events_give_directories_and_refuse_escaping_paths() {
    let events = vec![
        XmlEvent::Start(b"response".to_vec()),
        XmlEvent::Start(b"href".to_vec()),
        XmlEvent::Text(Ok("/files/photos/".to_owned())),
        XmlEvent::End(b"href".to_vec()),
        XmlEvent::Empty(b"collection".to_vec()),
        XmlEvent::Start(b"getlastmodified".to_vec()),
        XmlEvent::Text(Ok("Tue, 1 Jul 2003 10:52:37 +0200".to_owned())),
        XmlEvent::End(b"getlastmodified".to_vec()),
        XmlEvent::End(b"response".to_vec()),
    ];
    let entries = multistatus_entries(events, "/files").unwrap();
    assert_eq!(entries.len(), 1);
    assert_eq!(entries[0].metadata.path.as_str(), "photos");
    assert!(entries[0].metadata.is_directory);
    assert_eq!(entries[0].metadata.modified_at.as_deref(), Some("2003-07-01T08:52:37+00:00"));

    let escaping = vec![
        XmlEvent::Start(b"response".to_vec()),
        XmlEvent::Start(b"href".to_vec()),
        XmlEvent::Text(Ok("/files/../secret".to_owned())),
        XmlEvent::End(b"href".to_vec()),
        XmlEvent::End(b"response".to_vec()),
    ];
    let error = multistatus_entries(escaping, "/files/").unwrap_err();
    assert_eq!(provider_message(error), "invalid remote path: parent traversal: ../secret");

    let undecodable = vec![
        XmlEvent::Start(b"response".to_vec()),
        XmlEvent::Start(b"href".to_vec()),
        XmlEvent::Text(Err("bad text".to_owned())),
    ];
    assert_eq!(provider_message(multistatus_entries(undecodable, "/").unwrap_err()), "bad text");
}

#[test]
fn quota_values_that_are_no_numbers_are_refused() {
    let events = vec![
        XmlEvent::Start(b"quota-used-bytes".to_vec()),
        XmlEvent::Text(Ok("12x".to_owned())),
    ];
    assert_eq!(
        provider_message(quota_capacity_of(events).unwrap_err()),
        "invalid WebDAV quota value: invalid digit found in string"
    );
    let saturating = vec![
        XmlEvent::Start(b"quota-used-bytes".to_vec()),
        XmlEvent::Text(Ok("18446744073709551615".to_owned())),
        XmlEvent::End(b"quota-used-bytes".to_vec()),
        XmlEvent::Start(b"quota-available-bytes".to_vec()),
        XmlEvent::Text(Ok("5".to_owned())),
        XmlEvent::End(b"quota-available-bytes".to_vec()),
    ];
    assert_eq!(
        quota_capacity_of(saturating).unwrap(),
        Some(StorageCapacity { total_bytes: u64::MAX, available_bytes: 5 })
    );
}

#[test]
fn integer_errors_are_named_as_the_standard_library_names_them() {
    let kind = |s: &str| u64_error_kind_of(&s.chars().collect::<Vec<char>>());
    assert_eq!(kind(""), IntErrorKind::Empty);
    assert_eq!(kind("+"), IntErrorKind::InvalidDigit);
    assert_eq!(kind("-5"), IntErrorKind::InvalidDigit);
    assert_eq!(kind("99999999999999999999"), IntErrorKind::PosOverflow);
    assert_eq!(kind("99999999999999999999x"), IntErrorKind::PosOverflow);
    assert_eq!(kind("12x99999999999999999999"), IntErrorKind::InvalidDigit);
    assert!("".parse::<u64>().is_err());
}

#[test]
fn stat_picks_the_listed_entry_or_reports_it_missing() {
    let entry = |path: &str, size: u64| RemoteEntry {
        metadata: RemoteMetadata {
            path: RemotePath::parse(path).unwrap(),
            is_directory: false,
            size_bytes: Some(size),
            etag: None,
            modified_at: None,
        },
    };
    let path = RemotePath::parse("docs/a.txt").unwrap();
    let found = stat_from_listing(&path, vec![entry("docs/b.txt", 1), entry("docs/a.txt", 2)]).unwrap();
    assert_eq!(found.size_bytes, Some(2));
    let missing = stat_from_listing(&path, vec![entry("docs/b.txt", 1)]).unwrap_err();
    assert!(matches!(missing, StorageError::NotFound { path } if path.as_str() == "docs/a.txt"));
}

#[test]
fn lock_requests_name_a_timeout_and_the_owner() {
    assert_eq!(lock_timeout_header(0), "Second-1");
    assert_eq!(lock_timeout_header(600), "Second-600");
    assert!(lock_body("bifrost").contains("<d:owner><d:href>bifrost</d:href></d:owner>"));
    assert_eq!(lock_from_header(Some("opaquelocktoken:1".to_owned())).unwrap().token, "opaquelocktoken:1");
    assert_eq!(
        provider_message(lock_from_header(None).unwrap_err()),
        "WebDAV LOCK response did not include a Lock-Token"
    );
}

#[test]
fn provider_times_become_rfc3339_text() {
    assert_eq!(s3_modified_time(Some((1431648000, 0))).as_deref(), Some("2015-05-15T00:00:00+00:00"));
    assert_eq!(s3_modified_time(None), None);
    assert_eq!(s3_modified_time(Some((0, 2_000_000_000))), None);
    assert_eq!(sftp_modified_time(Some((86400, 0))).as_deref(), Some("1970-01-02T00:00:00+00:00"));
}

#[test]
fn root_stat_is_the_configured_directory_without_a_request() {
    let metadata = webdav_root_stat(&RemotePath::root()).unwrap();
    assert_eq!(metadata.path.as_str(), "");
    assert!(metadata.is_directory);
    assert_eq!(metadata.size_bytes, None);
    assert!(webdav_root_stat(&RemotePath::parse("docs").unwrap()).is_none());
}
