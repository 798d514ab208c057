use bifrost_drive::endpoints::{endpoint_url, smb_connect, EndpointRole};
use bifrost_drive::immich::ImmichCredentials;
use bifrost_drive::immich_ops::{
    check_immich_endpoint, immich_api_url, immich_status, login_token, normalize_endpoint, sign_in_plan, ImmichError,
    ImmichSignIn,
};
use bifrost_drive::path::RemotePath;
use bifrost_drive::s3::{map_object, s3_connect_check, s3_content_length, s3_head_metadata, s3_listing, S3Config, S3Object};
use bifrost_drive::storage::StorageError;

fn object(key: Option<&str>, size: Option<i64>) -> S3Object {
    S3Object { key: key.map(str::to_owned), size, e_tag: Some("\"e\"".to_owned()), last_modified: Some((1431648000, 0)) }
}

#[test]
fn config_preserves_s3_compatible_endpoint_options() {
    let config = S3Config {
        endpoint: endpoint_url("http://127.0.0.1:9000", EndpointRole::Connection).unwrap(),
        region: "us-east-1".to_owned(),
        bucket: "bifrost-integration".to_owned(),
        path_style: true,
    };

    assert_eq!(config.endpoint.text, "http://127.0.0.1:9000/");
    assert_eq!(config.region, "us-east-1");
    assert!(config.path_style);
}

#[test]
fn requires_a_share_in_the_endpoint() {
    let endpoint = endpoint_url("smb://server", EndpointRole::Smb).unwrap();
    assert!(endpoint.path.is_empty());
    assert!(matches!(
        smb_connect(&endpoint),
        Err(StorageError::Provider { message, .. }) if message == "SMB endpoint must include a share name"
    ));
}

#[test]
fn s3_needs_a_bucket() {
    let config = S3Config {
        endpoint: endpoint_url("https://s3.test", EndpointRole::Connection).unwrap(),
        region: "eu".to_owned(),
        bucket: "  ".to_owned(),
        path_style: false,
    };
    assert!(matches!(
        s3_connect_check(&config),
        Err(StorageError::Provider { message, .. }) if message == "bucket name must not be empty"
    ));
}

#[test]
fn s3_listings_give_files_then_folders() {
    let page = s3_listing(
        vec![object(Some("docs/a.txt"), Some(12)), object(None, None), object(Some("docs/b.txt"), Some(-1))],
        &vec![Some("docs/photos/".to_owned()), None],
        Some("next".to_owned()),
    )
    .unwrap();
    assert_eq!(page.entries.len(), 3);
    assert_eq!(page.entries[0].metadata.path.as_str(), "docs/a.txt");
    assert_eq!(page.entries[0].metadata.size_bytes, Some(12));
    assert_eq!(page.entries[0].metadata.modified_at.as_deref(), Some("2015-05-15T00:00:00+00:00"));
    assert_eq!(page.entries[1].metadata.size_bytes, None);
    assert_eq!(page.entries[2].metadata.path.as_str(), "docs/photos");
    assert!(page.entries[2].metadata.is_directory);
    assert_eq!(page.next_cursor.as_deref(), Some("next"));
    assert!(matches!(
        map_object(object(Some("/abs"), None)),
        Err(StorageError::Provider { message, .. }) if message == "invalid remote path: absolute path: /abs"
    ));
    assert!(s3_listing(vec![], &vec![Some("../up/".to_owned())], None).is_err());
}

#[test]
fn s3_uploads_state_a_signed_length() {
    assert_eq!(s3_content_length(None).unwrap(), None);
    assert_eq!(s3_content_length(Some(5)).unwrap(), Some(5));
    assert!(matches!(
        s3_content_length(Some(u64::MAX)),
        Err(StorageError::Provider { message, .. }) if message == "object is too large for S3 content length"
    ));
    let head = s3_head_metadata(RemotePath::parse("a.txt").unwrap(), Some(3), None, None);
    assert_eq!(head.size_bytes, Some(3));
    assert!(!head.is_directory);
}

#[test]
fn normalizes_trailing_slashes_and_proxy_paths() {
    let parsed = endpoint_url("https://photos.example/immich///?x=1", EndpointRole::Connection).unwrap();
    let endpoint = normalize_endpoint(&parsed).unwrap();
    assert_eq!(endpoint.text, "https://photos.example/immich");
}

#[test]
fn immich_endpoints_and_sign_in_are_checked() {
    let endpoint = normalize_endpoint(&endpoint_url("http://nas:2283/", EndpointRole::Connection).unwrap()).unwrap();
    assert!(check_immich_endpoint(&endpoint).is_ok());
    assert_eq!(immich_api_url(&endpoint, "albums").unwrap(), "http://nas:2283/api/albums");
    let ftp = endpoint_url("ftp://nas", EndpointRole::Connection).unwrap();
    assert!(matches!(
        check_immich_endpoint(&ftp),
        Err(ImmichError::Provider(m)) if m == "Immich endpoint must use HTTP or HTTPS"
    ));
    assert!(matches!(sign_in_plan(ImmichCredentials::ApiKey(" ".to_owned())), Err(ImmichError::AuthenticationFailed)));
    assert!(matches!(sign_in_plan(ImmichCredentials::ApiKey("k".to_owned())), Ok(ImmichSignIn::ApiKey(k)) if k == "k"));
    assert!(matches!(
        sign_in_plan(ImmichCredentials::Password { email: "a@b".to_owned(), password: "".to_owned() }),
        Err(ImmichError::AuthenticationFailed)
    ));
    assert!(matches!(login_token("  ".to_owned()), Err(ImmichError::AuthenticationFailed)));
    assert!(immich_status(200, "200 OK").is_ok());
    assert!(matches!(immich_status(404, "404 Not Found"), Err(ImmichError::Provider(m)) if m == "Immich API endpoint was not found"));
    assert!(matches!(immich_status(500, "500 Internal Server Error"), Err(ImmichError::Provider(m)) if m == "server returned HTTP 500 Internal Server Error"));
}
