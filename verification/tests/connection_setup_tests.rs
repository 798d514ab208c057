use bifrost_drive::connection_setup::{
    ftp_setup, s3_setup, smb_setup, webdav_setup, LoginSecret, S3Secret, S3Settings, SetupPurpose,
};

fn keys() -> Option<S3Secret> {
    Some(S3Secret { access_key_id: "AKID".to_owned(), secret_access_key: "SECRET".to_owned() })
}

fn settings(region: &str, bucket: &str) -> Option<S3Settings> {
    Some(S3Settings { region: region.to_owned(), bucket: bucket.to_owned(), path_style: true })
}

fn login(user: &str) -> Option<LoginSecret> {
    Some(LoginSecret { username: user.to_owned(), password: "pw".to_owned() })
}

#[test]
fn s3_setup_keeps_the_stored_keys_and_bucket() {
    let setup = s3_setup(SetupPurpose::Provider, "https://s3.example.test", keys(), settings("us-east-1", "photos")).unwrap();
    assert_eq!(setup.config.bucket, "photos");
    assert_eq!(setup.config.region, "us-east-1");
    assert!(setup.config.path_style);
    assert_eq!(setup.config.endpoint.host.as_deref(), Some("s3.example.test"));
    assert_eq!(setup.access_key_id, "AKID");
    assert_eq!(setup.secret_access_key, "SECRET");
}

#[test]
fn s3_test_checks_the_endpoint_before_the_keys() {
    assert_eq!(
        s3_setup(SetupPurpose::Test, "not a url", None, None).unwrap_err(),
        "Connection endpoint must be a valid URL"
    );
    assert_eq!(
        s3_setup(SetupPurpose::Test, "ftp://s3.example.test", None, None).unwrap_err(),
        "Connection endpoint must use HTTP or HTTPS"
    );
    assert_eq!(
        s3_setup(SetupPurpose::Provider, "not a url", None, None).unwrap_err(),
        "Stored S3 credential payload is invalid"
    );
    assert_eq!(
        s3_setup(SetupPurpose::Provider, "not a url", keys(), None).unwrap_err(),
        "S3 bucket configuration is invalid"
    );
    assert_eq!(
        s3_setup(SetupPurpose::Provider, "not a url", keys(), settings("r", "b")).unwrap_err(),
        "Connection endpoint must be a valid URL"
    );
}

#[test]
fn s3_test_needs_a_bucket_and_region_and_a_provider_a_bucket() {
    assert_eq!(
        s3_setup(SetupPurpose::Test, "https://s3.example.test", keys(), settings(" ", "b")).unwrap_err(),
        "S3 bucket and region are required"
    );
    assert!(s3_setup(SetupPurpose::Provider, "https://s3.example.test", keys(), settings(" ", "b")).is_ok());
    assert_eq!(
        s3_setup(SetupPurpose::Provider, "https://s3.example.test", keys(), settings("r", "  ")).unwrap_err(),
        "provider S3 rejected the request: bucket name must not be empty"
    );
}

#[test]
fn webdav_setup_orders_its_checks_by_purpose() {
    assert_eq!(
        webdav_setup(SetupPurpose::Test, "nope", None).unwrap_err(),
        "WebDAV endpoint must be a valid URL"
    );
    assert_eq!(
        webdav_setup(SetupPurpose::Provider, "nope", None).unwrap_err(),
        "Stored WebDAV credential payload is invalid"
    );
    assert_eq!(
        webdav_setup(SetupPurpose::Provider, "ftp://dav.example.test/", login("ada")).unwrap_err(),
        "provider WebDAV rejected the request: WebDAV endpoint must use HTTP or HTTPS"
    );
    let setup = webdav_setup(SetupPurpose::Test, "https://dav.example.test/remote.php/dav", login("ada")).unwrap();
    assert_eq!(setup.endpoint.path, "/remote.php/dav");
    assert_eq!(setup.username, "ada");
    assert_eq!(setup.password, "pw");
}

#[test]
fn ftp_setup_dials_the_host_and_default_port() {
    let setup = ftp_setup("ftp://files.example.test/", login("ada")).unwrap();
    assert_eq!(setup.address, "files.example.test:21");
    assert_eq!(setup.username, "ada");
    assert_eq!(ftp_setup("ftp://files.example.test:2121/", login("ada")).unwrap().address, "files.example.test:2121");
    assert_eq!(ftp_setup("nope", None).unwrap_err(), "Stored FTP credential payload is invalid");
    assert_eq!(ftp_setup("nope", login("ada")).unwrap_err(), "FTP endpoint must be a valid URL");
    assert_eq!(
        ftp_setup("https://files.example.test/", login("ada")).unwrap_err(),
        "provider FTP rejected the request: endpoint must use ftp:// or ftps://"
    );
    assert_eq!(
        ftp_setup("ftp://files.example.test/", login("  ")).unwrap_err(),
        "provider FTP rejected the request: FTP host and username are required"
    );
}

#[test]
fn smb_setup_finds_the_share_and_domain() {
    let setup = smb_setup("smb://nas.example.test/media/films", login("ada"), Some("WORK".to_owned())).unwrap();
    assert_eq!(setup.address, "nas.example.test:445");
    assert_eq!(setup.share, "media");
    assert_eq!(setup.domain, "WORK");
    assert_eq!(smb_setup("nope", None, None).unwrap_err(), "Stored SMB credential payload is invalid");
    assert_eq!(smb_setup("nope", login("ada"), None).unwrap_err(), "SMB configuration is invalid");
    assert_eq!(smb_setup("nope", login("ada"), Some(String::new())).unwrap_err(), "SMB endpoint must be a valid URL");
    assert_eq!(
        smb_setup("smb://nas.example.test/", login("ada"), Some(String::new())).unwrap_err(),
        "provider SMB rejected the request: SMB endpoint must include a share name"
    );
}
