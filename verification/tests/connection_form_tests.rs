use bifrost_drive::api::{
    CreateFtpConnectionRequest, CreateS3ConnectionRequest, CreateSftpConnectionRequest, CreateSmbConnectionRequest,
    StoreS3CredentialRequest,
};
use bifrost_drive::connections::{
    check_connection_request, check_ftp_connection_request, check_s3_bucket, check_s3_connection_request,
    check_s3_credential_request, check_smb_connection_request, plan_sftp_connection,
};

fn s3_request(name: &str, region: &str, bucket: &str, key: &str, secret: &str) -> CreateS3ConnectionRequest {
    CreateS3ConnectionRequest {
        name: name.to_owned(),
        endpoint: "https://s3.example.test".to_owned(),
        region: region.to_owned(),
        bucket: bucket.to_owned(),
        path_style: true,
        access_key_id: key.to_owned(),
        secret_access_key: secret.to_owned(),
    }
}

fn sftp_request(host: &str, authentication: &str, key: Option<&str>, known_hosts: Option<&str>) -> CreateSftpConnectionRequest {
    CreateSftpConnectionRequest {
        name: "Home".to_owned(),
        host: host.to_owned(),
        port: 2222,
        root_path: "  /data  ".to_owned(),
        username: "user".to_owned(),
        password: "secret".to_owned(),
        known_hosts: known_hosts.map(str::to_owned),
        trust_on_first_use: false,
        authentication: authentication.to_owned(),
        private_key_path: key.map(str::to_owned),
        passphrase: None,
    }
}

#[test]
fn connection_forms_need_their_fields() {
    assert_eq!(
        check_connection_request(" ", "{}").unwrap_err(),
        "Connection name and credential reference are required"
    );
    assert!(check_connection_request("Files", "{}").is_ok());
    assert_eq!(
        check_s3_connection_request(&s3_request("Files", "", "bucket", "k", "s")).unwrap_err(),
        "Connection name, bucket, and region are required"
    );
    assert_eq!(
        check_s3_connection_request(&s3_request("Files", "eu", "bucket", "k", "")).unwrap_err(),
        "S3 access key and secret key are required"
    );
    assert!(check_s3_connection_request(&s3_request("Files", "eu", "bucket", "k", "s")).is_ok());
    assert_eq!(check_s3_bucket("bucket", "  ").unwrap_err(), "S3 bucket and region are required");
    let credential = StoreS3CredentialRequest {
        label: "".to_owned(),
        access_key_id: "k".to_owned(),
        secret_access_key: "s".to_owned(),
    };
    assert_eq!(check_s3_credential_request(&credential).unwrap_err(), "Credential label is required");
    let ftp = CreateFtpConnectionRequest {
        name: "Files".to_owned(),
        endpoint: "ftp://example.test".to_owned(),
        username: "user".to_owned(),
        password: "".to_owned(),
    };
    assert_eq!(
        check_ftp_connection_request(&ftp).unwrap_err(),
        "FTP connection name, username, and password are required"
    );
    let smb = CreateSmbConnectionRequest {
        name: "Files".to_owned(),
        endpoint: "smb://nas/share".to_owned(),
        username: " ".to_owned(),
        password: "".to_owned(),
        domain: "".to_owned(),
    };
    assert_eq!(check_smb_connection_request(&smb).unwrap_err(), "SMB connection name and username are required");
}

#[test]
fn sftp_forms_are_planned_with_their_defaults() {
    let plan = plan_sftp_connection(&sftp_request("example.test", "password", None, Some(" ")), "/home/u/.ssh/known_hosts")
        .unwrap();
    assert_eq!(plan.root_path, "/data");
    assert_eq!(plan.known_hosts, "/home/u/.ssh/known_hosts");
    assert_eq!(plan.endpoint, "sftp://example.test:2222");
    assert_eq!(plan.stored_password.as_deref(), Some("secret"));
    let keyed = plan_sftp_connection(&sftp_request("example.test", "private_key", Some("id_ed25519"), Some("kh")), "")
        .unwrap();
    assert_eq!(keyed.known_hosts, "kh");
    assert_eq!(keyed.stored_password, None);
    assert_eq!(
        plan_sftp_connection(&sftp_request("example.test", "private_key", Some(" "), None), "kh").unwrap_err(),
        "SFTP private key path is required"
    );
    assert_eq!(
        plan_sftp_connection(&sftp_request("example.test", "agent", None, None), "kh").unwrap_err(),
        "SFTP authentication must be password or private_key"
    );
    assert_eq!(
        plan_sftp_connection(&sftp_request("example.test", "password", None, None), "").unwrap_err(),
        "Unable to determine the default SSH known_hosts path"
    );
    assert_eq!(
        plan_sftp_connection(&sftp_request("", "password", None, None), "kh").unwrap_err(),
        "SFTP host and username are required"
    );
}

use bifrost_drive::settings::{drive_icon_setting, icon_source, IconSource};

#[test]
fn drive_icons_are_resolved_to_their_source() {
    assert_eq!(drive_icon_setting("{}").unwrap(), "system");
    assert_eq!(drive_icon_setting(r#"{"drive_icon":"bifrost"}"#).unwrap(), "bifrost");
    assert_eq!(drive_icon_setting("nope").unwrap_err(), "Connection configuration is invalid");
    let root = r"C:\Windows";
    let exe = r"C:\Program Files\Bifrost\bifrost.exe";
    assert!(matches!(icon_source("system", root, exe, None), Ok(IconSource::System)));
    assert!(matches!(icon_source("bifrost", root, exe, None), Ok(IconSource::Text(t)) if t == r#""C:\Program Files\Bifrost\bifrost.exe",0"#));
    assert!(matches!(icon_source("windows_local", root, exe, None), Ok(IconSource::Text(t)) if t == r"C:\Windows\System32\shell32.dll,8"));
    assert!(matches!(icon_source("windows_network", root, exe, None), Ok(IconSource::Text(t)) if t == r"C:\Windows\System32\shell32.dll,9"));
    assert!(matches!(icon_source("stock:stock:12", root, exe, None), Ok(IconSource::Stock(12))));
    assert!(matches!(icon_source("stock:x", root, exe, None), Err(m) if m == "Invalid Windows stock icon"));
    assert!(matches!(icon_source("shell32:-3", root, exe, None), Ok(IconSource::Text(t)) if t == r#""C:\Windows\System32\SHELL32.dll",-3"#));
    assert!(matches!(icon_source("shell32:", root, exe, None), Err(m) if m == "Invalid shell32 icon index"));
    assert!(matches!(icon_source(r"D:\pics\logo.PNG", root, exe, Some("PNG")), Ok(IconSource::Picture(p)) if p == r"D:\pics\logo.PNG"));
    assert!(matches!(icon_source(r"D:\icons\drive.ico", root, exe, Some("ico")), Ok(IconSource::Text(t)) if t == r#""D:\icons\drive.ico",0"#));
}
