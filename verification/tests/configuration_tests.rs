use bifrost_drive::connections::check_connection_name;
use bifrost_drive::drive_ops::{drive_connect_check, GoogleDriveCredentials};
use bifrost_drive::endpoints::{endpoint_url, EndpointRole};
use bifrost_drive::settings::{configured_drive_letter, configured_drive_type, set_drive_letter, set_drive_presentation, IconFile};
use bifrost_drive::storage::StorageError;
use bifrost_drive::common::ProviderKind;

fn credentials(token: &str) -> GoogleDriveCredentials {
    GoogleDriveCredentials {
        access_token: token.to_owned(),
        refresh_token: None,
        client_id: None,
        client_secret: None,
        expires_at: None,
    }
}

#[test]
fn drive_connection_needs_https_and_a_token() {
    let https = endpoint_url("https://www.googleapis.com/drive/v3", EndpointRole::Connection).unwrap();
    let http = endpoint_url("http://www.googleapis.com/drive/v3", EndpointRole::Connection).unwrap();
    assert!(drive_connect_check(&https, &credentials("token")).is_ok());
    match drive_connect_check(&http, &credentials("token")) {
        Err(StorageError::Provider { provider: ProviderKind::GoogleDrive, message }) => {
            assert_eq!(message, "Google Drive endpoint must use HTTPS")
        }
        other => panic!("unexpected {other:?}"),
    }
    assert!(matches!(
        drive_connect_check(&https, &credentials("  ")),
        Err(StorageError::AuthenticationFailed { provider: ProviderKind::GoogleDrive })
    ));
}

#[test]
fn updated_connection_needs_a_name() {
    assert_eq!(check_connection_name("  ").unwrap_err(), "Connection name is required");
    assert!(check_connection_name("Photos").is_ok());
}

#[test]
fn drive_letter_is_written_and_read_back() {
    let written = set_drive_letter(r#"{"mount_on_startup":false}"#, Some(" e: ")).unwrap();
    assert_eq!(configured_drive_letter(&written).unwrap(), Some('E'));
    assert!(written.contains("\"mount_on_startup\":false"));
    let removed = set_drive_letter(&written, Some("  ")).unwrap();
    assert_eq!(configured_drive_letter(&removed).unwrap(), None);
    assert!(!removed.contains("drive_letter"));
    assert_eq!(set_drive_letter("[1]", Some("Q")).unwrap_err(), "Connection configuration must be an object");
    assert_eq!(set_drive_letter("[1]", Some("??")).unwrap_err(), "Connection configuration must be an object");
    assert!(set_drive_letter("{}", Some("??")).is_err());
}

#[test]
fn presentation_is_written_into_the_configuration() {
    let no_file = IconFile { extension: None, is_absolute: false, is_file: false };
    let written = set_drive_presentation("{}", "local", Some("bifrost"), &no_file).unwrap();
    assert!(!configured_drive_type(&written).unwrap());
    assert!(written.contains("\"drive_icon\":\"bifrost\""));
    assert_eq!(set_drive_presentation("7", "local", None, &no_file).unwrap_err(), "Connection configuration must be an object");
}
