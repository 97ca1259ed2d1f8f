use vault_store::error::{ErrorKind, VaultError};

#[test]
fn every_kind_has_its_standard_message() {
    let expected = [
        (ErrorKind::VaultNotFound, "Vault path does not exist."),
        (ErrorKind::VaultNotADirectory, "Vault path is not a directory."),
        (ErrorKind::NotFound, "File not found."),
        (ErrorKind::NotAFile, "Path is not a file."),
        (ErrorKind::UnsupportedType, "Only markdown files are supported."),
        (ErrorKind::DecodeError, "File contents are not valid text."),
        (ErrorKind::IoError, "File system operation failed."),
        (ErrorKind::SerializationError, "State could not be encoded or decoded."),
    ];
    for (kind, message) in expected {
        let error = VaultError::of_kind(kind);
        assert_eq!(error.kind, kind);
        assert_eq!(error.message, message);
    }
}

#[test]
fn a_failure_can_carry_the_message_of_its_cause() {
    let error = VaultError::with_message(ErrorKind::IoError, "disk full".to_string());
    assert_eq!(error.kind, ErrorKind::IoError);
    assert_eq!(error.message, "disk full");
    assert_eq!(error.into_message(), "disk full");
}
