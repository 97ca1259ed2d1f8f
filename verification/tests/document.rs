use std::io::Write;
use std::path::Path;

use vault_store::document::{check_access, decode_text, staging_path};
use vault_store::error::{ErrorKind, VaultError};

fn vault_dir() -> tempfile::TempDir {
    tempfile::Builder::new().prefix("vault").tempdir().unwrap()
}

fn file_in(parent: &Path, name: &str) -> tempfile::NamedTempFile {
    tempfile::Builder::new().prefix(name).rand_bytes(0).tempfile_in(parent).unwrap()
}

/// Checks a path as the host does, against what is on disk.
fn check_document(path: &str) -> Result<(), VaultError> {
    let exists = Path::new(path).exists();
    let is_file = exists && Path::new(path).is_file();
    check_access(path, exists, is_file)
}

fn text(path: &Path) -> String {
    path.to_string_lossy().into_owned()
}

#[test]
fn access_is_granted_to_an_existing_markdown_file() {
    assert_eq!(check_access("/v/a.md", true, true), Ok(()));
    assert_eq!(check_access("/v/a.MDX", true, true), Ok(()));
    assert_eq!(check_access("a.markdown", true, true), Ok(()));
}

#[test]
fn access_checks_run_in_order() {
    let kind = |path: &str, exists: bool, is_file: bool| {
        check_access(path, exists, is_file).unwrap_err().kind
    };
    assert_eq!(kind("/v/a.md", false, false), ErrorKind::NotFound);
    assert_eq!(kind("/v/a.md", false, true), ErrorKind::NotFound);
    assert_eq!(kind("/v/a.txt", false, false), ErrorKind::NotFound);
    assert_eq!(kind("/v/a.txt", false, true), ErrorKind::NotFound);
    assert_eq!(kind("/v/a.md", true, false), ErrorKind::NotAFile);
    assert_eq!(kind("/v/a.txt", true, false), ErrorKind::NotAFile);
    assert_eq!(kind("/v/a.txt", true, true), ErrorKind::UnsupportedType);
    assert_eq!(kind("/v/a", true, true), ErrorKind::UnsupportedType);
}

#[test]
fn access_failures_carry_their_messages() {
    assert_eq!(
        check_access("a.md", false, false),
        Err(VaultError { kind: ErrorKind::NotFound, message: "File not found.".to_string() })
    );
    assert_eq!(
        check_access("a.md", true, false),
        Err(VaultError { kind: ErrorKind::NotAFile, message: "Path is not a file.".to_string() })
    );
    assert_eq!(
        check_access("a.txt", true, true),
        Err(VaultError {
            kind: ErrorKind::UnsupportedType,
            message: "Only markdown files are supported.".to_string(),
        })
    );
}

#[test]
fn a_text_file_is_an_unsupported_type() {
    let root = vault_dir();
    let file = file_in(root.path(), "notes.txt");
    let error = check_document(&text(file.path())).unwrap_err();
    assert_eq!(error.kind, ErrorKind::UnsupportedType);
    assert_eq!(error.message, "Only markdown files are supported.");
}

#[test]
fn a_missing_document_is_not_found() {
    let root = vault_dir();
    let error = check_document(&text(&root.path().join("missing.md"))).unwrap_err();
    assert_eq!(error.kind, ErrorKind::NotFound);
    assert_eq!(error.message, "File not found.");
    let error = check_document(&text(&root.path().join("missing.txt"))).unwrap_err();
    assert_eq!(error.kind, ErrorKind::NotFound);
}

#[test]
fn a_directory_is_not_a_file() {
    let root = vault_dir();
    let error = check_document(&text(root.path())).unwrap_err();
    assert_eq!(error.kind, ErrorKind::NotAFile);
    assert_eq!(error.message, "Path is not a file.");
    let folder =
        tempfile::Builder::new().prefix("folder.md").rand_bytes(0).tempdir_in(root.path()).unwrap();
    let error = check_document(&text(folder.path())).unwrap_err();
    assert_eq!(error.kind, ErrorKind::NotAFile);
}

#[test]
fn an_existing_markdown_document_is_granted() {
    let root = vault_dir();
    let file = file_in(root.path(), "a.md");
    assert_eq!(check_document(&text(file.path())), Ok(()));
    let upper = file_in(root.path(), "B.MARKDOWN");
    assert_eq!(check_document(&text(upper.path())), Ok(()));
}

#[test]
fn a_document_reads_back_as_it_was_written() {
    let root = vault_dir();
    let mut file = file_in(root.path(), "a.md");
    let contents = "# Title\n\nSome text, émigré, 日本語.\n";
    file.write_all(contents.as_bytes()).unwrap();
    file.flush().unwrap();
    let path = text(file.path());
    assert_eq!(check_document(&path), Ok(()));
    let mut bytes = Vec::new();
    std::io::Read::read_to_end(&mut file.reopen().unwrap(), &mut bytes).unwrap();
    assert_eq!(decode_text(bytes), Ok(contents.to_string()));
}

#[test]
fn valid_bytes_decode_to_their_text() {
    assert_eq!(decode_text(Vec::new()), Ok(String::new()));
    assert_eq!(decode_text(b"hello".to_vec()), Ok("hello".to_string()));
    let text = "é日\u{10FFFF}";
    assert_eq!(decode_text(text.as_bytes().to_vec()), Ok(text.to_string()));
    assert_eq!(decode_text(vec![0xC3, 0xA9]), Ok("é".to_string()));
}

#[test]
fn invalid_bytes_are_a_decode_error() {
    for bytes in [
        vec![0xFF],
        vec![0x80],
        vec![0xC3],
        vec![b'a', 0xC3, b'b'],
        vec![0xC0, 0x80],
        vec![0xED, 0xA0, 0x80],
        vec![0xF4, 0x90, 0x80, 0x80],
        vec![0xE2, 0x82],
    ] {
        let error = decode_text(bytes).unwrap_err();
        assert_eq!(error.kind, ErrorKind::DecodeError);
        assert_eq!(error.message, "File contents are not valid text.");
    }
}

#[test]
fn the_staging_path_lies_beside_the_document() {
    assert_eq!(staging_path("/v/notes/a.md"), "/v/notes/a.md.tmp");
    assert_eq!(staging_path("a.md"), "a.md.tmp");
    assert_eq!(staging_path(""), ".tmp");
}
