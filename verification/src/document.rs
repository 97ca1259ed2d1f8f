//! Document accessor: which paths may be read or written as documents, and
//! how a document's bytes become text. The caller asks the file system and
//! reads and writes; what it found decides here.

use vstd::prelude::*;
use vstd::string::StringExecFns;
use vstd::utf8::{decode_utf8, valid_utf8};
use crate::classify::{is_markdown, markdown_path};
use crate::error::{standard_message, ErrorKind, VaultError};

verus! {

/// Why access to a document is refused, if it is. The path has to exist, to
/// name a file, and to have a markdown extension; the first of these that
/// fails decides.
pub open spec fn access_failure(path: Seq<char>, exists: bool, is_file: bool) -> Option<
    ErrorKind,
> {
    if !exists {
        Some(ErrorKind::NotFound)
    } else if !is_file {
        Some(ErrorKind::NotAFile)
    } else if !markdown_path(path) {
        Some(ErrorKind::UnsupportedType)
    } else {
        None
    }
}

/// Grants or refuses access to a document from what is known of its path.
pub fn check_access(path: &str, exists: bool, is_file: bool) -> (checked: Result<(), VaultError>)
    ensures
        match checked {
            Ok(_) => access_failure(path@, exists, is_file) is None,
            Err(error) => access_failure(path@, exists, is_file) == Some(error.kind)
                && error.message@ == standard_message(error.kind),
        },
{
    if !exists {
        Err(VaultError::of_kind(ErrorKind::NotFound))
    } else if !is_file {
        Err(VaultError::of_kind(ErrorKind::NotAFile))
    } else if !is_markdown(path) {
        Err(VaultError::of_kind(ErrorKind::UnsupportedType))
    } else {
        Ok(())
    }
}

/// `String::from_utf8`: the text that the bytes encode, where they are valid
/// UTF-8, and nothing where they are not.
#[verifier::external_body]
fn text_of_bytes(bytes: Vec<u8>) -> (text: Option<String>)
    ensures
        text is Some <==> valid_utf8(bytes@),
        text matches Some(decoded) ==> decoded@ == decode_utf8(bytes@),
{
    String::from_utf8(bytes).ok()
}

/// The text of a document from its bytes. Fails with a decode error where
/// the bytes are not valid UTF-8, and only then.
pub fn decode_text(bytes: Vec<u8>) -> (decoded: Result<String, VaultError>)
    ensures
        match decoded {
            Ok(text) => valid_utf8(bytes@) && text@ == decode_utf8(bytes@),
            Err(error) => !valid_utf8(bytes@) && error.kind == ErrorKind::DecodeError
                && error.message@ == standard_message(error.kind),
        },
{
    match text_of_bytes(bytes) {
        Some(text) => Ok(text),
        None => Err(VaultError::of_kind(ErrorKind::DecodeError)),
    }
}

/// Where the new contents of a document are written before they take the
/// document's place: beside the document, under its name with `.tmp` behind.
pub fn staging_path(path: &str) -> (staging: String)
    ensures
        staging@ == path@ + ".tmp"@,
{
    String::from_str(path).concat(".tmp")
}

} // verus!
