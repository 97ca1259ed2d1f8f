//! Failures: a kind, tagged with a message for the person at the screen.

use vstd::prelude::*;
use vstd::string::StringExecFns;

verus! {

/// What went wrong.
#[derive(Clone, Copy, Debug, PartialEq, Eq, Structural)]
pub enum ErrorKind {
    /// The vault root does not exist.
    VaultNotFound,
    /// The vault root exists and is not a directory.
    VaultNotADirectory,
    /// The document does not exist.
    NotFound,
    /// The document path names something that is not a file.
    NotAFile,
    /// The document's extension is not a markdown extension.
    UnsupportedType,
    /// The document's bytes are not valid text.
    DecodeError,
    /// A directory could not be created, or a file not written or deleted.
    IoError,
    /// Settings could not be encoded as JSON or decoded from it.
    SerializationError,
}

/// A failure as it is reported to the caller.
#[derive(Clone, Debug, PartialEq, Eq)]
pub struct VaultError {
    pub kind: ErrorKind,
    pub message: String,
}

/// The message that a failure of this kind carries when nothing more specific
/// is known.
pub open spec fn standard_message(kind: ErrorKind) -> Seq<char> {
    match kind {
        ErrorKind::VaultNotFound => "Vault path does not exist."@,
        ErrorKind::VaultNotADirectory => "Vault path is not a directory."@,
        ErrorKind::NotFound => "File not found."@,
        ErrorKind::NotAFile => "Path is not a file."@,
        ErrorKind::UnsupportedType => "Only markdown files are supported."@,
        ErrorKind::DecodeError => "File contents are not valid text."@,
        ErrorKind::IoError => "File system operation failed."@,
        ErrorKind::SerializationError => "State could not be encoded or decoded."@,
    }
}

impl VaultError {
    /// A failure of the given kind with its standard message.
    pub fn of_kind(kind: ErrorKind) -> (error: VaultError)
        ensures
            error.kind == kind,
            error.message@ == standard_message(kind),
    {
        let text = match kind {
            ErrorKind::VaultNotFound => "Vault path does not exist.",
            ErrorKind::VaultNotADirectory => "Vault path is not a directory.",
            ErrorKind::NotFound => "File not found.",
            ErrorKind::NotAFile => "Path is not a file.",
            ErrorKind::UnsupportedType => "Only markdown files are supported.",
            ErrorKind::DecodeError => "File contents are not valid text.",
            ErrorKind::IoError => "File system operation failed.",
            ErrorKind::SerializationError => "State could not be encoded or decoded.",
        };
        VaultError { kind, message: String::from_str(text) }
    }

    /// A failure of the given kind with the message of its cause.
    pub fn with_message(kind: ErrorKind, message: String) -> (error: VaultError)
        ensures
            error.kind == kind,
            error.message@ == message@,
    {
        VaultError { kind, message }
    }

    /// The message alone, which is what crosses to the caller.
    pub fn into_message(self) -> (message: String)
        ensures
            message@ == self.message@,
    {
        self.message
    }
}

} // verus!
