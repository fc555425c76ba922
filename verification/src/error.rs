//! Errors of the library.

use vstd::prelude::*;
use crate::text::{chars_of, decimal, decimal_chars, push_all, string_from_chars};

verus! {

/// What can go wrong while scanning, planning, renaming or undoing.
#[derive(Debug, Clone)]
pub enum NomforgeError {
    /// An input/output operation failed; the text says why.
    Io(String),
    /// A regular expression did not compile.
    InvalidRegex { pattern: String, reason: String },
    /// A replacement extension is unsafe (a path separator, a parent
    /// directory reference or a null byte).
    InvalidExtension { ext: String, reason: String },
    /// A path has no file name.
    FileNotFound(String),
    /// A target path is taken.
    TargetAlreadyExists(String),
    /// A rule setting is inconsistent.
    Conflict(String),
    /// No files were given or matched the filters.
    NoFilesFound,
    /// The generated filename exceeds 255 bytes, the conservative limit that
    /// Linux (255 bytes), macOS (255 characters) and Windows (255 UTF-16
    /// units) all accept.
    FilenameTooLong { filename: String, length: usize },
    /// The undo log could not be read, written or used.
    UndoLog(String),
    /// The undo log could not be encoded or decoded.
    Json(String),
}

/// Shorthand for results of this library.
pub type Result<T> = core::result::Result<T, NomforgeError>;

/// The human-readable message of an error.
pub open spec fn message_of(e: NomforgeError) -> Seq<char> {
    match e {
        NomforgeError::Io(s) => "IO error: "@ + s@,
        NomforgeError::InvalidRegex { pattern, reason } =>
            "Invalid regex pattern '"@ + pattern@ + "': "@ + reason@,
        NomforgeError::InvalidExtension { ext, reason } =>
            "Invalid extension '"@ + ext@ + "': "@ + reason@,
        NomforgeError::FileNotFound(p) => "File not found: "@ + p@,
        NomforgeError::TargetAlreadyExists(p) => "Target path already exists: "@ + p@,
        NomforgeError::Conflict(s) => "Conflict: "@ + s@,
        NomforgeError::NoFilesFound => "No files matched the given filters"@,
        NomforgeError::FilenameTooLong { filename, length } =>
            "Filename too long ("@ + decimal(length as nat) + " bytes, max 255): "@ + filename@,
        NomforgeError::UndoLog(s) => "Undo log error: "@ + s@,
        NomforgeError::Json(s) => "JSON serialization error: "@ + s@,
    }
}

/// `head` followed by `tail`.
fn joined_text(head: &str, tail: &str) -> (r: String)
    ensures
        r@ == head@ + tail@,
{
    let mut v = chars_of(head);
    let w = chars_of(tail);
    push_all(&mut v, w.as_slice());
    string_from_chars(v.as_slice())
}

/// `a`, `b`, `c` and `d` in sequence.
fn joined4(a: &str, b: &str, c: &str, d: &str) -> (r: String)
    ensures
        r@ == a@ + b@ + c@ + d@,
{
    let mut v = chars_of(a);
    push_all(&mut v, chars_of(b).as_slice());
    push_all(&mut v, chars_of(c).as_slice());
    push_all(&mut v, chars_of(d).as_slice());
    string_from_chars(v.as_slice())
}

impl NomforgeError {
    /// The human-readable message of this error.
    pub fn message(&self) -> (r: String)
        ensures
            r@ == message_of(*self),
    {
        match self {
            NomforgeError::Io(s) => joined_text("IO error: ", s.as_str()),
            NomforgeError::InvalidRegex { pattern, reason } =>
                joined4("Invalid regex pattern '", pattern.as_str(), "': ", reason.as_str()),
            NomforgeError::InvalidExtension { ext, reason } =>
                joined4("Invalid extension '", ext.as_str(), "': ", reason.as_str()),
            NomforgeError::FileNotFound(p) => joined_text("File not found: ", p.as_str()),
            NomforgeError::TargetAlreadyExists(p) =>
                joined_text("Target path already exists: ", p.as_str()),
            NomforgeError::Conflict(s) => joined_text("Conflict: ", s.as_str()),
            NomforgeError::NoFilesFound =>
                string_from_chars(chars_of("No files matched the given filters").as_slice()),
            NomforgeError::FilenameTooLong { filename, length } => {
                let mut v = chars_of("Filename too long (");
                push_all(&mut v, decimal_chars(*length).as_slice());
                push_all(&mut v, chars_of(" bytes, max 255): ").as_slice());
                push_all(&mut v, chars_of(filename.as_str()).as_slice());
                string_from_chars(v.as_slice())
            },
            NomforgeError::UndoLog(s) => joined_text("Undo log error: ", s.as_str()),
            NomforgeError::Json(s) => joined_text("JSON serialization error: ", s.as_str()),
        }
    }
}

} // verus!
