use vstd::prelude::*;

verus! {

/// The failures that the operations of this library report.
#[derive(Clone, Debug, PartialEq, Eq)]
pub enum LocaleError {
    /// A referenced path or file does not exist; carries the path.
    NotFound(String),
    /// A path has no usable parent directory; carries the path.
    InvalidPath(String),
    /// A directory could not be listed; carries the directory and the host's message.
    DirectoryUnreadable { dir: String, message: String },
    /// An external translation failed; carries the target and the captured output.
    TranslationFailed { target: String, diagnostic: String },
}

} // verus!
