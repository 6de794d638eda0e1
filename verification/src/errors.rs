//! The errors that the operations on a password store report.

use vstd::prelude::*;

verus! {

/// Errors that may be returned by library functions.
///
/// Paths are held as the bytes the operating system uses for them; names and
/// descriptions are text.
#[derive(Debug, PartialEq, Eq)]
pub enum PassError {
    /// No password store exists at the given location.
    PasswordStoreNotFound(Vec<u8>),
    /// The on-disk password store is incorrectly formatted at the given path;
    /// the text says in which way.
    InvalidStoreFormat(Vec<u8>, String),
    /// The requested entry could not be clearly identified because the name
    /// references a directory as well as a file inside the store.
    AmbiguousPassName(String),
    /// The requested entry was not found in the password store.
    EntryNotFound(String),
    /// An on-disk path could not be decoded as UTF-8 text.
    PathDecodingError(Vec<u8>),
    /// An operation on the file system failed; `source` describes the
    /// underlying failure.
    IOError {
        /// Description of the underlying failure.
        source: String,
    },
    /// The OpenPGP engine failed; `source` describes the underlying failure.
    GpgError {
        /// Description of the underlying failure.
        source: String,
    },
}

/// The reason given for a path that lies outside the store.
pub const OUTSIDE_STORE: &'static str = "Path is not inside password store";

/// The reason given for a file whose path lacks the secret suffix.
pub const MISSING_SUFFIX: &'static str = "File does not end with .gpg extension";

/// The reason given for a directory reference at whose path no directory
/// stands.
pub const NOT_A_DIRECTORY: &'static str = "Path either does not exist or is not a directory";

/// The reason given for a file reference at whose path no secret file stands.
pub const NOT_A_SECRET: &'static str =
    "Path either does not exist, is not a regular file or does not have a .gpg extension";

/// The reason given for a child that is neither a regular file nor a
/// directory.
pub const NOT_FILE_OR_DIRECTORY: &'static str =
    "File is neither a regular file nor a directory but pass stores can only contain those types of files";

/// The reason given for a file that no directory holds.
pub const NO_PARENT: &'static str =
    "File does not have a parent which means it is not contained in a password store";

/// The reason given where no directory above a file holds a key manifest.
pub const NO_MANIFEST: &'static str =
    "Path does not have a parent but a .gpg-id file has not yet been found";

/// The reason given for a key manifest that is not a regular file.
pub const MANIFEST_NOT_A_FILE: &'static str =
    "Path is a directory but should be a file containing encryption key ids";

/// The description of the failure to read a key manifest that is not text.
pub const NOT_TEXT: &'static str = "stream did not contain valid UTF-8";

/// The description of the failure to find the home directory of the user.
pub const NO_HOME: &'static str = "could not retrieve users home directory";

/// The mathematical value of a [`PassError`].
pub enum PassErrorView {
    /// No store at this path.
    PasswordStoreNotFound(Seq<u8>),
    /// The store is malformed at this path, for this reason.
    InvalidStoreFormat(Seq<u8>, Seq<char>),
    /// This name references a directory as well as a file.
    AmbiguousPassName(Seq<char>),
    /// This name references nothing.
    EntryNotFound(Seq<char>),
    /// This path is not text.
    PathDecodingError(Seq<u8>),
    /// The file system failed in the way described.
    IOError(Seq<char>),
    /// The OpenPGP engine failed in the way described.
    GpgError(Seq<char>),
}

impl View for PassError {
    type V = PassErrorView;

    open spec fn view(&self) -> PassErrorView {
        match self {
            PassError::PasswordStoreNotFound(path) => PassErrorView::PasswordStoreNotFound(path@),
            PassError::InvalidStoreFormat(path, reason) => PassErrorView::InvalidStoreFormat(
                path@,
                reason@,
            ),
            PassError::AmbiguousPassName(name) => PassErrorView::AmbiguousPassName(name@),
            PassError::EntryNotFound(name) => PassErrorView::EntryNotFound(name@),
            PassError::PathDecodingError(path) => PassErrorView::PathDecodingError(path@),
            PassError::IOError { source } => PassErrorView::IOError(source@),
            PassError::GpgError { source } => PassErrorView::GpgError(source@),
        }
    }
}

impl Clone for PassError {
    fn clone(&self) -> (copy: Self)
        ensures
            copy@ == self@,
    {
        match self {
            PassError::PasswordStoreNotFound(path) => PassError::PasswordStoreNotFound(
                path.clone(),
            ),
            PassError::InvalidStoreFormat(path, reason) => PassError::InvalidStoreFormat(
                path.clone(),
                reason.clone(),
            ),
            PassError::AmbiguousPassName(name) => PassError::AmbiguousPassName(name.clone()),
            PassError::EntryNotFound(name) => PassError::EntryNotFound(name.clone()),
            PassError::PathDecodingError(path) => PassError::PathDecodingError(path.clone()),
            PassError::IOError { source } => PassError::IOError { source: source.clone() },
            PassError::GpgError { source } => PassError::GpgError { source: source.clone() },
        }
    }
}

} // verus!
