//! General utilities: the store root, and paths as seen from it.

use crate::errors::{PassError, PassErrorView, NO_HOME, OUTSIDE_STORE};
use crate::paths::{
    dir_prefix, join, joined, lemma_relative_to_joined, relative_to, same_bytes, starts_with, tail,
};
use vstd::prelude::*;
use vstd::slice::slice_to_vec;
use vstd::utf8::{decode_utf8, encode_utf8, valid_utf8};

verus! {

/// The byte `~`, which stands for the user's home directory at the front of a
/// path.
pub const HOME_MARK: u8 = 0x7e;

/// What [`abspath2relpath`] returns for `path` in the store at `root`.
pub open spec fn relative_path(path: Seq<u8>, root: Seq<u8>) -> Result<Seq<u8>, PassErrorView> {
    match relative_to(path, root) {
        Some(rel) => Ok(rel),
        None => Err(PassErrorView::InvalidStoreFormat(path, OUTSIDE_STORE@)),
    }
}

/// What [`path2str`] returns for `path`.
pub open spec fn path_text(path: Seq<u8>) -> Result<Seq<char>, PassErrorView> {
    if valid_utf8(path) {
        Ok(decode_utf8(path))
    } else {
        Err(PassErrorView::PathDecodingError(path))
    }
}

/// The view of a fallible result whose two sides both have a view.
pub open spec fn bytes_result_view(r: Result<Vec<u8>, PassError>) -> Result<
    Seq<u8>,
    PassErrorView,
> {
    match r {
        Ok(bytes) => Ok(bytes@),
        Err(e) => Err(e@),
    }
}

/// The view of a fallible text.
pub open spec fn text_result_view(r: Result<String, PassError>) -> Result<
    Seq<char>,
    PassErrorView,
> {
    match r {
        Ok(text) => Ok(text@),
        Err(e) => Err(e@),
    }
}

/// Transform an absolute path to a path that is relative to the password
/// store root.
pub fn abspath2relpath(path: &[u8], root: &[u8]) -> (rel: Result<Vec<u8>, PassError>)
    ensures
        bytes_result_view(rel) == relative_path(path@, root@),
{
    let nothing: Vec<u8> = Vec::new();
    if same_bytes(path, root) {
        return Ok(nothing);
    }
    let prefix = join(root, nothing.as_slice());
    assert(prefix@ =~= dir_prefix(root@));
    if starts_with(path, prefix.as_slice()) {
        Ok(tail(path, prefix.len()))
    } else {
        Err(PassError::InvalidStoreFormat(slice_to_vec(path), OUTSIDE_STORE.to_owned()))
    }
}

/// The text that `bytes` encode in UTF-8, if they encode one.
///
/// Trusted: this is `std::str::from_utf8`, which accepts exactly the valid
/// UTF-8 byte sequences and yields the characters they encode.
#[verifier::external_body]
pub(crate) fn text_from_utf8(bytes: &[u8]) -> (text: Option<String>)
    ensures
        text is Some <==> valid_utf8(bytes@),
        text matches Some(t) ==> t@ == decode_utf8(bytes@),
{
    match std::str::from_utf8(bytes) {
        Ok(text) => Some(text.to_owned()),
        Err(_) => None,
    }
}

/// Decode a path to text.
pub fn path2str(path: &[u8]) -> (text: Result<String, PassError>)
    ensures
        text_result_view(text) == path_text(path@),
{
    match text_from_utf8(path) {
        Some(text) => Ok(text),
        None => Err(PassError::PathDecodingError(slice_to_vec(path))),
    }
}

/// A path in which a `~` at the front has been replaced by the home
/// directory.
///
/// This is not yet the path to work with. It may be relative, lead through
/// symbolic links or hold `.` and `..`, whether it held a `~` or not: the
/// file system has yet to canonicalize it.
#[derive(Debug, PartialEq, Eq)]
pub struct Expanded {
    /// The path to hand to the file system for canonicalization.
    pub path: Vec<u8>,
}

impl View for Expanded {
    type V = Seq<u8>;

    open spec fn view(&self) -> Seq<u8> {
        self.path@
    }
}

impl Clone for Expanded {
    fn clone(&self) -> (copy: Self)
        ensures
            copy@ == self@,
    {
        Expanded { path: self.path.clone() }
    }
}

/// The path `~`.
pub open spec fn home_mark() -> Seq<u8> {
    seq![HOME_MARK]
}

/// `path` with a `~` at its front replaced by `home`. The `~` counts only
/// as a whole component: the path is `~` itself or begins with `~/`. Any
/// other path stays as it is.
pub open spec fn expanded(path: Seq<u8>, home: Seq<u8>) -> Seq<u8> {
    match relative_to(path, home_mark()) {
        Some(rest) => joined(home, rest),
        None => path,
    }
}

/// `path` with a `~` at its front replaced by the home directory, which has
/// to be known whether the path holds a `~` or not.
pub open spec fn expanded_from(path: Seq<u8>, home: Option<Seq<u8>>) -> Result<
    Seq<u8>,
    PassErrorView,
> {
    match home {
        Some(home) => Ok(expanded(path, home)),
        None => Err(PassErrorView::IOError(NO_HOME@)),
    }
}

/// The view of the outcome of an expansion.
pub open spec fn expanded_result_view(r: Result<Expanded, PassError>) -> Result<
    Seq<u8>,
    PassErrorView,
> {
    match r {
        Ok(path) => Ok(path@),
        Err(e) => Err(e@),
    }
}

/// The view of a path that may be missing.
pub open spec fn optional_view(path: Option<Vec<u8>>) -> Option<Seq<u8>> {
    match path {
        Some(path) => Some(path@),
        None => None,
    }
}

/// Replace a `~` at the front of `path` by `home`.
pub fn expand_home(path: &[u8], home: &[u8]) -> (result: Expanded)
    ensures
        result@ == expanded(path@, home@),
{
    let mut mark: Vec<u8> = Vec::new();
    mark.push(HOME_MARK);
    assert(mark@ =~= home_mark());
    match abspath2relpath(path, mark.as_slice()) {
        Ok(rest) => Expanded { path: join(home, rest.as_slice()) },
        Err(_) => Expanded { path: slice_to_vec(path) },
    }
}

/// The home directory of the current user, if the system knows one.
///
/// Trusted: this is `directories::BaseDirs::new` and `BaseDirs::home_dir`.
/// They look at the environment and at the user database and at no file of
/// the user. What they return depends on the user and the environment, so
/// nothing is claimed of it.
#[verifier::external_body]
fn home_directory() -> (home: Option<Vec<u8>>) {
    match directories::BaseDirs::new() {
        Some(dirs) => Some(dirs.home_dir().as_os_str().as_encoded_bytes().to_vec()),
        None => None,
    }
}

/// Expand `~` in a path, where the user's home directory is `home`, or
/// unknown.
///
/// The home directory has to be known even where the path holds no `~`.
pub fn expand_with(path: &[u8], home: Option<Vec<u8>>) -> (result: Result<Expanded, PassError>)
    ensures
        expanded_result_view(result) == expanded_from(path@, optional_view(home)),
{
    match home {
        Some(home) => Ok(expand_home(path, home.as_slice())),
        None => Err(PassError::IOError { source: NO_HOME.to_owned() }),
    }
}

/// Expand `~` in a path to the home directory of the current user, as the
/// first step of canonicalizing the path.
///
/// The second step is the file system's: whatever path comes back from
/// here, with or without a `~` in it before, is yet to be canonicalized.
pub fn canonicalize_path(path: &[u8]) -> (result: Result<Expanded, PassError>)
    ensures
        exists|home: Option<Seq<u8>>|
            expanded_result_view(result) == #[trigger] expanded_from(path@, home),
{
    let home = home_directory();
    let result = expand_with(path, home);
    assert(expanded_result_view(result) == expanded_from(path@, optional_view(home)));
    result
}

/// The directory `.password-store`, in which the store lies by default
/// below the home directory.
pub open spec fn default_store_name() -> Seq<u8> {
    encode_utf8(".password-store"@)
}

/// The path of the password store: the one that is `configured`, or
/// `~/.password-store`.
pub open spec fn store_dir_setting(configured: Option<Seq<char>>) -> Seq<u8> {
    match configured {
        Some(path) => encode_utf8(path),
        None => joined(home_mark(), default_store_name()),
    }
}

/// The view of a text that may be missing.
pub open spec fn optional_text_view(text: Option<&str>) -> Option<Seq<char>> {
    match text {
        Some(text) => Some(text@),
        None => None,
    }
}

/// The path of the password store: the one that is `configured`, or
/// `~/.password-store`.
pub fn configured_store_dir(configured: Option<&str>) -> (path: Vec<u8>)
    ensures
        path@ == store_dir_setting(optional_text_view(configured)),
{
    match configured {
        Some(path) => slice_to_vec(path.as_bytes()),
        None => {
            let mut mark: Vec<u8> = Vec::new();
            mark.push(HOME_MARK);
            assert(mark@ =~= home_mark());
            join(mark.as_slice(), ".password-store".as_bytes())
        },
    }
}

/// Where nothing is configured, the store lies in `.password-store` below
/// the home directory.
pub proof fn lemma_default_store_dir(home: Seq<u8>)
    ensures
        expanded(store_dir_setting(None), home) == joined(home, default_store_name()),
{
    lemma_relative_to_joined(home_mark(), default_store_name());
}

} // verus!
