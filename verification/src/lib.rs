//! Typed, validated access to a `pass`-style password store.
//!
//! The store is a directory tree in which every regular file that ends in
//! `.gpg` holds one encrypted secret. This library holds the rules of the
//! store: which files are entries, how an entry is named, which key manifest
//! governs a file, and when a decrypted buffer has to be written back. It
//! never touches the disk or the OpenPGP engine itself: its caller describes
//! what stands on disk in the types of [`snapshot`] and carries out what the
//! library decides.

use vstd::prelude::*;

pub mod errors;
pub mod file_io;
pub mod keys;
pub mod layout;
pub mod listing;
pub mod paths;
pub mod retrieval;
pub mod snapshot;
pub mod store_entry;
pub mod utils;

pub use crate::errors::PassError;
pub use crate::store_entry::{StoreDirectoryRef, StoreEntry, StoreFileRef};

use crate::errors::{PassErrorView, NOT_A_DIRECTORY, NOT_FILE_OR_DIRECTORY};
use crate::layout::{names_secret_file, secret_suffix_bytes};
use crate::listing::{
    entries_of, entry_of, first_malformed, lemma_first_malformed_stays, listing, listing_view,
    malformed_at, store_listing,
};
use crate::paths::join;
use crate::retrieval::{
    dir_candidate, entry_result_view, file_candidate, lemma_retrieved_by_name, retrieved,
};
use crate::snapshot::{children_view, found_view, lemma_directory_view, DirChild, FsNode};
use crate::store_entry::{entries_view, lemma_directory_entry_view};
use crate::utils::{
    bytes_result_view, canonicalize_path, configured_store_dir, expanded_from,
    expanded_result_view, optional_text_view, optional_view, store_dir_setting, Expanded,
};
use vstd::slice::slice_to_vec;

verus! {

/// Environment variable that names the password store directory. Its value,
/// if it is set, is what [`password_store_dir`] is given.
pub const PASSWORD_STORE_DIR_ENV: &'static str = "PASSWORD_STORE_DIR";

/// The password store directory, as it is configured.
///
/// This is usually `~/.password-store` but can be overwritten by
/// `configured`, the value of the environment variable
/// [`PASSWORD_STORE_DIR_ENV`]. A `~` at the front of the path is replaced by
/// the home directory of the current user, which has to be known.
///
/// The path that comes back is yet to be canonicalized by the file system,
/// whatever was configured. [`store_root`] takes what the file system made
/// of it and gives the root of the store.
pub fn password_store_dir(configured: Option<&str>) -> (dir: Result<Expanded, PassError>)
    ensures
        exists|home: Option<Seq<u8>>|
            expanded_result_view(dir) == #[trigger] expanded_from(
                store_dir_setting(optional_text_view(configured)),
                home,
            ),
{
    let path = configured_store_dir(configured);
    canonicalize_path(path.as_slice())
}

/// The root of the store that is configured as `dir`, where `canonical` is
/// what the file system gave as the canonical form of `dir`, or nothing
/// where no such path exists. The root is that path as it was given.
pub open spec fn root_as_resolved(dir: Seq<u8>, canonical: Option<Seq<u8>>) -> Result<
    Seq<u8>,
    PassErrorView,
> {
    match canonical {
        Some(root) => Ok(root),
        None => Err(PassErrorView::PasswordStoreNotFound(dir)),
    }
}

/// The root of the password store: the canonical form of the directory
/// that [`password_store_dir`] gave.
///
/// `canonical` is what the file system made of `dir.path` when it was asked
/// to canonicalize it: an absolute path without symbolic links, `.` or
/// `..`, or `None` where no such path exists. Without it there is no store.
pub fn store_root(dir: Expanded, canonical: Option<Vec<u8>>) -> (root: Result<Vec<u8>, PassError>)
    ensures
        bytes_result_view(root) == root_as_resolved(dir@, optional_view(canonical)),
{
    match canonical {
        Some(root) => Ok(root),
        None => Err(PassError::PasswordStoreNotFound(dir.path)),
    }
}

/// Map the directory at `path`, which holds `children`, and everything below
/// it to store entries.
pub fn list_and_map_folder(path: &[u8], children: &Vec<DirChild>) -> (entries: Result<
    Vec<StoreEntry>,
    PassError,
>)
    ensures
        listing_view(entries) == listing(path@, children_view(children@)),
    decreases children,
{
    let ghost all = children_view(children@);
    let mut entries: Vec<StoreEntry> = Vec::new();
    let mut i: usize = 0;
    while i < children.len()
        invariant
            i <= children.len(),
            all == children_view(children@),
            first_malformed(path@, all.take(i as int)) is None,
            entries_view(entries@) == entries_of(path@, all.take(i as int)),
        decreases children.len() - i,
    {
        let child = &children[i];
        let child_path = join(path, child.name.as_slice());
        proof {
            assert(all.take(i + 1).drop_last() =~= all.take(i as int));
            assert(all.take(i + 1).last() == child@);
        }
        let ghost before = entries@;
        match &child.node {
            FsNode::File => {
                if names_secret_file(child.name.as_slice()) {
                    entries.push(StoreEntry::File(StoreFileRef { path: child_path }));
                    assert(entries_view(entries@) =~= entries_view(before).push(
                        entry_of(path@, child@),
                    ));
                }
            },
            FsNode::Directory(below) => {
                proof {
                    lemma_directory_view(*below);
                }
                match list_and_map_folder(child_path.as_slice(), below) {
                    Ok(content) => {
                        let entry = StoreEntry::Directory(
                            StoreDirectoryRef { path: child_path, content },
                        );
                        proof {
                            lemma_directory_entry_view(entry);
                        }
                        entries.push(entry);
                        assert(entries_view(entries@) =~= entries_view(before).push(
                            entry_of(path@, child@),
                        ));
                    },
                    Err(e) => {
                        proof {
                            lemma_first_malformed_stays(path@, all, i + 1);
                        }
                        return Err(e);
                    },
                }
            },
            FsNode::Other => {
                proof {
                    assert(child@.node is Other);
                    assert(malformed_at(path@, child@) == Some(child_path@));
                    assert(first_malformed(path@, all.take(i + 1)) == malformed_at(path@, child@));
                    lemma_first_malformed_stays(path@, all, i + 1);
                }
                return Err(
                    PassError::InvalidStoreFormat(child_path, NOT_FILE_OR_DIRECTORY.to_owned()),
                );
            },
        }
        i += 1;
    }
    assert(all.take(i as int) =~= all);
    Ok(entries)
}

/// List all entries in the password store at `root`, where `found` is what
/// stands at `root`.
pub fn list(root: &[u8], found: &Option<FsNode>) -> (entries: Result<Vec<StoreEntry>, PassError>)
    ensures
        listing_view(entries) == store_listing(root@, found_view(*found)),
{
    match found {
        None => Err(PassError::PasswordStoreNotFound(slice_to_vec(root))),
        Some(FsNode::Directory(children)) => {
            proof {
                lemma_directory_view(*children);
            }
            list_and_map_folder(root, children)
        },
        Some(_) => Err(
            PassError::InvalidStoreFormat(slice_to_vec(root), NOT_A_DIRECTORY.to_owned()),
        ),
    }
}

/// The path at which to look for the directory that `pass_name` may name.
pub fn candidate_dir_path(root: &[u8], pass_name: &str) -> (path: Vec<u8>)
    ensures
        path@ == dir_candidate(root@, pass_name@),
{
    join(root, pass_name.as_bytes())
}

/// The path at which to look for the secret file that `pass_name` may name.
pub fn candidate_file_path(root: &[u8], pass_name: &str) -> (path: Vec<u8>)
    ensures
        path@ == file_candidate(root@, pass_name@),
{
    let mut file_name: Vec<u8> = slice_to_vec(pass_name.as_bytes());
    let mut suffix = secret_suffix_bytes();
    file_name.append(&mut suffix);
    join(root, file_name.as_slice())
}

/// Whether [`retrieve`] looks at what the directory of a name holds, where
/// `at_file` is what stands at the file path of the name.
///
/// It does so only where nothing stands at the file path. Where something
/// stands there, what stands at the directory path may be described without
/// its children, and the answer is the same.
pub fn listing_needed(at_file: &Option<FsNode>) -> (needed: bool)
    ensures
        needed == (*at_file is None),
{
    at_file.is_none()
}

/// Retrieve the stored entry identified by `pass_name`.
///
/// `pass_name` is a path to a password file or directory relative to the
/// store root. `at_dir` is what stands at [`candidate_dir_path`] and
/// `at_file` what stands at [`candidate_file_path`]. An entry that is
/// retrieved bears the name it was retrieved by.
pub fn retrieve(
    root: &[u8],
    pass_name: &str,
    at_dir: &Option<FsNode>,
    at_file: &Option<FsNode>,
) -> (entry: Result<StoreEntry, PassError>)
    ensures
        entry_result_view(entry) == retrieved(
            root@,
            pass_name@,
            found_view(*at_dir),
            found_view(*at_file),
        ),
        entry matches Ok(found) ==> found@.name(root@) == Ok::<Seq<char>, PassErrorView>(
            pass_name@,
        ),
{
    proof {
        lemma_retrieved_by_name(root@, pass_name@, found_view(*at_dir), found_view(*at_file));
    }
    match (at_dir, at_file) {
        (Some(_), Some(_)) => Err(PassError::AmbiguousPassName(pass_name.to_owned())),
        (None, None) => Err(PassError::EntryNotFound(pass_name.to_owned())),
        (Some(FsNode::Directory(children)), None) => {
            let path = candidate_dir_path(root, pass_name);
            proof {
                lemma_directory_view(*children);
            }
            match list_and_map_folder(path.as_slice(), children) {
                Ok(content) => {
                    let entry = StoreEntry::Directory(StoreDirectoryRef { path, content });
                    proof {
                        lemma_directory_entry_view(entry);
                    }
                    Ok(entry)
                },
                Err(e) => Err(e),
            }
        },
        (Some(_), None) => Err(
            PassError::InvalidStoreFormat(
                candidate_dir_path(root, pass_name),
                NOT_A_DIRECTORY.to_owned(),
            ),
        ),
        (None, Some(_)) => {
            let file = StoreFileRef { path: candidate_file_path(root, pass_name) };
            match file.verify(at_file) {
                Ok(()) => Ok(StoreEntry::File(file)),
                Err(e) => Err(e),
            }
        },
    }
}

} // verus!
