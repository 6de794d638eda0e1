//! What the entry of a logical name is.
//!
//! A logical name may name a directory, at the path of that name below the
//! store root, or a secret file, at that path with the secret suffix. It has
//! to name exactly one of the two.

use crate::errors::{PassError, PassErrorView, NOT_A_DIRECTORY};
use crate::layout::{
    is_secret_file_name, lemma_secret_suffix_is_text, lemma_suffix_added, secret_suffix,
};
use crate::listing::{
    entries_of, holds_files_and_directories_only, lemma_listing_succeeds_on_files_and_directories,
    listing,
};
use crate::paths::{
    dir_prefix, file_name_of, joined, last_component_start, lemma_last_component_covers,
    lemma_last_component_start, lemma_relative_to_joined, trimmed, SEPARATOR,
};
use crate::snapshot::NodeModel;
use crate::store_entry::{DirectoryModel, EntryModel, FileModel, StoreEntry};
use vstd::prelude::*;
use vstd::utf8::{encode_utf8, encode_utf8_decode_utf8, encode_utf8_valid_utf8, valid_utf8_concat};

verus! {

/// The path at which the directory of the logical name `name` stands in the
/// store at `root`.
pub open spec fn dir_candidate(root: Seq<u8>, name: Seq<char>) -> Seq<u8> {
    joined(root, encode_utf8(name))
}

/// The path at which the secret file of the logical name `name` stands in
/// the store at `root`.
pub open spec fn file_candidate(root: Seq<u8>, name: Seq<char>) -> Seq<u8> {
    joined(root, encode_utf8(name) + secret_suffix())
}

/// The entry of the logical name `name` in the store at `root`, where
/// `at_dir` is what stands at the name's directory path and `at_file` what
/// stands at its file path.
pub open spec fn retrieved(
    root: Seq<u8>,
    name: Seq<char>,
    at_dir: Option<NodeModel>,
    at_file: Option<NodeModel>,
) -> Result<EntryModel, PassErrorView> {
    match (at_dir, at_file) {
        (Some(_), Some(_)) => Err(PassErrorView::AmbiguousPassName(name)),
        (None, None) => Err(PassErrorView::EntryNotFound(name)),
        (Some(NodeModel::Directory(children)), None) => match listing(
            dir_candidate(root, name),
            children,
        ) {
            Ok(content) => Ok(
                EntryModel::Directory(
                    DirectoryModel { path: dir_candidate(root, name), content },
                ),
            ),
            Err(e) => Err(e),
        },
        (Some(_), None) => Err(
            PassErrorView::InvalidStoreFormat(dir_candidate(root, name), NOT_A_DIRECTORY@),
        ),
        (None, Some(_)) => {
            let file = FileModel { path: file_candidate(root, name) };
            match file.verified(at_file) {
                Ok(()) => Ok(EntryModel::File(file)),
                Err(e) => Err(e),
            }
        },
    }
}

/// Retrieval by name. A name at which only a secret file stands gives the
/// file's entry, and a name at which only a directory stands gives the
/// directory's entry with its listing; either bears the name it was
/// retrieved by. A name at which both stand is ambiguous, and a name at
/// which neither stands is not found.
pub proof fn lemma_retrieved_by_name(
    root: Seq<u8>,
    name: Seq<char>,
    at_dir: Option<NodeModel>,
    at_file: Option<NodeModel>,
)
    ensures
        retrieved(root, name, at_dir, at_file) matches Ok(entry) ==> entry.name(root) == Ok::<
            Seq<char>,
            PassErrorView,
        >(name),
        at_dir is None && at_file == Some(NodeModel::File) && is_secret_file_name(
            file_name_of(file_candidate(root, name)),
        ) ==> retrieved(root, name, at_dir, at_file) == Ok::<EntryModel, PassErrorView>(
            EntryModel::File(FileModel { path: file_candidate(root, name) }),
        ),
        at_dir matches Some(NodeModel::Directory(children)) ==> (at_file is None
            && holds_files_and_directories_only(children) ==> retrieved(
            root,
            name,
            at_dir,
            at_file,
        ) == Ok::<EntryModel, PassErrorView>(
            EntryModel::Directory(
                DirectoryModel {
                    path: dir_candidate(root, name),
                    content: entries_of(dir_candidate(root, name), children),
                },
            ),
        )),
        at_dir is Some && at_file is Some ==> retrieved(root, name, at_dir, at_file) == Err::<
            EntryModel,
            PassErrorView,
        >(PassErrorView::AmbiguousPassName(name)),
        at_dir is None && at_file is None ==> retrieved(root, name, at_dir, at_file) == Err::<
            EntryModel,
            PassErrorView,
        >(PassErrorView::EntryNotFound(name)),
{
    let stem = encode_utf8(name);
    encode_utf8_valid_utf8(name);
    encode_utf8_decode_utf8(name);
    lemma_relative_to_joined(root, stem);
    lemma_relative_to_joined(root, stem + secret_suffix());
    lemma_secret_suffix_is_text();
    lemma_suffix_added(stem);
    valid_utf8_concat(stem, secret_suffix());
    if let Some(NodeModel::Directory(children)) = at_dir {
        lemma_listing_succeeds_on_files_and_directories(dir_candidate(root, name), children);
    }
}

/// Where something stands at the file path of a name, what the directory
/// of the name holds is not looked at: the retrieval is the same whatever
/// stands at the directory path.
pub proof fn lemma_directory_unread_beside_a_file(
    root: Seq<u8>,
    name: Seq<char>,
    one: NodeModel,
    other: NodeModel,
    at_file: Option<NodeModel>,
)
    requires
        at_file is Some,
    ensures
        retrieved(root, name, Some(one), at_file) == retrieved(root, name, Some(other), at_file),
{
}

/// A name that is not empty and does not end in a separator names a secret
/// file.
pub proof fn lemma_file_candidate_is_secret(root: Seq<u8>, name: Seq<char>)
    requires
        encode_utf8(name).len() > 0,
        encode_utf8(name).last() != SEPARATOR,
    ensures
        is_secret_file_name(file_name_of(file_candidate(root, name))),
{
    let stem = encode_utf8(name);
    let path = file_candidate(root, name);
    let suffix = secret_suffix();
    lemma_suffix_added(dir_prefix(root) + stem);
    assert(path =~= (dir_prefix(root) + stem) + suffix);
    assert(path.last() == suffix[3]);
    assert(trimmed(path) == path);
    lemma_last_component_start(path);
    let start = last_component_start(path);
    let cut = path.len() - 5;
    assert(path[cut] == stem.last());
    assert forall|k: int| cut <= k < path.len() implies path[k] != SEPARATOR by {
        if k > cut {
            assert(path[k] == suffix[k - cut - 1]);
        }
    }
    lemma_last_component_covers(path, cut);
    let file_name = path.skip(start);
    assert(file_name.subrange(file_name.len() - 4, file_name.len() as int) =~= path.subrange(
        path.len() - 4,
        path.len() as int,
    ));
}

/// The view of the outcome of a retrieval.
pub open spec fn entry_result_view(r: Result<StoreEntry, PassError>) -> Result<
    EntryModel,
    PassErrorView,
> {
    match r {
        Ok(entry) => Ok(entry@),
        Err(e) => Err(e@),
    }
}

} // verus!
