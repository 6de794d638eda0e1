//! What the listing of a directory tree is.
//!
//! The listing of a directory holds one entry for each of its secret files
//! and one for each of its subdirectories, which in turn holds the listing
//! of that subdirectory. Files that are no secrets are passed over. Anything
//! that is neither a regular file nor a directory fails the listing as a
//! whole.

use crate::errors::{PassError, PassErrorView, NOT_A_DIRECTORY, NOT_FILE_OR_DIRECTORY};
use crate::layout::is_secret_file_name;
use crate::paths::{joined, lemma_joined_is_injective};
use crate::snapshot::{ChildModel, NodeModel};
use crate::store_entry::{
    entries_view, files_below, files_in, lemma_files_below_push, DirectoryModel, EntryModel,
    FileModel, StoreEntry,
};
use vstd::prelude::*;

verus! {

/// Whether a child of a directory appears in the listing of that directory:
/// every subdirectory does, and every regular file whose name marks it as a
/// secret.
pub open spec fn is_listed(child: ChildModel) -> bool {
    child.node is Directory || (child.node is File && is_secret_file_name(child.name))
}

/// The entry that stands for `child` in the listing of the directory at
/// `dir`. A subdirectory holds the listing of what stands below it.
pub open spec fn entry_of(dir: Seq<u8>, child: ChildModel) -> EntryModel
    decreases child,
{
    let path = joined(dir, child.name);
    match child.node {
        NodeModel::Directory(children) => EntryModel::Directory(
            DirectoryModel { path, content: entries_of(path, children) },
        ),
        _ => EntryModel::File(FileModel { path }),
    }
}

/// The entries of the directory at `dir` that holds `children`: one for each
/// listed child, in the order of the children.
pub open spec fn entries_of(dir: Seq<u8>, children: Seq<ChildModel>) -> Seq<EntryModel>
    decreases children,
{
    if children.len() == 0 {
        Seq::empty()
    } else {
        let front = entries_of(dir, children.drop_last());
        if is_listed(children.last()) {
            front.push(entry_of(dir, children.last()))
        } else {
            front
        }
    }
}

/// The path of the first thing at or below `child` that is neither a regular
/// file nor a directory, if there is one.
pub open spec fn malformed_at(dir: Seq<u8>, child: ChildModel) -> Option<Seq<u8>>
    decreases child,
{
    match child.node {
        NodeModel::File => None,
        NodeModel::Other => Some(joined(dir, child.name)),
        NodeModel::Directory(children) => first_malformed(joined(dir, child.name), children),
    }
}

/// The path of the first thing below the directory at `dir` that is neither
/// a regular file nor a directory, if there is one. The children are taken in
/// their order, and what stands below a child before the next child.
pub open spec fn first_malformed(dir: Seq<u8>, children: Seq<ChildModel>) -> Option<Seq<u8>>
    decreases children,
{
    if children.len() == 0 {
        None
    } else {
        match first_malformed(dir, children.drop_last()) {
            Some(path) => Some(path),
            None => malformed_at(dir, children.last()),
        }
    }
}

/// The listing of the directory at `dir` that holds `children`: its entries,
/// unless something below it is neither a regular file nor a directory.
pub open spec fn listing(dir: Seq<u8>, children: Seq<ChildModel>) -> Result<
    Seq<EntryModel>,
    PassErrorView,
> {
    match first_malformed(dir, children) {
        Some(path) => Err(
            PassErrorView::InvalidStoreFormat(path, NOT_FILE_OR_DIRECTORY@),
        ),
        None => Ok(entries_of(dir, children)),
    }
}

/// The view of the outcome of a listing.
pub open spec fn listing_view(r: Result<Vec<StoreEntry>, PassError>) -> Result<
    Seq<EntryModel>,
    PassErrorView,
> {
    match r {
        Ok(entries) => Ok(entries_view(entries@)),
        Err(e) => Err(e@),
    }
}

/// The listing of the store at `root`, where `found` is what stands at
/// `root`.
pub open spec fn store_listing(root: Seq<u8>, found: Option<NodeModel>) -> Result<
    Seq<EntryModel>,
    PassErrorView,
> {
    match found {
        None => Err(PassErrorView::PasswordStoreNotFound(root)),
        Some(NodeModel::Directory(children)) => listing(root, children),
        Some(_) => Err(PassErrorView::InvalidStoreFormat(root, NOT_A_DIRECTORY@)),
    }
}

/// Whether `child` and everything below it is a regular file or a
/// directory.
pub open spec fn is_file_or_directory_throughout(child: ChildModel) -> bool
    decreases child,
{
    match child.node {
        NodeModel::File => true,
        NodeModel::Other => false,
        NodeModel::Directory(below) => holds_files_and_directories_only(below),
    }
}

/// Whether everything below a directory that holds `children` is a regular
/// file or a directory.
pub open spec fn holds_files_and_directories_only(children: Seq<ChildModel>) -> bool
    decreases children,
{
    forall|i: int|
        0 <= i < children.len() ==> is_file_or_directory_throughout(#[trigger] children[i])
}

/// A listing succeeds exactly where everything below the directory is a
/// regular file or a directory.
pub proof fn lemma_listing_succeeds_on_files_and_directories(
    dir: Seq<u8>,
    children: Seq<ChildModel>,
)
    ensures
        listing(dir, children) is Ok <==> holds_files_and_directories_only(children),
    decreases children,
{
    if children.len() > 0 {
        let front = children.drop_last();
        let last = children.last();
        lemma_listing_succeeds_on_files_and_directories(dir, front);
        if let NodeModel::Directory(below) = last.node {
            lemma_listing_succeeds_on_files_and_directories(joined(dir, last.name), below);
        }
        assert(malformed_at(dir, last) is None <==> is_file_or_directory_throughout(last));
        if holds_files_and_directories_only(children) {
            assert forall|i: int| 0 <= i < front.len() implies is_file_or_directory_throughout(
                #[trigger] front[i],
            ) by {
                assert(front[i] == children[i]);
            }
            assert(children[children.len() - 1] == last);
        }
        if listing(dir, children) is Ok {
            assert forall|i: int| 0 <= i < children.len() implies is_file_or_directory_throughout(
                #[trigger] children[i],
            ) by {
                if i < front.len() {
                    assert(front[i] == children[i]);
                }
            }
        }
    }
}

/// Whether `entry` is the entry of one of the listed children of the
/// directory at `dir`.
pub open spec fn stands_for_listed_child(
    dir: Seq<u8>,
    children: Seq<ChildModel>,
    entry: EntryModel,
) -> bool {
    exists|i: int|
        0 <= i < children.len() && is_listed(#[trigger] children[i]) && entry == entry_of(
            dir,
            children[i],
        )
}

/// The entries of a directory are exactly those of its secret files and of
/// its subdirectories: each listed child has its entry, and each entry
/// stands for a listed child. The entry of a subdirectory holds, in turn, the
/// entries of that subdirectory, and so on downward.
pub proof fn lemma_listing_is_exact(dir: Seq<u8>, children: Seq<ChildModel>)
    ensures
        forall|i: int|
            0 <= i < children.len() && is_listed(#[trigger] children[i]) ==> entries_of(
                dir,
                children,
            ).contains(entry_of(dir, children[i])),
        forall|k: int|
            0 <= k < entries_of(dir, children).len() ==> stands_for_listed_child(
                dir,
                children,
                #[trigger] entries_of(dir, children)[k],
            ),
        forall|i: int|
            0 <= i < children.len() ==> match (#[trigger] children[i]).node {
                NodeModel::Directory(below) => entry_of(dir, children[i])
                    == EntryModel::Directory(
                    DirectoryModel {
                        path: joined(dir, children[i].name),
                        content: entries_of(joined(dir, children[i].name), below),
                    },
                ),
                _ => entry_of(dir, children[i]) == EntryModel::File(
                    FileModel { path: joined(dir, children[i].name) },
                ),
            },
    decreases children.len(),
{
    let entries = entries_of(dir, children);
    if children.len() > 0 {
        let front = children.drop_last();
        let last = children.last();
        let before = entries_of(dir, front);
        lemma_listing_is_exact(dir, front);
        assert forall|i: int| 0 <= i < children.len() && is_listed(
            #[trigger] children[i],
        ) implies entries.contains(entry_of(dir, children[i])) by {
            if i < front.len() {
                assert(front[i] == children[i]);
                let k = choose|k: int| 0 <= k < before.len() && before[k] == entry_of(dir, front[i]);
                assert(entries[k] == entry_of(dir, children[i]));
            } else {
                assert(entries[entries.len() - 1] == entry_of(dir, children[i]));
            }
        }
        assert forall|k: int| 0 <= k < entries.len() implies stands_for_listed_child(
            dir,
            children,
            #[trigger] entries[k],
        ) by {
            if k < before.len() {
                assert(entries[k] == before[k]);
                assert(stands_for_listed_child(dir, front, before[k]));
                let i = choose|i: int|
                    0 <= i < front.len() && is_listed(#[trigger] front[i]) && before[k]
                        == entry_of(dir, front[i]);
                assert(children[i] == front[i]);
            } else {
                assert(children[children.len() - 1] == last);
            }
        }
    }
}

/// Whether no two children of a directory bear the same name, here and in
/// every directory below.
pub open spec fn names_are_distinct(children: Seq<ChildModel>) -> bool
    decreases children,
{
    &&& forall|i: int, j: int|
        0 <= i < j < children.len() ==> (#[trigger] children[i]).name != (
        #[trigger] children[j]).name
    &&& forall|i: int|
        0 <= i < children.len() ==> match (#[trigger] children[i]).node {
            NodeModel::Directory(below) => names_are_distinct(below),
            _ => true,
        }
}

/// Whether no two entries of a listing bear the same path, here and in
/// every directory below.
pub open spec fn paths_are_distinct(entries: Seq<EntryModel>) -> bool
    decreases entries,
{
    &&& forall|i: int, j: int|
        0 <= i < j < entries.len() ==> (#[trigger] entries[i]).path() != (
        #[trigger] entries[j]).path()
    &&& forall|i: int|
        0 <= i < entries.len() ==> match #[trigger] entries[i] {
            EntryModel::Directory(dir) => paths_are_distinct(dir.content),
            EntryModel::File(_) => true,
        }
}

/// Where no directory names one child twice, as on a real file system, a
/// listing holds no path twice: its entries form a set that is keyed by
/// their paths.
pub proof fn lemma_listing_is_a_set(dir: Seq<u8>, children: Seq<ChildModel>)
    requires
        names_are_distinct(children),
    ensures
        paths_are_distinct(entries_of(dir, children)),
    decreases children,
{
    let entries = entries_of(dir, children);
    lemma_listing_is_exact(dir, children);
    lemma_entries_keep_order(dir, children);
    assert forall|i: int, j: int| 0 <= i < j < entries.len() implies (#[trigger] entries[i]).path()
        != (#[trigger] entries[j]).path() by {
        let a = source_of(dir, children, i);
        let b = source_of(dir, children, j);
        assert(children[a].name != children[b].name);
        if joined(dir, children[a].name) == joined(dir, children[b].name) {
            lemma_joined_is_injective(dir, children[a].name, children[b].name);
        }
    }
    assert forall|i: int| 0 <= i < entries.len() implies match #[trigger] entries[i] {
        EntryModel::Directory(d) => paths_are_distinct(d.content),
        EntryModel::File(_) => true,
    } by {
        let a = source_of(dir, children, i);
        if let NodeModel::Directory(below) = children[a].node {
            lemma_listing_is_a_set(joined(dir, children[a].name), below);
        }
    }
}

/// The index of the child for which the entry at index `k` of the listing
/// stands.
pub open spec fn source_of(dir: Seq<u8>, children: Seq<ChildModel>, k: int) -> int
    decreases children.len(),
{
    if children.len() == 0 {
        0
    } else if k < entries_of(dir, children.drop_last()).len() {
        source_of(dir, children.drop_last(), k)
    } else {
        children.len() - 1
    }
}

/// The entries of a listing stand in the order of the children they stand
/// for.
pub proof fn lemma_entries_keep_order(dir: Seq<u8>, children: Seq<ChildModel>)
    ensures
        forall|k: int|
            0 <= k < entries_of(dir, children).len() ==> {
                let i = #[trigger] source_of(dir, children, k);
                &&& 0 <= i < children.len()
                &&& is_listed(children[i])
                &&& entries_of(dir, children)[k] == entry_of(dir, children[i])
                &&& entries_of(dir, children)[k].path() == joined(dir, children[i].name)
            },
        forall|k: int, l: int|
            0 <= k < l < entries_of(dir, children).len() ==> source_of(dir, children, k)
                < source_of(dir, children, l),
    decreases children.len(),
{
    if children.len() > 0 {
        let front = children.drop_last();
        let before = entries_of(dir, front);
        let entries = entries_of(dir, children);
        lemma_entries_keep_order(dir, front);
        assert forall|k: int| 0 <= k < entries.len() implies {
            let i = #[trigger] source_of(dir, children, k);
            &&& 0 <= i < children.len()
            &&& is_listed(children[i])
            &&& entries[k] == entry_of(dir, children[i])
            &&& entries[k].path() == joined(dir, children[i].name)
        } by {
            let i = source_of(dir, children, k);
            if k < before.len() {
                assert(i == source_of(dir, front, k));
                assert(front[i] == children[i]);
                assert(entries[k] == before[k]);
            }
        }
        assert forall|k: int, l: int| 0 <= k < l < entries.len() implies source_of(
            dir,
            children,
            k,
        ) < source_of(dir, children, l) by {
            if l < before.len() {
                assert(source_of(dir, children, k) == source_of(dir, front, k));
                assert(source_of(dir, children, l) == source_of(dir, front, l));
            } else {
                assert(source_of(dir, children, k) == source_of(dir, front, k));
            }
        }
    }
}

/// What is malformed among the first children is what is malformed among
/// all of them.
pub proof fn lemma_first_malformed_stays(dir: Seq<u8>, children: Seq<ChildModel>, upto: int)
    requires
        0 <= upto <= children.len(),
        first_malformed(dir, children.take(upto)) is Some,
    ensures
        first_malformed(dir, children) == first_malformed(dir, children.take(upto)),
    decreases children.len() - upto,
{
    if upto < children.len() {
        assert(children.take(upto + 1).drop_last() =~= children.take(upto));
        lemma_first_malformed_stays(dir, children, upto + 1);
    } else {
        assert(children.take(upto) =~= children);
    }
}

/// The paths of the secret files at and below `child`, in the order in
/// which a walk through the tree meets them.
pub open spec fn secret_paths_at(dir: Seq<u8>, child: ChildModel) -> Seq<Seq<u8>>
    decreases child,
{
    match child.node {
        NodeModel::File => if is_secret_file_name(child.name) {
            seq![joined(dir, child.name)]
        } else {
            Seq::empty()
        },
        NodeModel::Directory(below) => secret_paths_below(joined(dir, child.name), below),
        NodeModel::Other => Seq::empty(),
    }
}

/// The paths of the secret files below the directory at `dir`, in the order
/// in which a walk through the tree meets them.
pub open spec fn secret_paths_below(dir: Seq<u8>, children: Seq<ChildModel>) -> Seq<Seq<u8>>
    decreases children,
{
    if children.len() == 0 {
        Seq::empty()
    } else {
        secret_paths_below(dir, children.drop_last()) + secret_paths_at(dir, children.last())
    }
}

/// The file entries of the given paths.
pub open spec fn file_entries(paths: Seq<Seq<u8>>) -> Seq<EntryModel> {
    Seq::new(paths.len(), |i: int| EntryModel::File(FileModel { path: paths[i] }))
}

/// A walk through the listing of a directory yields exactly the secret
/// files of the tree below that directory, each once, and nothing else.
pub proof fn lemma_walk_yields_the_secret_files(dir: Seq<u8>, children: Seq<ChildModel>)
    ensures
        files_below(entries_of(dir, children)) == file_entries(secret_paths_below(dir, children)),
    decreases children,
{
    if children.len() == 0 {
        assert(files_below(entries_of(dir, children)) =~= file_entries(
            secret_paths_below(dir, children),
        ));
    } else {
        let front = children.drop_last();
        let last = children.last();
        lemma_walk_yields_the_secret_files(dir, front);
        assert(file_entries(secret_paths_below(dir, front)) + file_entries(
            secret_paths_at(dir, last),
        ) =~= file_entries(secret_paths_below(dir, children)));
        if is_listed(last) {
            lemma_files_below_push(entries_of(dir, front), entry_of(dir, last));
            if let NodeModel::Directory(below) = last.node {
                lemma_walk_yields_the_secret_files(joined(dir, last.name), below);
            } else {
                assert(files_in(entry_of(dir, last)) =~= file_entries(secret_paths_at(dir, last)));
            }
        } else {
            assert(file_entries(secret_paths_at(dir, last)) =~= Seq::<EntryModel>::empty());
            assert(files_below(entries_of(dir, front)) + Seq::<EntryModel>::empty()
                =~= files_below(entries_of(dir, front)));
        }
    }
}

} // verus!
