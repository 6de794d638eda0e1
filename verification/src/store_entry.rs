//! Type definitions and interaction logic for entries in a password store.

use crate::errors::{
    PassError, PassErrorView, MANIFEST_NOT_A_FILE, MISSING_SUFFIX, NOT_A_DIRECTORY, NOT_A_SECRET,
    NO_MANIFEST, NO_PARENT,
};
use crate::file_io::{PlainFileState, RwPlainFile};
use crate::keys::{
    key_ids_for, key_ids_result_view, lemma_nearest_stays, manifest_candidates_of,
    nearest_present, parse_key_ids, KeyIds,
};
use crate::layout::{
    ends_in_secret_suffix, has_secret_suffix, is_secret_file_name, lemma_suffix_removed,
    manifest_name, manifest_name_bytes, names_secret_file, strip_secret_suffix,
    without_secret_suffix,
};
use crate::paths::{
    ancestors_of, file_name, file_name_of, head, join, joined, lemma_ancestors_chain,
    lemma_ancestors_unfold, parent, parent_of, same_bytes,
};
use crate::snapshot::{found_view, probes_view, FsNode, ManifestProbe, NodeModel, ProbeModel};
use crate::utils::{
    abspath2relpath, path2str, path_text, relative_path, text_from_utf8, text_result_view,
};
use vstd::prelude::*;
use vstd::std_specs::cmp::PartialEqSpecImpl;
use vstd::utf8::{
    decode_utf8, is_char_boundary_iff_not_is_continuation_byte, is_continuation_byte, valid_utf8,
    valid_utf8_split,
};

verus! {

/// An entry in the password store.
#[derive(Debug, PartialEq, Eq, Hash)]
pub enum StoreEntry {
    /// A reference to a directory which contains other entries.
    Directory(StoreDirectoryRef),
    /// A reference to a file that holds the actual content of a store.
    File(StoreFileRef),
}

/// A reference to a directory in the password store.
///
/// The directory is identified by its path alone; `content` is a snapshot of
/// what it held when it was listed.
#[derive(Debug, Eq)]
pub struct StoreDirectoryRef {
    /// Absolute path to the referenced directory.
    pub path: Vec<u8>,
    /// Other entries that are contained in this directory.
    pub content: Vec<StoreEntry>,
}

/// A reference to a file in the password store.
#[derive(Debug, PartialEq, Eq, Hash)]
pub struct StoreFileRef {
    /// Absolute path to the referenced file.
    pub path: Vec<u8>,
}

impl PartialEq for StoreDirectoryRef {
    /// Two references are equal when they name the same directory, whatever
    /// they hold of its content.
    fn eq(&self, other: &Self) -> (equal: bool) {
        same_bytes(self.path.as_slice(), other.path.as_slice())
    }
}

impl std::hash::Hash for StoreDirectoryRef {
    /// A reference is hashed by its path alone, as it is compared.
    ///
    /// Trusted: this is `Hash::hash` of the path.
    #[verifier::external_body]
    fn hash<H: std::hash::Hasher>(&self, state: &mut H) {
        self.path.hash(state);
    }
}

impl PartialEqSpecImpl for StoreDirectoryRef {
    open spec fn obeys_eq_spec() -> bool {
        true
    }

    open spec fn eq_spec(&self, other: &Self) -> bool {
        self.path@ == other.path@
    }
}

/// The mathematical value of a [`StoreFileRef`].
pub struct FileModel {
    /// The path of the file.
    pub path: Seq<u8>,
}

/// The mathematical value of a [`StoreDirectoryRef`].
pub struct DirectoryModel {
    /// The path of the directory.
    pub path: Seq<u8>,
    /// The entries that the directory held when it was listed.
    pub content: Seq<EntryModel>,
}

/// The mathematical value of a [`StoreEntry`].
pub enum EntryModel {
    /// A directory with its entries.
    Directory(DirectoryModel),
    /// A secret file.
    File(FileModel),
}

impl View for StoreFileRef {
    type V = FileModel;

    open spec fn view(&self) -> FileModel {
        FileModel { path: self.path@ }
    }
}

impl StoreEntry {
    /// The value of this entry: its path and, for a directory, the values of
    /// the entries it holds.
    ///
    /// Only the indices inside a directory are ever asked for; the bound on
    /// `i` is what shows that the recursion ends.
    pub open spec fn model(self) -> EntryModel
        decreases self,
    {
        match self {
            StoreEntry::File(file) => EntryModel::File(file@),
            StoreEntry::Directory(dir) => EntryModel::Directory(
                DirectoryModel {
                    path: dir.path@,
                    content: Seq::new(
                        dir.content@.len(),
                        |i: int|
                            if 0 <= i < dir.content@.len() {
                                dir.content@[i].model()
                            } else {
                                arbitrary()
                            },
                    ),
                },
            ),
        }
    }
}

impl View for StoreEntry {
    type V = EntryModel;

    open spec fn view(&self) -> EntryModel {
        self.model()
    }
}

/// The values of the entries in `entries`, one by one.
pub open spec fn entries_view(entries: Seq<StoreEntry>) -> Seq<EntryModel> {
    Seq::new(entries.len(), |i: int| entries[i]@)
}

impl View for StoreDirectoryRef {
    type V = DirectoryModel;

    open spec fn view(&self) -> DirectoryModel {
        DirectoryModel { path: self.path@, content: entries_view(self.content@) }
    }
}

/// The value of a directory entry is that of the directory it wraps.
pub proof fn lemma_directory_entry_view(entry: StoreEntry)
    requires
        entry is Directory,
    ensures
        entry@ == EntryModel::Directory(entry->Directory_0@),
{
    let dir = entry->Directory_0;
    assert(entry@->Directory_0.content =~= entries_view(dir.content@));
}

/// A copy of `entry` and of everything it holds.
fn copy_entry(entry: &StoreEntry) -> (copy: StoreEntry)
    ensures
        copy@ == entry@,
    decreases entry,
{
    match entry {
        StoreEntry::File(file) => StoreEntry::File(file.clone()),
        StoreEntry::Directory(dir) => {
            let mut content: Vec<StoreEntry> = Vec::new();
            let mut i: usize = 0;
            while i < dir.content.len()
                invariant
                    *entry == StoreEntry::Directory(*dir),
                    i <= dir.content.len(),
                    content@.len() == i,
                    forall|k: int| 0 <= k < i ==> (#[trigger] content@[k])@ == dir.content@[k]@,
                decreases dir.content.len() - i,
            {
                assert(entry->Directory_0 == *dir);
                content.push(copy_entry(&dir.content[i]));
                i += 1;
            }
            let copy = StoreEntry::Directory(
                StoreDirectoryRef { path: dir.path.clone(), content },
            );
            proof {
                lemma_directory_entry_view(copy);
                lemma_directory_entry_view(*entry);
                assert(entries_view(content@) =~= entries_view(dir.content@));
            }
            copy
        },
    }
}

impl Clone for StoreFileRef {
    fn clone(&self) -> (copy: Self)
        ensures
            copy@ == self@,
    {
        StoreFileRef { path: self.path.clone() }
    }
}

impl Clone for StoreEntry {
    fn clone(&self) -> (copy: Self)
        ensures
            copy@ == self@,
    {
        copy_entry(self)
    }
}

impl Clone for StoreDirectoryRef {
    fn clone(&self) -> (copy: Self)
        ensures
            copy@ == self@,
    {
        let mut content: Vec<StoreEntry> = Vec::new();
        let mut i: usize = 0;
        while i < self.content.len()
            invariant
                i <= self.content.len(),
                content@.len() == i,
                forall|k: int| 0 <= k < i ==> (#[trigger] content@[k])@ == self.content@[k]@,
            decreases self.content.len() - i,
        {
            content.push(copy_entry(&self.content[i]));
            i += 1;
        }
        assert(entries_view(content@) =~= entries_view(self.content@));
        StoreDirectoryRef { path: self.path.clone(), content }
    }
}

/// The view of the outcome of a check.
pub open spec fn check_view(r: Result<(), PassError>) -> Result<(), PassErrorView> {
    match r {
        Ok(()) => Ok(()),
        Err(e) => Err(e@),
    }
}

impl FileModel {
    /// The logical name of the file in the store at `root`: its path as seen
    /// from `root`, without the secret suffix, as text.
    pub open spec fn name(self, root: Seq<u8>) -> Result<Seq<char>, PassErrorView> {
        match relative_path(self.path, root) {
            Err(e) => Err(e),
            Ok(rel) => if !valid_utf8(rel) {
                Err(PassErrorView::PathDecodingError(rel))
            } else if !has_secret_suffix(rel) {
                Err(PassErrorView::InvalidStoreFormat(self.path, MISSING_SUFFIX@))
            } else {
                Ok(decode_utf8(without_secret_suffix(rel)))
            },
        }
    }

    /// Whether the reference agrees with what was `found` at its path: a
    /// regular file must stand there, and the path must name a secret.
    pub open spec fn verified(self, found: Option<NodeModel>) -> Result<(), PassErrorView> {
        if found == Some(NodeModel::File) && is_secret_file_name(file_name_of(self.path)) {
            Ok(())
        } else {
            Err(PassErrorView::InvalidStoreFormat(self.path, NOT_A_SECRET@))
        }
    }
}

impl DirectoryModel {
    /// The logical name of the directory in the store at `root`: its path as
    /// seen from `root`, as text.
    pub open spec fn name(self, root: Seq<u8>) -> Result<Seq<char>, PassErrorView> {
        match relative_path(self.path, root) {
            Err(e) => Err(e),
            Ok(rel) => path_text(rel),
        }
    }

    /// Whether the reference agrees with what was `found` at its path: a
    /// directory must stand there.
    pub open spec fn verified(self, found: Option<NodeModel>) -> Result<(), PassErrorView> {
        if found is Some && found->Some_0 is Directory {
            Ok(())
        } else {
            Err(PassErrorView::InvalidStoreFormat(self.path, NOT_A_DIRECTORY@))
        }
    }
}

impl EntryModel {
    /// The path by which the entry is identified.
    pub open spec fn path(self) -> Seq<u8> {
        match self {
            EntryModel::Directory(dir) => dir.path,
            EntryModel::File(file) => file.path,
        }
    }

    /// The logical name of the entry in the store at `root`.
    pub open spec fn name(self, root: Seq<u8>) -> Result<Seq<char>, PassErrorView> {
        match self {
            EntryModel::Directory(dir) => dir.name(root),
            EntryModel::File(file) => file.name(root),
        }
    }

    /// Whether the entry agrees with what was `found` at its path.
    pub open spec fn verified(self, found: Option<NodeModel>) -> Result<(), PassErrorView> {
        match self {
            EntryModel::Directory(dir) => dir.verified(found),
            EntryModel::File(file) => file.verified(found),
        }
    }
}

impl StoreFileRef {
    /// Retrieve the name of the store entry.
    ///
    /// The name is the path of the file relative to the store root, without
    /// the secret suffix; it is the name by which the entry is retrieved.
    pub fn name(&self, root: &[u8]) -> (name: Result<String, PassError>)
        ensures
            text_result_view(name) == self@.name(root@),
    {
        let rel = match abspath2relpath(self.path.as_slice(), root) {
            Ok(rel) => rel,
            Err(e) => {
                return Err(e);
            },
        };
        match path2str(rel.as_slice()) {
            Ok(_) => {},
            Err(e) => {
                return Err(e);
            },
        }
        if !ends_in_secret_suffix(rel.as_slice()) {
            return Err(PassError::InvalidStoreFormat(self.path.clone(), MISSING_SUFFIX.to_owned()));
        }
        let stem = strip_secret_suffix(rel.as_slice());
        proof {
            lemma_suffix_removed(rel@);
        }
        path2str(stem.as_slice())
    }

    /// Verify that this reference names a secret file and that a regular
    /// file was `found` at its path.
    pub fn verify(&self, found: &Option<FsNode>) -> (ok: Result<(), PassError>)
        ensures
            check_view(ok) == self@.verified(found_view(*found)),
    {
        let is_file: bool = match found {
            Some(FsNode::File) => true,
            _ => false,
        };
        let name = file_name(self.path.as_slice());
        if is_file && names_secret_file(name.as_slice()) {
            Ok(())
        } else {
            Err(PassError::InvalidStoreFormat(self.path.clone(), NOT_A_SECRET.to_owned()))
        }
    }
}

impl StoreDirectoryRef {
    /// Retrieve the name of the store entry.
    ///
    /// The name is the path of the directory relative to the store root; it
    /// is the name by which the entry is retrieved.
    pub fn name(&self, root: &[u8]) -> (name: Result<String, PassError>)
        ensures
            text_result_view(name) == self@.name(root@),
    {
        match abspath2relpath(self.path.as_slice(), root) {
            Ok(rel) => path2str(rel.as_slice()),
            Err(e) => Err(e),
        }
    }

    /// Verify that a directory was `found` at the path of this reference.
    pub fn verify(&self, found: &Option<FsNode>) -> (ok: Result<(), PassError>)
        ensures
            check_view(ok) == self@.verified(found_view(*found)),
    {
        let is_dir: bool = match found {
            Some(FsNode::Directory(_)) => true,
            _ => false,
        };
        if is_dir {
            Ok(())
        } else {
            Err(PassError::InvalidStoreFormat(self.path.clone(), NOT_A_DIRECTORY.to_owned()))
        }
    }
}

impl StoreEntry {
    /// Retrieve the name of the store entry.
    ///
    /// The name is the path of the entry relative to the store root, for a
    /// file without the secret suffix; it is the name by which the entry is
    /// retrieved.
    pub fn name(&self, root: &[u8]) -> (name: Result<String, PassError>)
        ensures
            text_result_view(name) == self@.name(root@),
    {
        match self {
            StoreEntry::Directory(dir) => {
                proof {
                    lemma_directory_entry_view(*self);
                }
                dir.name(root)
            },
            StoreEntry::File(file) => file.name(root),
        }
    }

    /// Verify that this store entry matches what was `found` at its path.
    pub fn verify(&self, found: &Option<FsNode>) -> (ok: Result<(), PassError>)
        ensures
            check_view(ok) == self@.verified(found_view(*found)),
    {
        match self {
            StoreEntry::Directory(dir) => {
                proof {
                    lemma_directory_entry_view(*self);
                }
                dir.verify(found)
            },
            StoreEntry::File(file) => file.verify(found),
        }
    }
}

/// The secret files at and below `entry`, in the order in which a walk
/// through the tree meets them.
pub open spec fn files_in(entry: EntryModel) -> Seq<EntryModel>
    decreases entry,
{
    match entry {
        EntryModel::File(_) => seq![entry],
        EntryModel::Directory(dir) => files_below(dir.content),
    }
}

/// The secret files at and below `entries`: those of the first entry, then
/// those of the next, and so on.
pub open spec fn files_below(entries: Seq<EntryModel>) -> Seq<EntryModel>
    decreases entries,
{
    if entries.len() == 0 {
        Seq::empty()
    } else {
        files_in(entries.first()) + files_below(entries.drop_first())
    }
}

/// The files at and below a sequence of entries are those of all but its
/// last entry, and then those of the last.
pub proof fn lemma_files_below_push(entries: Seq<EntryModel>, entry: EntryModel)
    ensures
        files_below(entries.push(entry)) == files_below(entries) + files_in(entry),
    decreases entries.len(),
{
    let all = entries.push(entry);
    if entries.len() == 0 {
        assert(all.drop_first() =~= Seq::<EntryModel>::empty());
        assert(files_below(all.drop_first()) =~= Seq::<EntryModel>::empty());
        assert(files_below(all) =~= files_in(entry));
        assert(files_below(entries) + files_in(entry) =~= files_in(entry));
    } else {
        assert(all.first() == entries.first());
        assert(all.drop_first() =~= entries.drop_first().push(entry));
        lemma_files_below_push(entries.drop_first(), entry);
        assert(files_in(entries.first()) + (files_below(entries.drop_first()) + files_in(entry))
            =~= (files_in(entries.first()) + files_below(entries.drop_first())) + files_in(
            entry,
        ));
    }
}

/// The number of entries at and below `entries`, directories counted too.
pub open spec fn size_below(entries: Seq<EntryModel>) -> nat
    decreases entries,
{
    if entries.len() == 0 {
        0
    } else {
        1 + (match entries.first() {
            EntryModel::File(_) => 0,
            EntryModel::Directory(dir) => size_below(dir.content),
        }) + size_below(entries.drop_first())
    }
}

/// One directory that an iterator is walking through: its entries and the
/// index of the entry that comes next.
#[derive(Debug)]
struct Level<'a> {
    entries: &'a Vec<StoreEntry>,
    next: usize,
}

impl<'a> Level<'a> {
    /// The entries of this directory that are still to come.
    spec fn pending(self) -> Seq<EntryModel> {
        entries_view(self.entries@).skip(self.next as int)
    }

    /// The index lies within the directory.
    #[verifier::type_invariant]
    spec fn within(self) -> bool {
        self.next <= self.entries@.len()
    }
}

/// An iterator over the secret files at and below a directory.
///
/// The walk is lazy: the iterator holds, for the directory it started from
/// and for each subdirectory it is inside of, how far it has come.
#[derive(Debug)]
pub struct StoreDirectoryIter<'a> {
    levels: Vec<Level<'a>>,
}

/// The files that a walk still yields when it stands at `levels`, the
/// innermost directory last.
spec fn files_pending(levels: Seq<Level>) -> Seq<EntryModel>
    decreases levels.len(),
{
    if levels.len() == 0 {
        Seq::empty()
    } else {
        files_below(levels.last().pending()) + files_pending(levels.drop_last())
    }
}

/// A bound on the steps that a walk still takes when it stands at `levels`.
spec fn steps_pending(levels: Seq<Level>) -> nat
    decreases levels.len(),
{
    if levels.len() == 0 {
        0
    } else {
        2 * size_below(levels.last().pending()) + 1 + steps_pending(levels.drop_last())
    }
}

/// What a walk has pending once it has gone one level further in.
proof fn lemma_pending_push(levels: Seq<Level>, level: Level)
    ensures
        files_pending(levels.push(level)) == files_below(level.pending()) + files_pending(levels),
        steps_pending(levels.push(level)) == 2 * size_below(level.pending()) + 1 + steps_pending(
            levels,
        ),
{
    assert(levels.push(level).drop_last() =~= levels);
}

impl<'a> StoreDirectoryIter<'a> {
    /// The files that the iterator has yet to yield, in their order.
    pub closed spec fn remaining(self) -> Seq<EntryModel> {
        files_pending(self.levels@)
    }

    /// The next secret file of the walk, or `None` when the walk is over.
    ///
    /// Directories are walked through, not yielded: every item is a file.
    pub fn next(&mut self) -> (item: Option<&'a StoreEntry>)
        ensures
            match item {
                Some(entry) => {
                    &&& old(self).remaining().len() > 0
                    &&& entry@ == old(self).remaining().first()
                    &&& final(self).remaining() == old(self).remaining().drop_first()
                },
                None => old(self).remaining().len() == 0 && final(self).remaining().len() == 0,
            },
    {
        loop
            invariant
                self.remaining() == old(self).remaining(),
            decreases steps_pending(self.levels@),
        {
            let ghost before = self.levels@;
            let level = match self.levels.pop() {
                Some(level) => level,
                None => {
                    return None;
                },
            };
            let ghost outer = self.levels@;
            proof {
                assert(before =~= outer.push(level));
                lemma_pending_push(outer, level);
                use_type_invariant(&level);
            }
            if level.next < level.entries.len() {
                let entry = &level.entries[level.next];
                let advanced = Level { entries: level.entries, next: level.next + 1 };
                proof {
                    let pending = level.pending();
                    assert(pending.len() > 0);
                    assert(pending.first() == entry@);
                    assert(pending.drop_first() =~= advanced.pending());
                    assert(files_below(pending) == files_in(entry@) + files_below(
                        advanced.pending(),
                    ));
                    lemma_pending_push(outer, advanced);
                }
                self.levels.push(advanced);
                let ghost middle = self.levels@;
                match entry {
                    StoreEntry::File(_) => {
                        proof {
                            let rest = files_below(advanced.pending()) + files_pending(outer);
                            assert(files_in(entry@) == seq![entry@]);
                            assert(old(self).remaining() =~= seq![entry@] + rest);
                            assert((seq![entry@] + rest).drop_first() =~= rest);
                        }
                        return Some(entry);
                    },
                    StoreEntry::Directory(dir) => {
                        let inner = Level { entries: &dir.content, next: 0 };
                        proof {
                            lemma_directory_entry_view(*entry);
                            assert(inner.pending() =~= dir@.content);
                            assert(files_in(entry@) == files_below(dir@.content));
                            lemma_pending_push(middle, inner);
                        }
                        self.levels.push(inner);
                        assert(self.remaining() =~= old(self).remaining());
                    },
                }
            } else {
                assert(level.pending() =~= Seq::<EntryModel>::empty());
            }
        }
    }
}

impl StoreDirectoryRef {
    /// Iterate over all the secret files in the storage hierarchy below this
    /// directory.
    ///
    /// The iterator walks through subdirectories, however deep, and so
    /// flattens the hierarchy. The entries contained directly in this
    /// directory are the `content` field.
    pub fn iter(&self) -> (iter: StoreDirectoryIter<'_>)
        ensures
            iter.remaining() == files_below(self@.content),
    {
        let mut levels: Vec<Level<'_>> = Vec::new();
        let top = Level { entries: &self.content, next: 0 };
        proof {
            assert(top.pending() =~= self@.content);
            lemma_pending_push(levels@, top);
            assert(files_pending(levels@) =~= Seq::<EntryModel>::empty());
        }
        levels.push(top);
        assert(files_pending(levels@) =~= files_below(self@.content));
        StoreDirectoryIter { levels }
    }
}

impl StoreFileRef {
    /// The paths at which a key manifest may govern this file: one in each
    /// directory above the file, the nearest first.
    pub fn manifest_candidates(&self) -> (candidates: Vec<Vec<u8>>)
        ensures
            candidates.deep_view() == manifest_candidates_of(self.path@),
    {
        let ghost dirs = ancestors_of(self.path@);
        let manifest = manifest_name_bytes();
        let mut candidates: Vec<Vec<u8>> = Vec::new();
        let mut dir = parent(self.path.as_slice());
        proof {
            lemma_ancestors_unfold(self.path@);
        }
        while dir.is_some()
            invariant
                dirs == ancestors_of(self.path@),
                manifest@ == manifest_name(),
                candidates@.len() <= dirs.len(),
                forall|k: int|
                    0 <= k < candidates@.len() ==> (#[trigger] candidates@[k])@ == joined(
                        dirs[k],
                        manifest_name(),
                    ),
                match dir {
                    Some(d) => candidates@.len() < dirs.len() && d@ == dirs[candidates@.len() as int],
                    None => candidates@.len() == dirs.len(),
                },
            decreases dirs.len() - candidates@.len(),
        {
            let current = dir.unwrap();
            let ghost k = candidates@.len() as int;
            proof {
                lemma_ancestors_chain(self.path@, k);
                lemma_ancestors_unfold(current@);
                if parent_of(current@) is Some {
                    assert(dirs.skip(k + 1).first() == dirs[k + 1]);
                }
            }
            candidates.push(join(current.as_slice(), manifest.as_slice()));
            dir = parent(current.as_slice());
        }
        assert(candidates.deep_view() =~~= manifest_candidates_of(self.path@));
        candidates
    }

    /// Retrieve the identifiers of the encryption keys that are used to
    /// encrypt this file.
    ///
    /// They are taken from the key manifest that governs the file: the one in
    /// the nearest directory above it that holds one. `probes[k]` tells what
    /// stands at the path of index `k` of [`Self::manifest_candidates`]; a
    /// candidate that `probes` does not reach counts as absent, so the
    /// probes need not go on beyond the first place at which something
    /// stands.
    ///
    /// A manifest is read up to its first line that is not text. What was
    /// read before comes back together with that failure.
    pub fn encryption_keys(&self, probes: &Vec<ManifestProbe>) -> (ids: Result<
        KeyIds,
        PassError,
    >)
        ensures
            key_ids_result_view(ids) == key_ids_for(self.path@, probes_view(probes@)),
    {
        let ghost dirs = ancestors_of(self.path@);
        let ghost seen = probes_view(probes@);
        let manifest = manifest_name_bytes();
        proof {
            lemma_ancestors_unfold(self.path@);
        }
        let mut dir = match parent(self.path.as_slice()) {
            Some(dir) => dir,
            None => {
                return Err(
                    PassError::InvalidStoreFormat(
                        self.path.clone(),
                        NO_PARENT.to_owned(),
                    ),
                );
            },
        };
        let mut k: usize = 0;
        loop
            invariant
                dirs == ancestors_of(self.path@),
                seen == probes_view(probes@),
                manifest@ == manifest_name(),
                dirs.len() <= self.path@.len(),
                k < dirs.len(),
                dir@ == dirs[k as int],
                nearest_present(seen, k as int) is None,
            decreases dirs.len() - k,
        {
            if k < probes.len() {
                assert(seen[k as int] == probes@[k as int]@);
                match &probes[k] {
                    ManifestProbe::Manifest(content) => {
                        proof {
                            lemma_nearest_stays(seen, k as int, dirs.len() as int);
                        }
                        return Ok(parse_key_ids(content.as_slice()));
                    },
                    ManifestProbe::NotAFile => {
                        proof {
                            lemma_nearest_stays(seen, k as int, dirs.len() as int);
                        }
                        return Err(
                            PassError::InvalidStoreFormat(
                                join(dir.as_slice(), manifest.as_slice()),
                                MANIFEST_NOT_A_FILE.to_owned(),
                            ),
                        );
                    },
                    ManifestProbe::Absent => {},
                }
            }
            assert(nearest_present(seen, k + 1) is None);
            proof {
                lemma_ancestors_chain(self.path@, k as int);
                lemma_ancestors_unfold(dir@);
                if parent_of(dir@) is Some {
                    assert(dirs.skip(k + 1).first() == dirs[k + 1]);
                }
            }
            match parent(dir.as_slice()) {
                Some(up) => {
                    assert(k + 1 < dirs.len() <= self.path.len() <= usize::MAX);
                    dir = up;
                    k += 1;
                },
                None => {
                    return Err(
                        PassError::InvalidStoreFormat(
                            dir,
                            NO_MANIFEST.to_owned(),
                        ),
                    );
                },
            }
        }
    }
}

/// The byte `.`, which sets the extension of a file name apart.
pub const DOT: u8 = 0x2e;

/// The index of the last `.` in `name`, or -1 where it holds none.
pub open spec fn last_dot(name: Seq<u8>) -> int
    decreases name.len(),
{
    if name.len() == 0 {
        -1
    } else if name.last() == DOT {
        name.len() - 1
    } else {
        last_dot(name.drop_last())
    }
}

impl EntryModel {
    /// The name of the secret itself: the last component of the entry's
    /// path up to its last `.`.
    pub open spec fn secret_name(self) -> Seq<char>
        recommends
            last_dot(file_name_of(self.path())) >= 0,
            valid_utf8(file_name_of(self.path())),
    {
        decode_utf8(file_name_of(self.path()).take(last_dot(file_name_of(self.path()))))
    }

    /// Whether something of the entry's kind was `found` at its path.
    pub open spec fn is_valid_on_fs(self, found: Option<NodeModel>) -> bool {
        match self {
            EntryModel::Directory(_) => found is Some && found->Some_0 is Directory,
            EntryModel::File(_) => found == Some(NodeModel::File),
        }
    }
}

impl StoreEntry {
    /// The path by which the entry is identified.
    pub fn path(&self) -> (path: &Vec<u8>)
        ensures
            path@ == self@.path(),
    {
        match self {
            StoreEntry::Directory(dir) => &dir.path,
            StoreEntry::File(file) => &file.path,
        }
    }

    /// The name of the secret itself: the last component of the entry's
    /// path without its extension.
    ///
    /// The last component has to be text and to hold a `.`.
    pub fn secret_name(&self) -> (name: String)
        requires
            last_dot(file_name_of(self@.path())) >= 0,
            valid_utf8(file_name_of(self@.path())),
        ensures
            name@ == self@.secret_name(),
    {
        let file_name = file_name(self.path().as_slice());
        let mut end: usize = file_name.len();
        assert(file_name@.take(end as int) =~= file_name@);
        while end > 0 && file_name[end - 1] != DOT
            invariant
                end <= file_name@.len(),
                last_dot(file_name@.take(end as int)) == last_dot(file_name@),
            decreases end,
        {
            assert(file_name@.take(end as int).drop_last() =~= file_name@.take(end - 1));
            end -= 1;
        }
        let stem = head(file_name.as_slice(), end - 1);
        proof {
            let cut = end - 1;
            assert(!is_continuation_byte(file_name@[cut]));
            is_char_boundary_iff_not_is_continuation_byte(file_name@, cut);
            valid_utf8_split(file_name@, cut);
            assert(file_name@.subrange(0, cut) =~= stem@);
        }
        text_from_utf8(stem.as_slice()).unwrap()
    }

    /// Whether something of the entry's kind was `found` at its path: a
    /// directory for a directory, a regular file for a file.
    pub fn is_valid_on_fs(&self, found: &Option<FsNode>) -> (valid: bool)
        ensures
            valid == self@.is_valid_on_fs(found_view(*found)),
    {
        match (self, found) {
            (StoreEntry::Directory(_), Some(FsNode::Directory(_))) => true,
            (StoreEntry::File(_), Some(FsNode::File)) => true,
            _ => false,
        }
    }
}

/// The view of the outcome of opening a handle.
pub open spec fn handle_result_view(r: Result<RwPlainFile, PassError>) -> Result<
    PlainFileState,
    PassErrorView,
> {
    match r {
        Ok(file) => Ok(file@),
        Err(e) => Err(e@),
    }
}

impl FileModel {
    /// The handle that [`StoreFileRef::plain_io`] opens: it holds
    /// `plaintext`, is clean, and has the keys of the governing manifest as
    /// its recipients.
    pub open spec fn opened(self, probes: Seq<ProbeModel>, plaintext: Seq<u8>) -> Result<
        PlainFileState,
        PassErrorView,
    > {
        match key_ids_for(self.path, probes) {
            Ok(read) => match read.complete() {
                Ok(recipients) => Ok(
                    PlainFileState { buffer: plaintext, last_synced: plaintext, recipients },
                ),
                Err(e) => Err(e),
            },
            Err(e) => Err(e),
        }
    }
}

impl StoreFileRef {
    /// Get a handle to the plaintext content of this file.
    ///
    /// `plaintext` is the decrypted content of the file. The handle captures
    /// the keys that the file is encrypted for, which are found as
    /// [`Self::encryption_keys`] finds them from `probes`. Where that fails,
    /// or the manifest could not be read to its end, no handle is opened.
    pub fn plain_io(&self, probes: &Vec<ManifestProbe>, plaintext: Vec<u8>) -> (file: Result<
        RwPlainFile,
        PassError,
    >)
        ensures
            handle_result_view(file) == self@.opened(probes_view(probes@), plaintext@),
    {
        match self.encryption_keys(probes) {
            Ok(read) => match read.into_result() {
                Ok(keys) => Ok(RwPlainFile::new(plaintext, keys)),
                Err(e) => Err(e),
            },
            Err(e) => Err(e),
        }
    }
}

} // verus!
