//! Paths as the byte strings the operating system uses for them.
//!
//! A path is a sequence of bytes in which `/` separates the components.

use vstd::prelude::*;
use vstd::slice::{slice_subrange, slice_to_vec};

verus! {

/// The byte that separates the components of a path.
pub const SEPARATOR: u8 = 0x2f;

/// Whether a component can be appended to `dir` without a separator between
/// them: `dir` is empty or already ends in one.
pub open spec fn ends_at_separator(dir: Seq<u8>) -> bool {
    dir.len() == 0 || dir.last() == SEPARATOR
}

/// `dir` in the form to which a relative path is appended.
pub open spec fn dir_prefix(dir: Seq<u8>) -> Seq<u8> {
    if ends_at_separator(dir) {
        dir
    } else {
        dir.push(SEPARATOR)
    }
}

/// The path that `rel` names when it is taken relative to `dir`.
pub open spec fn joined(dir: Seq<u8>, rel: Seq<u8>) -> Seq<u8> {
    dir_prefix(dir) + rel
}

/// `path` as seen from `root`, if it lies at or below `root`.
pub open spec fn relative_to(path: Seq<u8>, root: Seq<u8>) -> Option<Seq<u8>> {
    if path == root {
        Some(Seq::empty())
    } else if dir_prefix(root).is_prefix_of(path) {
        Some(path.skip(dir_prefix(root).len() as int))
    } else {
        None
    }
}

/// `path` without the separators at its end; a path made of separators only
/// keeps one of them.
pub open spec fn trimmed(path: Seq<u8>) -> Seq<u8>
    decreases path.len(),
{
    if path.len() > 1 && path.last() == SEPARATOR {
        trimmed(path.drop_last())
    } else {
        path
    }
}

/// The index at which the last component of `path` begins: just behind its
/// last separator, or 0 where it holds none.
pub open spec fn last_component_start(path: Seq<u8>) -> int
    decreases path.len(),
{
    if path.len() == 0 || path.last() == SEPARATOR {
        path.len() as int
    } else {
        last_component_start(path.drop_last())
    }
}

/// The last component of `path`, separators at its end left aside.
pub open spec fn file_name_of(path: Seq<u8>) -> Seq<u8> {
    trimmed(path).skip(last_component_start(trimmed(path)))
}

/// Whether `path` names the root of the file system or nothing at all, and so
/// has no directory above it.
pub open spec fn is_topmost(path: Seq<u8>) -> bool {
    trimmed(path).len() == 0 || trimmed(path) == seq![SEPARATOR]
}

/// The directory that holds `path`: `path` without its last component.
pub open spec fn parent_of(path: Seq<u8>) -> Option<Seq<u8>> {
    if is_topmost(path) {
        None
    } else {
        Some(trimmed(trimmed(path).take(last_component_start(trimmed(path)))))
    }
}

/// The directories above `path`, the nearest first.
pub open spec fn ancestors_of(path: Seq<u8>) -> Seq<Seq<u8>>
    decreases path.len(),
    via ancestors_decrease
{
    match parent_of(path) {
        None => Seq::empty(),
        Some(dir) => seq![dir] + ancestors_of(dir),
    }
}

#[via_fn]
proof fn ancestors_decrease(path: Seq<u8>) {
    lemma_parent_is_shorter(path);
}

/// Trimming never lengthens a path, and only a path of separators is
/// trimmed down to one.
pub proof fn lemma_trimmed(path: Seq<u8>)
    ensures
        trimmed(path).len() <= path.len(),
        trimmed(path).is_prefix_of(path),
        path.len() > 0 ==> trimmed(path).len() > 0,
        trimmed(path).len() > 1 ==> trimmed(path).last() != SEPARATOR,
        trimmed(trimmed(path)) == trimmed(path),
    decreases path.len(),
{
    if path.len() > 1 && path.last() == SEPARATOR {
        lemma_trimmed(path.drop_last());
    }
}

/// The last component begins inside the path, behind a separator or at the
/// front, and holds no separator.
pub proof fn lemma_last_component_start(path: Seq<u8>)
    ensures
        0 <= last_component_start(path) <= path.len(),
        last_component_start(path) > 0 ==> path[last_component_start(path) - 1] == SEPARATOR,
        forall|k: int| last_component_start(path) <= k < path.len() ==> path[k] != SEPARATOR,
    decreases path.len(),
{
    if path.len() == 0 || path.last() == SEPARATOR {
    } else {
        let front = path.drop_last();
        lemma_last_component_start(front);
        assert forall|k: int| last_component_start(path) <= k < path.len() implies path[k]
            != SEPARATOR by {
            if k < front.len() {
                assert(path[k] == front[k]);
            }
        }
    }
}

/// The last component reaches back over every stretch at the end of the
/// path that holds no separator.
pub proof fn lemma_last_component_covers(path: Seq<u8>, from: int)
    requires
        0 <= from <= path.len(),
        forall|k: int| from <= k < path.len() ==> path[k] != SEPARATOR,
    ensures
        last_component_start(path) <= from,
    decreases path.len(),
{
    if path.len() == 0 || path.last() == SEPARATOR {
    } else if from < path.len() {
        let front = path.drop_last();
        assert forall|k: int| from <= k < front.len() implies front[k] != SEPARATOR by {
            assert(front[k] == path[k]);
        }
        lemma_last_component_covers(front, from);
    } else {
        lemma_last_component_start(path);
    }
}

/// A parent is strictly shorter than the path it is the parent of.
pub proof fn lemma_parent_is_shorter(path: Seq<u8>)
    ensures
        parent_of(path) matches Some(dir) ==> dir.len() < path.len(),
{
    let t = trimmed(path);
    lemma_trimmed(path);
    lemma_last_component_start(t);
    if !is_topmost(path) {
        let front = t.take(last_component_start(t));
        lemma_trimmed(front);
        if last_component_start(t) == t.len() {
            assert(t.last() == SEPARATOR);
            assert(t =~= seq![SEPARATOR]);
        }
    }
}

/// A path that was joined onto a directory is found again when the result is
/// seen from that directory.
pub proof fn lemma_relative_to_joined(dir: Seq<u8>, rel: Seq<u8>)
    ensures
        relative_to(joined(dir, rel), dir) == Some(rel),
{
    let prefix = dir_prefix(dir);
    let path = joined(dir, rel);
    if path == dir {
        assert(prefix.len() + rel.len() == dir.len());
        assert(rel =~= Seq::<u8>::empty());
    } else {
        assert(prefix =~= path.subrange(0, prefix.len() as int));
        assert(path.skip(prefix.len() as int) =~= rel);
    }
}

/// Two paths joined onto one directory are the same only if they were the
/// same before.
pub proof fn lemma_joined_is_injective(dir: Seq<u8>, a: Seq<u8>, b: Seq<u8>)
    requires
        joined(dir, a) == joined(dir, b),
    ensures
        a == b,
{
    let prefix = dir_prefix(dir);
    assert(joined(dir, a).skip(prefix.len() as int) =~= a);
    assert(joined(dir, b).skip(prefix.len() as int) =~= b);
}

/// The directories above a path begin with its parent and go on with the
/// directories above that; there are no more of them than the path has
/// bytes.
pub proof fn lemma_ancestors_unfold(path: Seq<u8>)
    ensures
        ancestors_of(path).len() <= path.len(),
        parent_of(path) is None <==> ancestors_of(path).len() == 0,
        parent_of(path) matches Some(dir) ==> ancestors_of(path).first() == dir && ancestors_of(
            path,
        ).drop_first() == ancestors_of(dir),
    decreases path.len(),
{
    match parent_of(path) {
        None => {},
        Some(dir) => {
            lemma_parent_is_shorter(path);
            lemma_ancestors_unfold(dir);
            assert(ancestors_of(path).drop_first() =~= ancestors_of(dir));
        },
    }
}

/// Each of the directories above a path has the ones behind it in the
/// sequence above itself.
pub proof fn lemma_ancestors_chain(path: Seq<u8>, k: int)
    requires
        0 <= k < ancestors_of(path).len(),
    ensures
        ancestors_of(ancestors_of(path)[k]) == ancestors_of(path).skip(k + 1),
    decreases k,
{
    lemma_ancestors_unfold(path);
    let dir = parent_of(path)->Some_0;
    if k == 0 {
        assert(ancestors_of(path).skip(1) =~= ancestors_of(path).drop_first());
    } else {
        assert(ancestors_of(dir)[k - 1] == ancestors_of(path)[k]);
        lemma_ancestors_chain(dir, k - 1);
        assert(ancestors_of(dir).skip(k) =~= ancestors_of(path).skip(k + 1));
    }
}

/// Adjoin `rel` to `dir`.
pub fn join(dir: &[u8], rel: &[u8]) -> (path: Vec<u8>)
    ensures
        path@ == joined(dir@, rel@),
{
    let mut path: Vec<u8> = Vec::new();
    path.extend_from_slice(dir);
    if dir.len() > 0 && dir[dir.len() - 1] != SEPARATOR {
        path.push(SEPARATOR);
    }
    assert(path@ =~= dir_prefix(dir@));
    path.extend_from_slice(rel);
    assert(path@ =~= joined(dir@, rel@));
    path
}

/// Whether `path` begins with the bytes of `prefix`.
pub fn starts_with(path: &[u8], prefix: &[u8]) -> (yes: bool)
    ensures
        yes == prefix@.is_prefix_of(path@),
{
    if prefix.len() > path.len() {
        return false;
    }
    let mut i: usize = 0;
    while i < prefix.len()
        invariant
            i <= prefix.len() <= path.len(),
            forall|k: int| 0 <= k < i ==> path@[k] == prefix@[k],
        decreases prefix.len() - i,
    {
        if path[i] != prefix[i] {
            return false;
        }
        i += 1;
    }
    assert(prefix@ =~= path@.subrange(0, prefix@.len() as int));
    true
}

/// Whether `path` ends with the bytes of `suffix`.
pub fn ends_with(path: &[u8], suffix: &[u8]) -> (yes: bool)
    ensures
        yes == suffix@.is_suffix_of(path@),
{
    if suffix.len() > path.len() {
        return false;
    }
    let offset: usize = path.len() - suffix.len();
    let mut i: usize = 0;
    while i < suffix.len()
        invariant
            i <= suffix.len() <= path.len(),
            offset == path.len() - suffix.len(),
            forall|k: int| 0 <= k < i ==> path@[offset + k] == suffix@[k],
        decreases suffix.len() - i,
    {
        if path[offset + i] != suffix[i] {
            assert(path@.subrange(offset as int, path@.len() as int)[i as int] != suffix@[i as int]);
            return false;
        }
        i += 1;
    }
    assert(suffix@ =~= path@.subrange(offset as int, path@.len() as int));
    true
}

/// The bytes of `path` from index `from` on.
pub fn tail(path: &[u8], from: usize) -> (rest: Vec<u8>)
    requires
        from <= path@.len(),
    ensures
        rest@ == path@.skip(from as int),
{
    let rest = slice_to_vec(slice_subrange(path, from, path.len()));
    assert(rest@ =~= path@.skip(from as int));
    rest
}

/// The first `len` bytes of `path`.
pub fn head(path: &[u8], len: usize) -> (front: Vec<u8>)
    requires
        len <= path@.len(),
    ensures
        front@ == path@.take(len as int),
{
    let front = slice_to_vec(slice_subrange(path, 0, len));
    assert(front@ =~= path@.take(len as int));
    front
}

/// Whether two paths hold the same bytes.
pub fn same_bytes(a: &[u8], b: &[u8]) -> (yes: bool)
    ensures
        yes == (a@ == b@),
{
    if a.len() != b.len() {
        return false;
    }
    let yes = starts_with(a, b);
    assert(yes ==> a@ =~= b@);
    yes
}

/// The length of `path` once the separators at its end are left aside.
pub fn trimmed_len(path: &[u8]) -> (len: usize)
    ensures
        len <= path@.len(),
        path@.take(len as int) == trimmed(path@),
{
    let mut len: usize = path.len();
    assert(path@.take(len as int) =~= path@);
    while len > 1 && path[len - 1] == SEPARATOR
        invariant
            len <= path@.len(),
            trimmed(path@.take(len as int)) == trimmed(path@),
        decreases len,
    {
        assert(path@.take(len as int).drop_last() =~= path@.take(len - 1));
        len -= 1;
    }
    len
}

/// The index at which the last component of the first `len` bytes of `path`
/// begins.
fn component_start(path: &[u8], len: usize) -> (start: usize)
    requires
        len <= path@.len(),
    ensures
        start == last_component_start(path@.take(len as int)),
        start <= len,
{
    let mut start: usize = len;
    while start > 0 && path[start - 1] != SEPARATOR
        invariant
            start <= len <= path@.len(),
            last_component_start(path@.take(start as int)) == last_component_start(
                path@.take(len as int),
            ),
        decreases start,
    {
        assert(path@.take(start as int).drop_last() =~= path@.take(start - 1));
        start -= 1;
    }
    start
}

/// The last component of `path`.
pub fn file_name(path: &[u8]) -> (name: Vec<u8>)
    ensures
        name@ == file_name_of(path@),
{
    let len = trimmed_len(path);
    let start = component_start(path, len);
    let name = slice_to_vec(slice_subrange(path, start, len));
    assert(name@ =~= file_name_of(path@));
    name
}

/// The directory that holds `path`, or `None` where `path` is the root of
/// the file system or empty.
pub fn parent(path: &[u8]) -> (dir: Option<Vec<u8>>)
    ensures
        match dir {
            Some(d) => parent_of(path@) == Some(d@),
            None => parent_of(path@) is None,
        },
{
    let len = trimmed_len(path);
    if len == 0 || (len == 1 && path[0] == SEPARATOR) {
        assert(len == 1 ==> path@.take(1) =~= seq![SEPARATOR]);
        return None;
    }
    assert(trimmed(path@) != seq![SEPARATOR]) by {
        assert(trimmed(path@).len() == len);
        assert(seq![SEPARATOR].len() == 1);
        if len == 1 {
            assert(trimmed(path@)[0] == path@[0]);
            assert(seq![SEPARATOR][0] == SEPARATOR);
        }
    }
    let start = component_start(path, len);
    let front = slice_subrange(path, 0, start);
    assert(front@ =~= trimmed(path@).take(start as int));
    let keep = trimmed_len(front);
    Some(head(front, keep))
}

} // verus!
