//! Key manifests: which one governs a file, and which keys it lists.
//!
//! A key manifest is a file named `.gpg-id`. It lists, one per line, the
//! identifiers of the keys for which the secrets at and below its directory
//! are encrypted. The manifest nearest to a file governs it in full:
//! manifests further up are not consulted.

use crate::errors::{
    PassError, PassErrorView, MANIFEST_NOT_A_FILE, NOT_TEXT, NO_MANIFEST, NO_PARENT,
};
use crate::layout::manifest_name;
use crate::paths::{ancestors_of, joined};
use crate::snapshot::ProbeModel;
use crate::utils::text_from_utf8;
use vstd::prelude::*;
use vstd::slice::{slice_subrange, slice_to_vec};
use vstd::utf8::{decode_utf8, valid_utf8};

verus! {

/// The byte that ends a line.
pub const NEWLINE: u8 = 0x0a;

/// Whether `byte` is white space: a blank, a tab, or one of the bytes that
/// break a line.
pub open spec fn is_blank(byte: u8) -> bool {
    byte == 0x20 || (0x09 <= byte && byte <= 0x0d)
}

/// `line` without the white space at its end.
pub open spec fn trimmed_end(line: Seq<u8>) -> Seq<u8>
    decreases line.len(),
{
    if line.len() > 0 && is_blank(line.last()) {
        trimmed_end(line.drop_last())
    } else {
        line
    }
}

/// `line` without the white space at its front.
pub open spec fn trimmed_start(line: Seq<u8>) -> Seq<u8>
    decreases line.len(),
{
    if line.len() > 0 && is_blank(line.first()) {
        trimmed_start(line.drop_first())
    } else {
        line
    }
}

/// `line` without the white space around it.
pub open spec fn trimmed_line(line: Seq<u8>) -> Seq<u8> {
    trimmed_start(trimmed_end(line))
}

/// The length of the first line of `content`, its line end not counted.
pub open spec fn first_line_len(content: Seq<u8>) -> int
    decreases content.len(),
{
    if content.len() == 0 || content.first() == NEWLINE {
        0
    } else {
        1 + first_line_len(content.drop_first())
    }
}

/// What follows the first line of `content`.
pub open spec fn after_first_line(content: Seq<u8>) -> Seq<u8> {
    if first_line_len(content) < content.len() {
        content.skip(first_line_len(content) + 1)
    } else {
        Seq::empty()
    }
}

/// The key identifiers that a manifest of this content lists: its lines
/// without the white space around them, in their order, those left out of
/// which nothing remains.
pub open spec fn listed_ids(content: Seq<u8>) -> Seq<Seq<u8>>
    decreases content.len(),
    via listed_ids_decreases
{
    if content.len() == 0 {
        Seq::empty()
    } else {
        let id = trimmed_line(content.take(first_line_len(content)));
        if id.len() > 0 {
            seq![id] + listed_ids(after_first_line(content))
        } else {
            listed_ids(after_first_line(content))
        }
    }
}

#[via_fn]
proof fn listed_ids_decreases(content: Seq<u8>) {
    lemma_first_line_len(content);
}

/// The first line ends inside the content, at a line end or at the end of
/// the content, and holds no line end.
pub proof fn lemma_first_line_len(content: Seq<u8>)
    ensures
        0 <= first_line_len(content) <= content.len(),
        first_line_len(content) < content.len() ==> content[first_line_len(content)] == NEWLINE,
        forall|k: int| 0 <= k < first_line_len(content) ==> content[k] != NEWLINE,
        content.len() > 0 ==> after_first_line(content).len() < content.len(),
    decreases content.len(),
{
    if content.len() == 0 || content.first() == NEWLINE {
    } else {
        let rest = content.drop_first();
        lemma_first_line_len(rest);
        assert forall|k: int| 0 <= k < first_line_len(content) implies content[k] != NEWLINE by {
            if k > 0 {
                assert(content[k] == rest[k - 1]);
            }
        }
    }
}

/// The key identifiers that were read from a manifest.
///
/// A manifest is read line by line. Where a line is not text, reading stops
/// there: `ids` holds the identifiers of the lines before it, and `failure`
/// the error that ends the reading. The keys of `ids` are to be resolved in
/// their order before `failure` is reported, so that a key that cannot be
/// resolved is met before a later line that is not text.
#[derive(Debug, PartialEq, Eq)]
pub struct KeyIds {
    /// The identifiers that were read, in the order of their lines.
    pub ids: Vec<String>,
    /// The error that ended the reading, if one did.
    pub failure: Option<PassError>,
}

/// The mathematical value of a [`KeyIds`].
pub struct KeyIdsModel {
    /// The identifiers that were read.
    pub ids: Seq<Seq<char>>,
    /// The error that ended the reading, if one did.
    pub failure: Option<PassErrorView>,
}

impl View for KeyIds {
    type V = KeyIdsModel;

    open spec fn view(&self) -> KeyIdsModel {
        KeyIdsModel {
            ids: self.ids.deep_view(),
            failure: match self.failure {
                Some(e) => Some(e@),
                None => None,
            },
        }
    }
}

impl KeyIdsModel {
    /// The identifiers, unless the reading of the manifest failed.
    pub open spec fn complete(self) -> Result<Seq<Seq<char>>, PassErrorView> {
        match self.failure {
            Some(e) => Err(e),
            None => Ok(self.ids),
        }
    }
}

impl KeyIds {
    /// The identifiers, unless the reading of the manifest failed.
    pub fn into_result(self) -> (ids: Result<Vec<String>, PassError>)
        ensures
            ids_result_view(ids) == self@.complete(),
    {
        match self.failure {
            Some(e) => Err(e),
            None => Ok(self.ids),
        }
    }
}

/// The number of identifiers at the front of `ids` that are text: the index
/// of the first that is not, or the number of them all.
pub open spec fn text_prefix_len(ids: Seq<Seq<u8>>) -> int
    decreases ids.len(),
{
    if ids.len() == 0 || !valid_utf8(ids.first()) {
        0
    } else {
        1 + text_prefix_len(ids.drop_first())
    }
}

/// The identifiers at the front are text up to the first that is not.
pub proof fn lemma_text_prefix_len(ids: Seq<Seq<u8>>, upto: int)
    requires
        0 <= upto <= ids.len(),
        forall|k: int| 0 <= k < upto ==> valid_utf8(#[trigger] ids[k]),
        upto < ids.len() ==> !valid_utf8(ids[upto]),
    ensures
        text_prefix_len(ids) == upto,
    decreases ids.len(),
{
    if upto > 0 {
        let rest = ids.drop_first();
        assert(valid_utf8(ids[0]));
        assert forall|k: int| 0 <= k < upto - 1 implies valid_utf8(#[trigger] rest[k]) by {
            assert(rest[k] == ids[k + 1]);
        }
        if upto - 1 < rest.len() {
            assert(rest[upto - 1] == ids[upto]);
        }
        lemma_text_prefix_len(rest, upto - 1);
    }
}

/// What is read from a manifest of this content: the identifiers of its
/// lines as text, up to the first that is not text.
pub open spec fn parsed_ids(content: Seq<u8>) -> KeyIdsModel {
    let raw = listed_ids(content);
    let read = text_prefix_len(raw);
    KeyIdsModel {
        ids: Seq::new(read as nat, |i: int| decode_utf8(raw[i])),
        failure: if read < raw.len() {
            Some(PassErrorView::IOError(NOT_TEXT@))
        } else {
            None
        },
    }
}

/// What stands in the place of the manifest in the directory of index `k`;
/// a directory that `probes` does not speak of counts as without one.
pub open spec fn probe_at(probes: Seq<ProbeModel>, k: int) -> ProbeModel {
    if 0 <= k < probes.len() {
        probes[k]
    } else {
        ProbeModel::Absent
    }
}

/// The index of the nearest directory, among the first `limit`, in which
/// something stands in the place of the manifest.
pub open spec fn nearest_present(probes: Seq<ProbeModel>, limit: int) -> Option<int>
    decreases limit,
{
    if limit <= 0 {
        None
    } else {
        match nearest_present(probes, limit - 1) {
            Some(k) => Some(k),
            None => if probe_at(probes, limit - 1) is Absent {
                None
            } else {
                Some(limit - 1)
            },
        }
    }
}

/// The paths at which a manifest may govern the file at `path`: one in each
/// directory above the file, the nearest first.
pub open spec fn manifest_candidates_of(path: Seq<u8>) -> Seq<Seq<u8>> {
    Seq::new(ancestors_of(path).len(), |k: int| joined(ancestors_of(path)[k], manifest_name()))
}

/// The identifiers of the keys for which the file at `path` is encrypted,
/// where `probes[k]` tells what stands at the manifest candidate of index
/// `k`.
///
/// The nearest directory in which something stands in the manifest's place
/// decides: a manifest there gives the keys, anything else is an error.
pub open spec fn key_ids_for(path: Seq<u8>, probes: Seq<ProbeModel>) -> Result<
    KeyIdsModel,
    PassErrorView,
> {
    let dirs = ancestors_of(path);
    if dirs.len() == 0 {
        Err(PassErrorView::InvalidStoreFormat(path, NO_PARENT@))
    } else {
        match nearest_present(probes, dirs.len() as int) {
            None => Err(PassErrorView::InvalidStoreFormat(dirs.last(), NO_MANIFEST@)),
            Some(k) => match probe_at(probes, k) {
                ProbeModel::Manifest(content) => Ok(parsed_ids(content)),
                _ => Err(
                    PassErrorView::InvalidStoreFormat(
                        joined(dirs[k], manifest_name()),
                        MANIFEST_NOT_A_FILE@,
                    ),
                ),
            },
        }
    }
}

/// The nearest manifest governs a file in full. Where the directories
/// nearer to the file hold no manifest, the keys of the file are those that
/// the manifest at hand lists, whatever stands in the directories further
/// up.
pub proof fn lemma_nearest_manifest_governs(
    path: Seq<u8>,
    probes: Seq<ProbeModel>,
    k: int,
    content: Seq<u8>,
)
    requires
        0 <= k < ancestors_of(path).len(),
        k < probes.len(),
        probes[k] == ProbeModel::Manifest(content),
        forall|j: int| 0 <= j < k ==> probes[j] is Absent,
    ensures
        key_ids_for(path, probes) == Ok::<KeyIdsModel, PassErrorView>(parsed_ids(content)),
{
    lemma_nearest_present(probes, k, ancestors_of(path).len() as int);
}

/// The nearest directory in which something stands is found, however far
/// the search goes on beyond it.
pub proof fn lemma_nearest_present(probes: Seq<ProbeModel>, k: int, limit: int)
    requires
        0 <= k < limit,
        !(probe_at(probes, k) is Absent),
        forall|j: int| 0 <= j < k ==> probe_at(probes, j) is Absent,
    ensures
        nearest_present(probes, limit) == Some(k),
    decreases limit,
{
    if limit - 1 > k {
        lemma_nearest_present(probes, k, limit - 1);
    } else {
        lemma_none_present(probes, k);
    }
}

/// Once the nearest directory in which something stands is found, it stays
/// the nearest however far the search goes on.
pub proof fn lemma_nearest_stays(probes: Seq<ProbeModel>, k: int, limit: int)
    requires
        0 <= k < limit,
        nearest_present(probes, k) is None,
        !(probe_at(probes, k) is Absent),
    ensures
        nearest_present(probes, limit) == Some(k),
    decreases limit,
{
    if limit - 1 > k {
        lemma_nearest_stays(probes, k, limit - 1);
    }
}

/// Where nothing stands in any of the first directories, none of them is
/// found.
pub proof fn lemma_none_present(probes: Seq<ProbeModel>, limit: int)
    requires
        forall|j: int| 0 <= j < limit ==> probe_at(probes, j) is Absent,
    ensures
        nearest_present(probes, limit) is None,
    decreases limit,
{
    if limit > 0 {
        lemma_none_present(probes, limit - 1);
    }
}

/// The view of a fallible sequence of identifiers.
pub open spec fn ids_result_view(r: Result<Vec<String>, PassError>) -> Result<
    Seq<Seq<char>>,
    PassErrorView,
> {
    match r {
        Ok(ids) => Ok(ids.deep_view()),
        Err(e) => Err(e@),
    }
}

/// The view of the outcome of a search for key identifiers.
pub open spec fn key_ids_result_view(r: Result<KeyIds, PassError>) -> Result<
    KeyIdsModel,
    PassErrorView,
> {
    match r {
        Ok(read) => Ok(read@),
        Err(e) => Err(e@),
    }
}

/// Whether `byte` is white space.
pub fn blank(byte: u8) -> (yes: bool)
    ensures
        yes == is_blank(byte),
{
    byte == 0x20 || (0x09 <= byte && byte <= 0x0d)
}

/// The bytes of `line` between `from` and `to`, without the white space
/// around them.
fn trim(line: &[u8], from: usize, to: usize) -> (id: Vec<u8>)
    requires
        from <= to <= line@.len(),
    ensures
        id@ == trimmed_line(line@.subrange(from as int, to as int)),
{
    let ghost whole = line@.subrange(from as int, to as int);
    let mut end: usize = to;
    assert(line@.subrange(from as int, end as int) =~= whole);
    while end > from && blank(line[end - 1])
        invariant
            from <= end <= to <= line@.len(),
            trimmed_end(line@.subrange(from as int, end as int)) == trimmed_end(whole),
        decreases end,
    {
        assert(line@.subrange(from as int, end as int).drop_last() =~= line@.subrange(
            from as int,
            end - 1,
        ));
        end -= 1;
    }
    let ghost kept = line@.subrange(from as int, end as int);
    assert(trimmed_end(whole) == kept);
    let mut start: usize = from;
    while start < end && blank(line[start])
        invariant
            from <= start <= end <= line@.len(),
            trimmed_start(line@.subrange(start as int, end as int)) == trimmed_start(kept),
        decreases end - start,
    {
        assert(line@.subrange(start as int, end as int).drop_first() =~= line@.subrange(
            start + 1,
            end as int,
        ));
        start += 1;
    }
    slice_to_vec(slice_subrange(line, start, end))
}

/// The key identifiers that a manifest of this content lists, as bytes.
fn split_ids(content: &[u8]) -> (ids: Vec<Vec<u8>>)
    ensures
        ids.deep_view() == listed_ids(content@),
{
    let mut ids: Vec<Vec<u8>> = Vec::new();
    let mut pos: usize = 0;
    assert(content@.skip(0) =~= content@);
    assert(ids.deep_view() =~= Seq::<Seq<u8>>::empty());
    while pos < content.len()
        invariant
            pos <= content@.len(),
            ids.deep_view() + listed_ids(content@.skip(pos as int)) == listed_ids(content@),
        decreases content@.len() - pos,
    {
        let ghost rest = content@.skip(pos as int);
        let ghost before = ids.deep_view();
        let mut end: usize = pos;
        assert(rest.take(0) =~= Seq::<u8>::empty());
        while end < content.len() && content[end] != NEWLINE
            invariant
                pos <= end <= content@.len(),
                rest == content@.skip(pos as int),
                first_line_len(rest) == (end - pos) + first_line_len(content@.skip(end as int)),
            decreases content@.len() - end,
        {
            assert(content@.skip(end as int).drop_first() =~= content@.skip(end + 1));
            end += 1;
        }
        assert(first_line_len(rest) == end - pos);
        let id = trim(content, pos, end);
        assert(rest.take(end - pos) =~= content@.subrange(pos as int, end as int));
        let next: usize = if end < content.len() {
            end + 1
        } else {
            end
        };
        assert(after_first_line(rest) =~= content@.skip(next as int));
        if id.len() > 0 {
            assert(id.deep_view() =~= id@);
            ids.push(id);
            assert(ids.deep_view() =~= before + seq![id@]);
            assert(before + (seq![id@] + listed_ids(content@.skip(next as int))) =~= (before
                + seq![id@]) + listed_ids(content@.skip(next as int)));
        }
        pos = next;
    }
    assert(listed_ids(content@.skip(pos as int)) =~= Seq::<Seq<u8>>::empty());
    assert(ids.deep_view() + Seq::<Seq<u8>>::empty() =~= ids.deep_view());
    ids
}

/// Read the key identifiers that a manifest of this content lists.
///
/// Every line names one key. White space around an identifier is dropped,
/// and so are lines that hold nothing else. Reading stops at the first line
/// that is not text.
pub fn parse_key_ids(content: &[u8]) -> (read: KeyIds)
    ensures
        read@ == parsed_ids(content@),
{
    let raw = split_ids(content);
    let mut ids: Vec<String> = Vec::new();
    let mut failure: Option<PassError> = None;
    let mut i: usize = 0;
    assert(ids.deep_view() =~= Seq::<Seq<char>>::empty());
    while i < raw.len() && failure.is_none()
        invariant
            i <= raw.len(),
            raw.deep_view() == listed_ids(content@),
            forall|k: int| 0 <= k < ids.deep_view().len() ==> valid_utf8(
                #[trigger] raw.deep_view()[k],
            ),
            forall|k: int|
                0 <= k < ids.deep_view().len() ==> (#[trigger] ids.deep_view()[k]) == decode_utf8(
                    raw.deep_view()[k],
                ),
            match failure {
                None => ids.deep_view().len() == i,
                Some(e) => {
                    &&& e@ == PassErrorView::IOError(NOT_TEXT@)
                    &&& ids.deep_view().len() < raw.len()
                    &&& !valid_utf8(raw.deep_view()[ids.deep_view().len() as int])
                },
            },
        decreases raw.len() - i,
    {
        let ghost before = ids.deep_view();
        assert(raw.deep_view()[i as int] == raw[i as int]@);
        match text_from_utf8(raw[i].as_slice()) {
            Some(text) => {
                ids.push(text);
                assert(ids.deep_view() =~= before.push(text@));
            },
            None => {
                failure = Some(PassError::IOError { source: NOT_TEXT.to_owned() });
            },
        }
        i += 1;
    }
    proof {
        lemma_text_prefix_len(listed_ids(content@), ids.deep_view().len() as int);
        assert(ids.deep_view() =~= parsed_ids(content@).ids);
    }
    KeyIds { ids, failure }
}

} // verus!
