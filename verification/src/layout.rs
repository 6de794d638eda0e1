//! The reserved names of a password store's on-disk layout.

use crate::paths::{ends_with, head};
use vstd::prelude::*;
use vstd::utf8::{
    encode_utf8, encode_utf8_valid_utf8, is_ascii_chars, is_ascii_chars_encode_utf8,
    is_char_boundary_iff_not_is_continuation_byte, is_continuation_byte, valid_utf8,
    valid_utf8_split,
};

verus! {

/// The suffix `.gpg`, which marks a regular file as a secret of the store.
pub open spec fn secret_suffix() -> Seq<u8> {
    seq![0x2eu8, 0x67u8, 0x70u8, 0x67u8]
}

/// The file name `.gpg-id` of the key manifest, which lists the identifiers
/// of the keys that the secrets at and below its directory are encrypted
/// for.
pub open spec fn manifest_name() -> Seq<u8> {
    seq![0x2eu8, 0x67u8, 0x70u8, 0x67u8, 0x2du8, 0x69u8, 0x64u8]
}

/// Whether `path` ends in the secret suffix.
pub open spec fn has_secret_suffix(path: Seq<u8>) -> bool {
    secret_suffix().is_suffix_of(path)
}

/// `path` without the secret suffix at its end.
pub open spec fn without_secret_suffix(path: Seq<u8>) -> Seq<u8>
    recommends
        has_secret_suffix(path),
{
    path.take(path.len() - secret_suffix().len())
}

/// Whether a file of this name is a secret: the name has the secret suffix
/// and something in front of it.
pub open spec fn is_secret_file_name(name: Seq<u8>) -> bool {
    has_secret_suffix(name) && name.len() > secret_suffix().len()
}

/// The secret suffix is the UTF-8 form of the text `.gpg`.
pub proof fn lemma_secret_suffix_is_text()
    ensures
        valid_utf8(secret_suffix()),
        secret_suffix() == encode_utf8(seq!['.', 'g', 'p', 'g']),
{
    let text = seq!['.', 'g', 'p', 'g'];
    assert(is_ascii_chars(text));
    is_ascii_chars_encode_utf8(text);
    assert(encode_utf8(text) =~= secret_suffix()) by {
        assert(text[0] as u8 == 0x2eu8);
        assert(text[1] as u8 == 0x67u8);
        assert(text[2] as u8 == 0x70u8);
        assert(text[3] as u8 == 0x67u8);
    }
    encode_utf8_valid_utf8(text);
}

/// A path that was given the secret suffix has it, and is found again when
/// the suffix is taken off.
pub proof fn lemma_suffix_added(stem: Seq<u8>)
    ensures
        has_secret_suffix(stem + secret_suffix()),
        without_secret_suffix(stem + secret_suffix()) == stem,
{
    let path = stem + secret_suffix();
    assert(path.subrange(path.len() - secret_suffix().len(), path.len() as int)
        =~= secret_suffix());
    assert(path.take(path.len() - secret_suffix().len()) =~= stem);
}

/// A text that ends in the secret suffix is a text without it, too.
pub proof fn lemma_suffix_removed(path: Seq<u8>)
    requires
        valid_utf8(path),
        has_secret_suffix(path),
    ensures
        valid_utf8(without_secret_suffix(path)),
{
    let cut = path.len() - secret_suffix().len();
    assert(path[cut] == secret_suffix()[0]) by {
        assert(path.subrange(cut, path.len() as int)[0] == secret_suffix()[0]);
    }
    assert(!is_continuation_byte(path[cut]));
    is_char_boundary_iff_not_is_continuation_byte(path, cut);
    valid_utf8_split(path, cut);
    assert(path.subrange(0, cut) =~= without_secret_suffix(path));
}

/// The secret suffix.
pub fn secret_suffix_bytes() -> (suffix: Vec<u8>)
    ensures
        suffix@ == secret_suffix(),
{
    let mut suffix: Vec<u8> = Vec::new();
    suffix.push(0x2e);
    suffix.push(0x67);
    suffix.push(0x70);
    suffix.push(0x67);
    assert(suffix@ =~= secret_suffix());
    suffix
}

/// The file name of the key manifest.
pub fn manifest_name_bytes() -> (name: Vec<u8>)
    ensures
        name@ == manifest_name(),
{
    let mut name: Vec<u8> = secret_suffix_bytes();
    name.push(0x2d);
    name.push(0x69);
    name.push(0x64);
    assert(name@ =~= manifest_name());
    name
}

/// Whether `path` ends in the secret suffix.
pub fn ends_in_secret_suffix(path: &[u8]) -> (yes: bool)
    ensures
        yes == has_secret_suffix(path@),
{
    let suffix = secret_suffix_bytes();
    ends_with(path, suffix.as_slice())
}

/// Whether a file of this name is a secret.
pub fn names_secret_file(name: &[u8]) -> (yes: bool)
    ensures
        yes == is_secret_file_name(name@),
{
    let suffix = secret_suffix_bytes();
    name.len() > suffix.len() && ends_with(name, suffix.as_slice())
}

/// `path` without the secret suffix at its end.
pub fn strip_secret_suffix(path: &[u8]) -> (stem: Vec<u8>)
    requires
        has_secret_suffix(path@),
    ensures
        stem@ == without_secret_suffix(path@),
{
    let suffix = secret_suffix_bytes();
    head(path, path.len() - suffix.len())
}

} // verus!
