use libpass::layout::{
    ends_in_secret_suffix, manifest_name_bytes, names_secret_file, secret_suffix_bytes,
    strip_secret_suffix,
};

#[test]
fn the_reserved_names_are_those_of_pass() {
    assert_eq!(secret_suffix_bytes(), b".gpg".to_vec());
    assert_eq!(manifest_name_bytes(), b".gpg-id".to_vec());
}

#[test]
fn a_secret_file_has_the_suffix_and_something_before_it() {
    assert!(names_secret_file(b"secret.gpg"));
    assert!(names_secret_file(b"a.gpg"));
    assert!(names_secret_file(b"..gpg"));
    assert!(names_secret_file(b"archive.tar.gpg"));
    assert!(!names_secret_file(b".gpg"));
    assert!(!names_secret_file(b"gpg"));
    assert!(!names_secret_file(b""));
    assert!(!names_secret_file(b"secret.GPG"));
    assert!(!names_secret_file(b"secret.gpg "));
    assert!(!names_secret_file(b"secret.gpg.bak"));
    assert!(!names_secret_file(b".gpg-id"));
}

#[test]
fn the_suffix_is_told_by_the_last_bytes() {
    assert!(ends_in_secret_suffix(b"folder/secret.gpg"));
    assert!(ends_in_secret_suffix(b".gpg"));
    assert!(!ends_in_secret_suffix(b"pg"));
    assert!(!ends_in_secret_suffix(b"folder/secret.gpg/"));
}

#[test]
fn the_suffix_is_taken_off_the_end() {
    assert_eq!(strip_secret_suffix(b"folder/secret.gpg"), b"folder/secret".to_vec());
    assert_eq!(strip_secret_suffix(b"a.gpg.gpg"), b"a.gpg".to_vec());
    assert_eq!(strip_secret_suffix(b".gpg"), b"".to_vec());
}
