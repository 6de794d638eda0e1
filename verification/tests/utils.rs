use libpass::errors::PassError;
use libpass::utils::{
    abspath2relpath, canonicalize_path, configured_store_dir, expand_home, expand_with, path2str,
    Expanded,
};
use libpass::{password_store_dir, store_root, PASSWORD_STORE_DIR_ENV};

#[test]
fn test_get_store_dir() {
    assert_eq!(password_store_dir(None), canonicalize_path(b"~/.password-store"));

    let configured = "/work/tests/simple";
    let dir = password_store_dir(Some(configured)).unwrap();
    assert_eq!(
        store_root(dir, Some(b"/work/tests/simple".to_vec())).unwrap(),
        b"/work/tests/simple".to_vec()
    );
}

#[test]
fn the_store_root_is_what_the_file_system_made_of_the_configured_path() {
    let relative = Expanded { path: b"stores/../stores/mine".to_vec() };
    assert_eq!(
        store_root(relative, Some(b"/home/alice/stores/mine".to_vec())),
        Ok(b"/home/alice/stores/mine".to_vec())
    );
    let through_a_link = Expanded { path: b"/link/to/store".to_vec() };
    assert_eq!(store_root(through_a_link, Some(b"/srv/store".to_vec())), Ok(b"/srv/store".to_vec()));
}

#[test]
fn without_a_directory_at_the_configured_path_there_is_no_store() {
    let missing = Expanded { path: b"/home/alice/.password-store".to_vec() };
    assert_eq!(
        store_root(missing, None),
        Err(PassError::PasswordStoreNotFound(b"/home/alice/.password-store".to_vec()))
    );
}

#[test]
fn the_environment_variable_has_its_usual_name() {
    assert_eq!(PASSWORD_STORE_DIR_ENV, "PASSWORD_STORE_DIR");
}

#[test]
fn the_store_lies_below_home_unless_configured_otherwise() {
    assert_eq!(configured_store_dir(None), b"~/.password-store".to_vec());
    assert_eq!(configured_store_dir(Some("/srv/pass")), b"/srv/pass".to_vec());
    assert_eq!(configured_store_dir(Some("")), b"".to_vec());
}

#[test]
fn a_path_is_seen_from_the_store_root() {
    assert_eq!(abspath2relpath(b"/store/folder/x.gpg", b"/store"), Ok(b"folder/x.gpg".to_vec()));
    assert_eq!(abspath2relpath(b"/store/x", b"/store/"), Ok(b"x".to_vec()));
    assert_eq!(abspath2relpath(b"/store", b"/store"), Ok(b"".to_vec()));
    assert_eq!(abspath2relpath(b"/store/", b"/store"), Ok(b"".to_vec()));
    assert_eq!(abspath2relpath(b"/x", b"/"), Ok(b"x".to_vec()));
    assert_eq!(abspath2relpath(b"x/y", b""), Ok(b"x/y".to_vec()));
}

#[test]
fn a_path_outside_the_store_is_rejected() {
    assert_eq!(
        abspath2relpath(b"/storeroom/x", b"/store"),
        Err(PassError::InvalidStoreFormat(
            b"/storeroom/x".to_vec(),
            "Path is not inside password store".to_string()
        ))
    );
    assert_eq!(
        abspath2relpath(b"/etc/passwd", b"/store"),
        Err(PassError::InvalidStoreFormat(
            b"/etc/passwd".to_vec(),
            "Path is not inside password store".to_string()
        ))
    );
    assert_eq!(
        abspath2relpath(b"/stor", b"/store"),
        Err(PassError::InvalidStoreFormat(
            b"/stor".to_vec(),
            "Path is not inside password store".to_string()
        ))
    );
}

#[test]
fn a_path_is_decoded_as_utf8() {
    assert_eq!(path2str(b"folder/secret"), Ok("folder/secret".to_string()));
    assert_eq!(path2str(b""), Ok(String::new()));
    assert_eq!(path2str(&[0x67, 0x72, 0xc3, 0xbc, 0x6e]), Ok("gr\u{fc}n".to_string()));
    assert_eq!(path2str(&[0xe2, 0x82, 0xac]), Ok("\u{20ac}".to_string()));
}

#[test]
fn a_path_that_is_not_utf8_is_rejected() {
    assert_eq!(path2str(&[0xff, 0x61]), Err(PassError::PathDecodingError(vec![0xff, 0x61])));
    assert_eq!(path2str(&[0xc3]), Err(PassError::PathDecodingError(vec![0xc3])));
    assert_eq!(path2str(&[0x61, 0x80]), Err(PassError::PathDecodingError(vec![0x61, 0x80])));
}

#[test]
fn a_tilde_at_the_front_stands_for_home() {
    assert_eq!(
        expand_home(b"~/.password-store", b"/home/alice"),
        Expanded { path: b"/home/alice/.password-store".to_vec() }
    );
    assert_eq!(expand_home(b"~", b"/home/alice"), Expanded { path: b"/home/alice/".to_vec() });
    assert_eq!(expand_home(b"~/", b"/home/alice"), Expanded { path: b"/home/alice/".to_vec() });
    assert_eq!(expand_home(b"~/a/b", b"/"), Expanded { path: b"/a/b".to_vec() });
}

#[test]
fn a_tilde_elsewhere_is_an_ordinary_byte() {
    assert_eq!(expand_home(b"~alice/x", b"/home/alice"), Expanded { path: b"~alice/x".to_vec() });
    assert_eq!(expand_home(b"/srv/~", b"/home/alice"), Expanded { path: b"/srv/~".to_vec() });
    assert_eq!(expand_home(b"/srv/pass", b"/home/alice"), Expanded { path: b"/srv/pass".to_vec() });
    assert_eq!(expand_home(b"stores/mine", b"/home/alice"), Expanded { path: b"stores/mine".to_vec() });
    assert_eq!(expand_home(b"", b"/home/alice"), Expanded { path: b"".to_vec() });
}

#[test]
fn the_home_directory_has_to_be_known() {
    let unknown = Err(PassError::IOError {
        source: "could not retrieve users home directory".to_string(),
    });
    assert_eq!(expand_with(b"~/.password-store", None), unknown);
    assert_eq!(expand_with(b"/srv/pass", None), unknown);
    assert_eq!(
        expand_with(b"~/.password-store", Some(b"/home/alice".to_vec())),
        Ok(Expanded { path: b"/home/alice/.password-store".to_vec() })
    );
    assert_eq!(
        expand_with(b"/srv/pass", Some(b"/home/alice".to_vec())),
        Ok(Expanded { path: b"/srv/pass".to_vec() })
    );
}

#[test]
fn only_a_tilde_is_replaced_whoever_the_user_is() {
    let unknown =
        PassError::IOError { source: "could not retrieve users home directory".to_string() };
    match canonicalize_path(b"/srv/pass") {
        Ok(dir) => assert_eq!(dir.path, b"/srv/pass".to_vec()),
        Err(e) => assert_eq!(e, unknown),
    }
    match canonicalize_path(b"~/x") {
        Ok(dir) => {
            assert!(dir.path.ends_with(b"/x"));
            assert!(!dir.path.starts_with(b"~"));
        }
        Err(e) => assert_eq!(e, unknown),
    }
}
