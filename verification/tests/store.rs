use libpass::errors::PassError;
use libpass::file_io::SyncPlan;
use libpass::keys::KeyIds;
use libpass::snapshot::{DirChild, FsNode, ManifestProbe};
use libpass::store_entry::{StoreDirectoryRef, StoreEntry, StoreFileRef};
use libpass::{candidate_dir_path, candidate_file_path, list, listing_needed, retrieve};
use std::collections::HashSet;

/// Where the store of these tests lies.
const STORE: &[u8] = b"/work/tests/simple";

fn file(name: &str) -> DirChild {
    DirChild { name: name.as_bytes().to_vec(), node: FsNode::File }
}

fn dir(name: &str, children: Vec<DirChild>) -> DirChild {
    DirChild { name: name.as_bytes().to_vec(), node: FsNode::Directory(children) }
}

/// What the directory of the store holds.
fn simple_store() -> FsNode {
    FsNode::Directory(vec![
        file(".gpg-id"),
        dir(
            "folder",
            vec![
                dir("subfolder", vec![file("generated-a.gpg"), file("generated-b.gpg")]),
                file("subsecret-a.gpg"),
                file("subsecret-b.gpg"),
            ],
        ),
        dir("folder2", vec![file("subsecret-a.gpg")]),
        file("secret-a.gpg"),
        file("secret-b.gpg"),
    ])
}

/// What stands at `path`, as a file system would resolve it.
fn look_up(path: &[u8]) -> Option<FsNode> {
    if !path.starts_with(STORE) {
        return None;
    }
    let mut node = simple_store();
    for component in path[STORE.len()..].split(|byte| *byte == b'/') {
        if component.is_empty() {
            continue;
        }
        let children = match node {
            FsNode::Directory(children) => children,
            _ => return None,
        };
        node = children.into_iter().find(|child| child.name == component)?.node;
    }
    Some(node)
}

/// What stands at the manifest candidates of `file`.
fn probe_manifests(file: &StoreFileRef) -> Vec<ManifestProbe> {
    file.manifest_candidates()
        .iter()
        .map(|candidate| match look_up(candidate) {
            None => ManifestProbe::Absent,
            Some(FsNode::File) => ManifestProbe::Manifest(b"8497251104B6F45F\n".to_vec()),
            Some(_) => ManifestProbe::NotAFile,
        })
        .collect()
}

/// The plaintext that decrypting the file at `path` gives.
fn decrypt(path: &[u8]) -> Vec<u8> {
    assert_eq!(look_up(path), Some(FsNode::File));
    b"foobar123\n".to_vec()
}

fn retrieve_entry(pass_name: &str) -> Result<StoreEntry, PassError> {
    retrieve(
        STORE,
        pass_name,
        &look_up(&candidate_dir_path(STORE, pass_name)),
        &look_up(&candidate_file_path(STORE, pass_name)),
    )
}

fn retrieve_file(pass_name: &str) -> StoreFileRef {
    match retrieve_entry(pass_name).unwrap() {
        StoreEntry::File(file) => file,
        StoreEntry::Directory(_) => panic!("not a file"),
    }
}

fn in_store(rel: &str) -> Vec<u8> {
    let mut path = STORE.to_vec();
    path.push(b'/');
    path.extend_from_slice(rel.as_bytes());
    path
}

fn file_entry(rel: &str) -> StoreEntry {
    StoreEntry::File(StoreFileRef { path: in_store(rel) })
}

#[test]
fn test_list_entries() {
    let listed = StoreDirectoryRef {
        path: STORE.to_vec(),
        content: list(STORE, &look_up(STORE)).unwrap(),
    };
    let mut files = HashSet::new();
    let mut walk = listed.iter();
    while let Some(entry) = walk.next() {
        files.insert(entry.clone());
    }
    assert_eq!(
        files,
        HashSet::from_iter(vec![
            file_entry("secret-a.gpg"),
            file_entry("secret-b.gpg"),
            file_entry("folder/subsecret-a.gpg"),
            file_entry("folder/subsecret-b.gpg"),
            file_entry("folder/subfolder/generated-a.gpg"),
            file_entry("folder/subfolder/generated-b.gpg"),
            file_entry("folder2/subsecret-a.gpg"),
        ])
    );
}

#[test]
fn test_retrieve_entry() {
    // retrieving the store root works
    assert!(retrieve_entry("/").is_ok());
    assert!(retrieve_entry("/").is_ok());

    // retrieving a secret works
    assert_eq!(
        retrieve_entry("secret-a").unwrap(),
        StoreEntry::File(StoreFileRef { path: in_store("secret-a.gpg") })
    );

    // retrieving a secret in subfolders works
    assert_eq!(
        retrieve_entry("folder/subfolder/generated-a").unwrap(),
        StoreEntry::File(StoreFileRef { path: in_store("folder/subfolder/generated-a.gpg") })
    );

    // retrieving a folder works
    assert!(retrieve_entry("folder").is_ok());
    assert!(retrieve_entry("folder/").is_ok());

    // retrieving not existing things returns an error but does not panic
    assert!(retrieve_entry("not-existing-folder").is_err());
    assert!(retrieve_entry("not-existing-folder/not-existing-secret").is_err());
}

#[test]
fn test_write_plaintext_of_a_retrieved_file() {
    let entry = retrieve_file("secret-a");
    let mut handle = entry.plain_io(&probe_manifests(&entry), decrypt(&entry.path)).unwrap();
    let first_content = handle.as_ref().to_vec();

    *handle.as_mut() = "hello world".as_bytes().to_vec();
    assert_eq!(handle.sync_plan(false), SyncPlan::Rewrite);
    assert!(handle.sync(false, Ok(())).is_ok());

    *handle.as_mut() = first_content;
    assert!(handle.sync(false, Ok(())).is_ok());
    assert_eq!(handle.as_ref(), "foobar123\n".as_bytes());
}

#[test]
fn test_read_plaintext() {
    let entry = retrieve_file("secret-a");

    assert_eq!(
        entry.plain_io(&probe_manifests(&entry), decrypt(&entry.path)).unwrap().as_ref(),
        "foobar123\n".as_bytes()
    );
}

#[test]
fn test_get_entry_name() {
    // simple file
    assert_eq!(retrieve_entry("secret-a").unwrap().name(STORE).unwrap(), "secret-a");

    // simple directory
    assert_eq!(retrieve_entry("folder").unwrap().name(STORE).unwrap(), "folder");

    // file in subdirectory
    assert_eq!(
        retrieve_entry("folder/subsecret-a").unwrap().name(STORE).unwrap(),
        "folder/subsecret-a"
    );

    // directory in subdirectory
    assert_eq!(
        retrieve_entry("folder/subfolder").unwrap().name(STORE).unwrap(),
        "folder/subfolder"
    );
}

#[test]
fn test_get_encryption_keys() {
    // file at store root
    let entry = retrieve_file("secret-a");
    assert_eq!(
        entry.encryption_keys(&probe_manifests(&entry)).unwrap().into_result().unwrap()[0],
        "8497251104B6F45F"
    );

    // file in subfolder
    let entry = retrieve_file("folder/subfolder/generated-a");
    assert_eq!(
        entry.encryption_keys(&probe_manifests(&entry)).unwrap().into_result().unwrap()[0],
        "8497251104B6F45F"
    );
}

#[test]
fn a_secret_below_a_folder_inherits_the_key_of_the_store() {
    let entry = retrieve_entry("folder/subsecret-a").unwrap();
    let file = match entry {
        StoreEntry::File(file) => file,
        StoreEntry::Directory(_) => panic!("not a file"),
    };
    assert_eq!(file.path, in_store("folder/subsecret-a.gpg"));
    let probes = probe_manifests(&file);
    assert_eq!(probes[0], ManifestProbe::Absent);
    assert_eq!(probes[1], ManifestProbe::Manifest(b"8497251104B6F45F\n".to_vec()));
    assert_eq!(
        file.encryption_keys(&probes),
        Ok(KeyIds { ids: vec!["8497251104B6F45F".to_string()], failure: None })
    );
    let handle = file.plain_io(&probes, decrypt(&file.path)).unwrap();
    assert_eq!(handle.as_ref(), "foobar123\n".as_bytes());
    assert_eq!(handle.encryption_keys(), &vec!["8497251104B6F45F".to_string()]);
    assert!(!handle.is_dirty());
}

#[test]
fn no_handle_is_opened_on_a_manifest_that_is_not_text() {
    let file = StoreFileRef { path: in_store("secret-a.gpg") };
    let probes = vec![ManifestProbe::Manifest(vec![0x6b, 0x0a, 0xff, 0x0a])];
    assert_eq!(
        file.plain_io(&probes, b"foobar123\n".to_vec()).err(),
        Some(PassError::IOError { source: "stream did not contain valid UTF-8".to_string() })
    );
}

#[test]
fn a_directory_is_read_only_where_no_file_stands() {
    assert!(listing_needed(&None));
    assert!(!listing_needed(&Some(FsNode::File)));
    assert!(!listing_needed(&Some(FsNode::Other)));
    assert!(!listing_needed(&Some(FsNode::Directory(vec![]))));
    // beside a file, the children of the directory make no difference
    let unread = Some(FsNode::Directory(vec![]));
    let read = Some(FsNode::Directory(vec![DirChild { name: b"x".to_vec(), node: FsNode::Other }]));
    assert_eq!(
        retrieve(b"/s", "mail", &unread, &Some(FsNode::File)),
        retrieve(b"/s", "mail", &read, &Some(FsNode::File))
    );
}

#[test]
fn no_handle_is_opened_without_keys() {
    let file = StoreFileRef { path: in_store("secret-a.gpg") };
    let result = file.plain_io(&Vec::new(), b"foobar123\n".to_vec());
    assert_eq!(
        result.err(),
        Some(PassError::InvalidStoreFormat(
            b"/".to_vec(),
            "Path does not have a parent but a .gpg-id file has not yet been found".to_string()
        ))
    );
}

#[test]
fn the_listing_mirrors_the_tree() {
    let listed = list(STORE, &look_up(STORE)).unwrap();
    let expected = vec![
        StoreEntry::Directory(StoreDirectoryRef {
            path: in_store("folder"),
            content: vec![
                StoreEntry::Directory(StoreDirectoryRef {
                    path: in_store("folder/subfolder"),
                    content: vec![
                        file_entry("folder/subfolder/generated-a.gpg"),
                        file_entry("folder/subfolder/generated-b.gpg"),
                    ],
                }),
                file_entry("folder/subsecret-a.gpg"),
                file_entry("folder/subsecret-b.gpg"),
            ],
        }),
        StoreEntry::Directory(StoreDirectoryRef {
            path: in_store("folder2"),
            content: vec![file_entry("folder2/subsecret-a.gpg")],
        }),
        file_entry("secret-a.gpg"),
        file_entry("secret-b.gpg"),
    ];
    assert_eq!(listed, expected);
    // directories compare by path alone, so look at what they hold too
    match (&listed[0], &expected[0]) {
        (StoreEntry::Directory(found), StoreEntry::Directory(wanted)) => {
            assert_eq!(found.content, wanted.content);
            match (&found.content[0], &wanted.content[0]) {
                (StoreEntry::Directory(found), StoreEntry::Directory(wanted)) => {
                    assert_eq!(found.content, wanted.content)
                }
                _ => panic!("not a directory"),
            }
        }
        _ => panic!("not a directory"),
    }
    match (&listed[1], &expected[1]) {
        (StoreEntry::Directory(found), StoreEntry::Directory(wanted)) => {
            assert_eq!(found.content, wanted.content)
        }
        _ => panic!("not a directory"),
    }
}

#[test]
fn the_listing_of_a_subtree_is_the_content_of_its_directory() {
    let below = match look_up(&in_store("folder")) {
        Some(FsNode::Directory(children)) => children,
        _ => panic!("not a directory"),
    };
    let direct = libpass::list_and_map_folder(&in_store("folder"), &below).unwrap();
    match retrieve_entry("folder").unwrap() {
        StoreEntry::Directory(folder) => {
            assert_eq!(folder.path, in_store("folder"));
            assert_eq!(folder.content, direct);
            assert_eq!(folder.content.len(), 3);
        }
        StoreEntry::File(_) => panic!("not a directory"),
    }
}

#[test]
fn files_that_are_no_secrets_are_not_listed() {
    let tree = FsNode::Directory(vec![
        file(".gpg-id"),
        file("notes.txt"),
        file("README"),
        file(".gpg"),
        file("gpg"),
        file("secret.gpg.bak"),
        file("secret.gpg"),
        file("..gpg"),
        dir(".git", vec![file("HEAD"), file("config")]),
    ]);
    assert_eq!(
        list(b"/s", &Some(tree)),
        Ok(vec![
            StoreEntry::File(StoreFileRef { path: b"/s/secret.gpg".to_vec() }),
            StoreEntry::File(StoreFileRef { path: b"/s/..gpg".to_vec() }),
            StoreEntry::Directory(StoreDirectoryRef { path: b"/s/.git".to_vec(), content: vec![] }),
        ])
    );
}

#[test]
fn an_empty_store_lists_nothing() {
    assert_eq!(list(b"/s", &Some(FsNode::Directory(vec![]))), Ok(vec![]));
}

#[test]
fn something_that_is_neither_file_nor_directory_fails_the_listing() {
    let reason = "File is neither a regular file nor a directory but pass stores can only contain those types of files";
    let tree = FsNode::Directory(vec![
        file("a.gpg"),
        DirChild { name: b"dangling".to_vec(), node: FsNode::Other },
        file("b.gpg"),
    ]);
    assert_eq!(
        list(b"/s", &Some(tree)),
        Err(PassError::InvalidStoreFormat(b"/s/dangling".to_vec(), reason.to_string()))
    );

    let named_like_a_secret =
        FsNode::Directory(vec![DirChild { name: b"link.gpg".to_vec(), node: FsNode::Other }]);
    assert_eq!(
        list(b"/s", &Some(named_like_a_secret)),
        Err(PassError::InvalidStoreFormat(b"/s/link.gpg".to_vec(), reason.to_string()))
    );
}

#[test]
fn the_first_malformed_child_of_the_walk_is_reported() {
    let reason = "File is neither a regular file nor a directory but pass stores can only contain those types of files";
    let tree = FsNode::Directory(vec![
        file("a.gpg"),
        dir(
            "deep",
            vec![
                file("x.gpg"),
                dir("deeper", vec![DirChild { name: b"socket".to_vec(), node: FsNode::Other }]),
                DirChild { name: b"fifo".to_vec(), node: FsNode::Other },
            ],
        ),
        DirChild { name: b"device".to_vec(), node: FsNode::Other },
    ]);
    assert_eq!(
        list(b"/s", &Some(tree)),
        Err(PassError::InvalidStoreFormat(b"/s/deep/deeper/socket".to_vec(), reason.to_string()))
    );
}

#[test]
fn a_store_that_is_not_there_is_not_found() {
    assert_eq!(list(b"/nowhere", &None), Err(PassError::PasswordStoreNotFound(b"/nowhere".to_vec())));
}

#[test]
fn a_store_has_to_be_a_directory() {
    let reason = "Path either does not exist or is not a directory";
    assert_eq!(
        list(b"/s", &Some(FsNode::File)),
        Err(PassError::InvalidStoreFormat(b"/s".to_vec(), reason.to_string()))
    );
    assert_eq!(
        list(b"/s", &Some(FsNode::Other)),
        Err(PassError::InvalidStoreFormat(b"/s".to_vec(), reason.to_string()))
    );
}

#[test]
fn candidates_are_the_name_below_the_root() {
    assert_eq!(candidate_dir_path(b"/s", "folder/x"), b"/s/folder/x".to_vec());
    assert_eq!(candidate_file_path(b"/s", "folder/x"), b"/s/folder/x.gpg".to_vec());
    assert_eq!(candidate_dir_path(b"/s/", "x"), b"/s/x".to_vec());
    assert_eq!(candidate_file_path(b"/s/", "x"), b"/s/x.gpg".to_vec());
    assert_eq!(candidate_dir_path(b"/s", ""), b"/s/".to_vec());
    assert_eq!(candidate_file_path(b"/s", ""), b"/s/.gpg".to_vec());
    assert_eq!(candidate_file_path(b"/s", "gr\u{fc}n"), vec![0x2f, 0x73, 0x2f, 0x67, 0x72, 0xc3, 0xbc, 0x6e, 0x2e, 0x67, 0x70, 0x67]);
}

#[test]
fn a_name_with_a_file_only_gives_the_file() {
    let entry = retrieve(b"/s", "mail/work", &None, &Some(FsNode::File)).unwrap();
    assert_eq!(entry, StoreEntry::File(StoreFileRef { path: b"/s/mail/work.gpg".to_vec() }));
    assert_eq!(entry.name(b"/s"), Ok("mail/work".to_string()));
}

#[test]
fn a_name_with_a_directory_only_gives_the_directory_with_its_listing() {
    let found = Some(FsNode::Directory(vec![file("work.gpg"), file("notes.txt")]));
    let entry = retrieve(b"/s", "mail", &found, &None).unwrap();
    match &entry {
        StoreEntry::Directory(dir) => {
            assert_eq!(dir.path, b"/s/mail".to_vec());
            assert_eq!(
                dir.content,
                vec![StoreEntry::File(StoreFileRef { path: b"/s/mail/work.gpg".to_vec() })]
            );
        }
        StoreEntry::File(_) => panic!("not a directory"),
    }
    assert_eq!(entry.name(b"/s"), Ok("mail".to_string()));
}

#[test]
fn a_name_with_both_is_ambiguous() {
    assert_eq!(
        retrieve(b"/s", "mail", &Some(FsNode::Directory(vec![])), &Some(FsNode::File)),
        Err(PassError::AmbiguousPassName("mail".to_string()))
    );
    assert_eq!(
        retrieve(b"/s", "mail", &Some(FsNode::File), &Some(FsNode::Other)),
        Err(PassError::AmbiguousPassName("mail".to_string()))
    );
}

#[test]
fn a_name_with_neither_is_not_found() {
    assert_eq!(
        retrieve(b"/s", "mail", &None, &None),
        Err(PassError::EntryNotFound("mail".to_string()))
    );
    assert_eq!(
        retrieve_entry("not-existing-folder/not-existing-secret"),
        Err(PassError::EntryNotFound("not-existing-folder/not-existing-secret".to_string()))
    );
}

#[test]
fn what_is_retrieved_is_verified() {
    let not_a_secret = "Path either does not exist, is not a regular file or does not have a .gpg extension";
    let not_a_directory = "Path either does not exist or is not a directory";
    assert_eq!(
        retrieve(b"/s", "mail", &None, &Some(FsNode::Directory(vec![]))),
        Err(PassError::InvalidStoreFormat(b"/s/mail.gpg".to_vec(), not_a_secret.to_string()))
    );
    assert_eq!(
        retrieve(b"/s", "mail", &None, &Some(FsNode::Other)),
        Err(PassError::InvalidStoreFormat(b"/s/mail.gpg".to_vec(), not_a_secret.to_string()))
    );
    assert_eq!(
        retrieve(b"/s", "", &None, &Some(FsNode::File)),
        Err(PassError::InvalidStoreFormat(b"/s/.gpg".to_vec(), not_a_secret.to_string()))
    );
    assert_eq!(
        retrieve(b"/s", "mail/", &None, &Some(FsNode::File)),
        Err(PassError::InvalidStoreFormat(b"/s/mail/.gpg".to_vec(), not_a_secret.to_string()))
    );
    assert_eq!(
        retrieve(b"/s", "secret-a.gpg", &Some(FsNode::File), &None),
        Err(PassError::InvalidStoreFormat(b"/s/secret-a.gpg".to_vec(), not_a_directory.to_string()))
    );
    assert_eq!(
        retrieve_entry("secret-a.gpg"),
        Err(PassError::InvalidStoreFormat(in_store("secret-a.gpg"), not_a_directory.to_string()))
    );
}

#[test]
fn a_malformed_subtree_fails_the_retrieval_of_its_directory() {
    let reason = "File is neither a regular file nor a directory but pass stores can only contain those types of files";
    let found = Some(FsNode::Directory(vec![DirChild {
        name: b"socket".to_vec(),
        node: FsNode::Other,
    }]));
    assert_eq!(
        retrieve(b"/s", "mail", &found, &None),
        Err(PassError::InvalidStoreFormat(b"/s/mail/socket".to_vec(), reason.to_string()))
    );
}

#[test]
fn the_store_root_is_retrieved_by_the_empty_name() {
    let entry = retrieve_entry("").unwrap();
    assert_eq!(entry.name(STORE), Ok(String::new()));
    match entry {
        StoreEntry::Directory(root) => assert_eq!(root.content.len(), 4),
        StoreEntry::File(_) => panic!("not a directory"),
    }
}

#[test]
fn names_beyond_ascii_come_back_as_they_went_in() {
    let entry = retrieve(b"/s", "b\u{fc}ro/schl\u{fc}ssel", &None, &Some(FsNode::File)).unwrap();
    assert_eq!(entry.name(b"/s"), Ok("b\u{fc}ro/schl\u{fc}ssel".to_string()));
}
