use libpass::errors::PassError;
use libpass::file_io::{RoPlainFile, RwPlainFile, SyncPlan};

fn opened(plaintext: &[u8]) -> RwPlainFile {
    RwPlainFile::new(plaintext.to_vec(), vec!["8497251104B6F45F".to_string()])
}

#[test]
fn test_write_plaintext() {
    let mut handle = opened(b"foobar123\n");
    let original_content = handle.as_ref().to_vec();

    // write something different into the file
    *handle.as_mut() = "hello world".as_bytes().to_vec();
    assert_eq!(handle.sync_plan(false), SyncPlan::Rewrite);
    assert!(handle.sync(false, Ok(())).is_ok());

    // restore file content
    *handle.as_mut() = original_content;
    assert_eq!(handle.sync_plan(false), SyncPlan::Rewrite);
    assert!(handle.sync(false, Ok(())).is_ok())
}

#[test]
fn a_read_only_handle_shows_the_plaintext() {
    let handle = RoPlainFile::new(b"foobar123\n".to_vec());
    assert_eq!(handle.as_ref(), "foobar123\n".as_bytes());
    let empty = RoPlainFile::new(Vec::new());
    assert_eq!(empty.as_ref(), &Vec::<u8>::new());
}

#[test]
fn a_handle_starts_out_clean_with_the_plaintext() {
    let handle = opened(b"foobar123\n");
    assert_eq!(handle.as_ref(), "foobar123\n".as_bytes());
    assert!(!handle.is_dirty());
    assert_eq!(handle.sync_plan(false), SyncPlan::Flush);
    assert_eq!(handle.encryption_keys(), &vec!["8497251104B6F45F".to_string()]);
}

#[test]
fn a_changed_buffer_is_dirty_until_it_is_written() {
    let mut handle = opened(b"foobar123\n");
    handle.as_mut().push(b'!');
    assert!(handle.is_dirty());
    assert_eq!(handle.as_ref(), "foobar123\n!".as_bytes());
    assert_eq!(handle.sync_plan(false), SyncPlan::Rewrite);
    assert_eq!(handle.sync(false, Ok(())), Ok(()));
    assert!(!handle.is_dirty());
    assert_eq!(handle.as_ref(), "foobar123\n!".as_bytes());
}

#[test]
fn a_buffer_changed_back_is_clean_again() {
    let mut handle = opened(b"foobar123\n");
    handle.as_mut().push(b'!');
    assert!(handle.is_dirty());
    handle.as_mut().pop();
    assert!(!handle.is_dirty());
    assert_eq!(handle.sync_plan(false), SyncPlan::Flush);
}

#[test]
fn syncing_twice_writes_once() {
    let mut handle = opened(b"foobar123\n");
    *handle.as_mut() = b"changed".to_vec();
    assert_eq!(handle.sync_plan(false), SyncPlan::Rewrite);
    assert_eq!(handle.sync(false, Ok(())), Ok(()));
    assert_eq!(handle.sync_plan(false), SyncPlan::Flush);
    assert_eq!(handle.sync(false, Ok(())), Ok(()));
    assert_eq!(handle.sync_plan(false), SyncPlan::Flush);
    assert_eq!(handle.as_ref(), b"changed");
}

#[test]
fn a_forced_sync_writes_even_a_clean_buffer() {
    let mut handle = opened(b"foobar123\n");
    assert!(!handle.is_dirty());
    assert_eq!(handle.sync_plan(true), SyncPlan::Rewrite);
    assert_eq!(handle.sync(true, Ok(())), Ok(()));
    assert_eq!(handle.sync_plan(true), SyncPlan::Rewrite);
    assert_eq!(handle.sync_plan(false), SyncPlan::Flush);
    assert_eq!(handle.as_ref(), "foobar123\n".as_bytes());
}

#[test]
fn a_failed_sync_is_reported_and_can_be_tried_again() {
    let mut handle = opened(b"foobar123\n");
    *handle.as_mut() = b"changed".to_vec();
    let failure = PassError::GpgError { source: "Unusable public key".to_string() };
    assert_eq!(handle.sync(false, Err(failure.clone())), Err(failure));
    assert!(handle.is_dirty());
    assert_eq!(handle.as_ref(), b"changed");
    assert_eq!(handle.sync_plan(false), SyncPlan::Rewrite);

    let disk = PassError::IOError { source: "No space left on device".to_string() };
    assert_eq!(handle.sync(true, Err(disk.clone())), Err(disk));
    assert!(handle.is_dirty());

    assert_eq!(handle.sync(false, Ok(())), Ok(()));
    assert!(!handle.is_dirty());
}

#[test]
fn a_failed_flush_leaves_a_clean_handle_clean() {
    let mut handle = opened(b"foobar123\n");
    let disk = PassError::IOError { source: "Input/output error".to_string() };
    assert_eq!(handle.sync(false, Err(disk.clone())), Err(disk));
    assert!(!handle.is_dirty());
    assert_eq!(handle.sync_plan(false), SyncPlan::Flush);
}

#[test]
fn release_owes_a_write_only_for_a_dirty_buffer() {
    let clean = opened(b"foobar123\n");
    assert_eq!(
        clean.release(),
        (SyncPlan::Flush, b"foobar123\n".to_vec(), vec!["8497251104B6F45F".to_string()])
    );

    let mut dirty = opened(b"foobar123\n");
    *dirty.as_mut() = b"changed".to_vec();
    assert_eq!(
        dirty.release(),
        (SyncPlan::Rewrite, b"changed".to_vec(), vec!["8497251104B6F45F".to_string()])
    );
}
