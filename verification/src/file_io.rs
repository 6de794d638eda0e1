//! Handles to the decrypted content of a secret file.
//!
//! A handle holds the plaintext of one file in memory. The read-write handle
//! also remembers the plaintext that was last written back, and decides from
//! the two when the file has to be encrypted and written anew. Reading,
//! decrypting, encrypting and writing are the caller's part: the handle is
//! given the plaintext, says what is to be done, and is told how it went.

use crate::errors::{PassError, PassErrorView};
use vstd::prelude::*;

verus! {

/// A handle to the plaintext content of a file that only supports reading.
#[derive(Debug)]
pub struct RoPlainFile {
    /// The plaintext buffer that is exposed to the user.
    buffer: Vec<u8>,
}

impl View for RoPlainFile {
    type V = Seq<u8>;

    closed spec fn view(&self) -> Seq<u8> {
        self.buffer@
    }
}

impl RoPlainFile {
    /// A handle to `plaintext`, the decrypted content of a file.
    pub fn new(plaintext: Vec<u8>) -> (file: Self)
        ensures
            file@ == plaintext@,
    {
        RoPlainFile { buffer: plaintext }
    }

    /// The decrypted content.
    pub fn as_ref(&self) -> (content: &Vec<u8>)
        ensures
            content@ == self@,
    {
        &self.buffer
    }
}

/// What a synchronization has to do to the file on disk.
#[derive(Debug, Clone, Copy, PartialEq, Eq, Structural)]
pub enum SyncPlan {
    /// The file holds the buffer already: flush it to stable storage, and
    /// neither encrypt nor write.
    Flush,
    /// Encrypt the buffer for the recipients, cut the file to the length of
    /// the ciphertext, write the ciphertext from the start of the file, and
    /// then flush the file to stable storage.
    Rewrite,
}

/// The mathematical value of an [`RwPlainFile`].
pub struct PlainFileState {
    /// The current plaintext.
    pub buffer: Seq<u8>,
    /// The plaintext as of the last successful write-back.
    pub last_synced: Seq<u8>,
    /// The identifiers of the keys that the file is encrypted for.
    pub recipients: Seq<Seq<char>>,
}

impl PlainFileState {
    /// Whether the buffer differs from what was last written back.
    pub open spec fn dirty(self) -> bool {
        self.buffer != self.last_synced
    }

    /// What a synchronization has to do: write, where it is forced or the
    /// buffer is dirty, and flush only where it is not.
    pub open spec fn plan(self, force: bool) -> SyncPlan {
        if force || self.dirty() {
            SyncPlan::Rewrite
        } else {
            SyncPlan::Flush
        }
    }

    /// The state after a synchronization whose plan was carried out with
    /// `outcome`: a write that succeeded makes the buffer clean, and a
    /// failure changes nothing.
    pub open spec fn after_sync(self, force: bool, outcome: Result<(), PassErrorView>) -> Self {
        if outcome is Ok && self.plan(force) == SyncPlan::Rewrite {
            PlainFileState { last_synced: self.buffer, ..self }
        } else {
            self
        }
    }
}

/// A handle to the plaintext content of a file that supports reading and
/// writing.
///
/// The buffer is the access point to the decrypted content. Changes to it
/// reach the file on disk when the handle is synchronized.
#[derive(Debug)]
pub struct RwPlainFile {
    /// The plaintext buffer that is exposed to the user.
    buffer: Vec<u8>,
    /// The plaintext as of the last successful write-back. It decides
    /// whether a synchronization has to write.
    last_synced_buffer: Vec<u8>,
    /// The identifiers of the keys that are the recipients of an encryption.
    encryption_keys: Vec<String>,
}

impl View for RwPlainFile {
    type V = PlainFileState;

    closed spec fn view(&self) -> PlainFileState {
        PlainFileState {
            buffer: self.buffer@,
            last_synced: self.last_synced_buffer@,
            recipients: self.encryption_keys.deep_view(),
        }
    }
}

/// The view of the outcome of a step that yields nothing.
pub open spec fn outcome_view(outcome: Result<(), PassError>) -> Result<(), PassErrorView> {
    match outcome {
        Ok(()) => Ok(()),
        Err(e) => Err(e@),
    }
}

impl RwPlainFile {
    /// A handle to `plaintext`, the decrypted content of a file that is
    /// encrypted for the keys named by `encryption_keys`. The handle starts
    /// out clean.
    pub fn new(plaintext: Vec<u8>, encryption_keys: Vec<String>) -> (file: Self)
        ensures
            file@.buffer == plaintext@,
            file@.last_synced == plaintext@,
            file@.recipients == encryption_keys.deep_view(),
            !file@.dirty(),
    {
        let last_synced_buffer = plaintext.clone();
        RwPlainFile { buffer: plaintext, last_synced_buffer, encryption_keys }
    }

    /// The current plaintext.
    pub fn as_ref(&self) -> (content: &Vec<u8>)
        ensures
            content@ == self@.buffer,
    {
        &self.buffer
    }

    /// The current plaintext, to be changed in place. Nothing but the
    /// buffer changes through it.
    pub fn as_mut(&mut self) -> (content: &mut Vec<u8>)
        ensures
            content@ == old(self)@.buffer,
            final(self)@ == (PlainFileState { buffer: final(content)@, ..old(self)@ }),
    {
        &mut self.buffer
    }

    /// The identifiers of the keys that the file is encrypted for.
    pub fn encryption_keys(&self) -> (keys: &Vec<String>)
        ensures
            keys.deep_view() == self@.recipients,
    {
        &self.encryption_keys
    }

    /// Whether the buffer differs from what was last written back.
    pub fn is_dirty(&self) -> (dirty: bool)
        ensures
            dirty == self@.dirty(),
    {
        !same_content(&self.buffer, &self.last_synced_buffer)
    }

    /// What a synchronization has to do to the file on disk.
    ///
    /// Normally the file is only encrypted and written where the buffer has
    /// been changed since it was last written back. With `force` it is
    /// encrypted and written in any case.
    pub fn sync_plan(&self, force: bool) -> (plan: SyncPlan)
        ensures
            plan == self@.plan(force),
    {
        if force || self.is_dirty() {
            SyncPlan::Rewrite
        } else {
            SyncPlan::Flush
        }
    }

    /// Sync the buffer content into the file: take note of the `outcome`
    /// with which the plan of this synchronization was carried out.
    ///
    /// Where the plan was to write and it succeeded, the buffer is clean
    /// from now on. A failure is handed back, and leaves the handle as it
    /// was, so that the synchronization can be tried again.
    pub fn sync(&mut self, force: bool, outcome: Result<(), PassError>) -> (done: Result<
        (),
        PassError,
    >)
        ensures
            outcome_view(done) == outcome_view(outcome),
            final(self)@ == old(self)@.after_sync(force, outcome_view(outcome)),
    {
        match outcome {
            Ok(()) => {
                if force || self.is_dirty() {
                    self.last_synced_buffer = self.buffer.clone();
                }
                Ok(())
            },
            Err(e) => Err(e),
        }
    }

    /// Give the handle up. What is returned is the synchronization that is
    /// still owed to the file, which is not forced, with the plaintext and
    /// the recipients that it needs. How that synchronization goes is not
    /// reported to anyone: a caller who has to know calls [`Self::sync`]
    /// before.
    pub fn release(self) -> (owed: (SyncPlan, Vec<u8>, Vec<String>))
        ensures
            owed.0 == self@.plan(false),
            owed.1@ == self@.buffer,
            owed.2.deep_view() == self@.recipients,
    {
        let plan = self.sync_plan(false);
        (plan, self.buffer, self.encryption_keys)
    }
}

/// Whether two buffers hold the same bytes.
fn same_content(a: &Vec<u8>, b: &Vec<u8>) -> (same: bool)
    ensures
        same == (a@ == b@),
{
    if a.len() != b.len() {
        return false;
    }
    let mut i: usize = 0;
    while i < a.len()
        invariant
            i <= a.len(),
            a.len() == b.len(),
            forall|k: int| 0 <= k < i ==> a@[k] == b@[k],
        decreases a.len() - i,
    {
        if a[i] != b[i] {
            return false;
        }
        i += 1;
    }
    assert(a@ =~= b@);
    true
}

/// A synchronization that succeeded leaves nothing to write: the next one,
/// if it is not forced and the buffer was not changed, only flushes. Syncing
/// twice gives the state that syncing once gives.
pub proof fn lemma_sync_is_idempotent(state: PlainFileState, force: bool)
    ensures
        state.after_sync(force, Ok(())).plan(false) == SyncPlan::Flush,
        state.after_sync(force, Ok(())).after_sync(false, Ok(())) == state.after_sync(
            force,
            Ok(()),
        ),
{
}

/// A forced synchronization always encrypts and writes, whether the buffer
/// was changed or not.
pub proof fn lemma_forced_sync_writes(state: PlainFileState)
    ensures
        state.plan(true) == SyncPlan::Rewrite,
{
}

/// A synchronization that failed leaves the handle as it was: what was to
/// be done before is still to be done.
pub proof fn lemma_failed_sync_changes_nothing(
    state: PlainFileState,
    force: bool,
    error: PassErrorView,
)
    ensures
        state.after_sync(force, Err(error)) == state,
{
}

} // verus!
