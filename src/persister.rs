use vstd::prelude::*;

verus! {

/// When an append returns: after the batch is written (and synced when so
/// configured), or as soon as it is queued for the persister task.
#[derive(Debug, Clone, Copy, PartialEq, Eq, Structural)]
pub enum Confirmation {
    Wait,
    NoWait,
}

/// What the persister task does after one attempt to write a queued batch.
#[derive(Debug, Clone, Copy, PartialEq, Eq, Structural)]
pub enum PersisterAction {
    /// The batch is written; take the next one.
    Done,
    /// Wait for the retry delay, then write the same batch again.
    Retry,
    /// Retries are used up: drop the batch and count it as lost.
    Drop,
}

/// The persister task's state: bytes written to the log so far, attempts
/// made at the current batch, and batches dropped.
#[derive(Debug, Clone, Copy, PartialEq, Eq, Structural)]
pub struct PersisterState {
    pub log_size_bytes: u64,
    pub attempts: u32,
    pub dropped_batches: u64,
}

impl PersisterState {
    pub fn new(log_size_bytes: u64) -> (r: PersisterState)
        ensures
            r == (PersisterState { log_size_bytes, attempts: 0, dropped_batches: 0 }),
    {
        PersisterState { log_size_bytes, attempts: 0, dropped_batches: 0 }
    }

    /// The decision after an attempt to write a batch of `batch_size` bytes.
    /// A success advances the log size (it never goes back); a failure is
    /// retried until `max_retries` retries have been made, then the batch is
    /// dropped and counted.
    pub fn after_write(&mut self, written: bool, batch_size: u64, max_retries: u32) -> (r:
        PersisterAction)
        ensures
            final(self).log_size_bytes >= old(self).log_size_bytes,
            written ==> r == PersisterAction::Done && *final(self) == (PersisterState {
                log_size_bytes: if old(self).log_size_bytes + batch_size > u64::MAX {
                    u64::MAX
                } else {
                    (old(self).log_size_bytes + batch_size) as u64
                },
                attempts: 0,
                ..*old(self)
            }),
            !written && old(self).attempts < max_retries ==> r == PersisterAction::Retry
                && *final(self) == (PersisterState {
                attempts: (old(self).attempts + 1) as u32,
                ..*old(self)
            }),
            !written && old(self).attempts >= max_retries ==> r == PersisterAction::Drop
                && *final(self) == (PersisterState {
                attempts: 0,
                dropped_batches: if old(self).dropped_batches == u64::MAX {
                    u64::MAX
                } else {
                    (old(self).dropped_batches + 1) as u64
                },
                ..*old(self)
            }),
    {
        if written {
            self.log_size_bytes = self.log_size_bytes.saturating_add(batch_size);
            self.attempts = 0;
            PersisterAction::Done
        } else if self.attempts < max_retries {
            self.attempts = self.attempts + 1;
            PersisterAction::Retry
        } else {
            self.attempts = 0;
            self.dropped_batches = self.dropped_batches.saturating_add(1);
            PersisterAction::Drop
        }
    }
}

} // verus!
