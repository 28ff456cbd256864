//! Temporary display previews: at most one at a time, ended by confirmation, revert, disconnection or
//! the end of its time.

use crate::number::{append_decimal, decimal, decimal_reads_back};
use crate::text::same_text;
use vstd::prelude::*;

verus! {

/// A preview that is neither confirmed nor reverted.
#[derive(Clone, Debug)]
pub struct PendingPreview<T> {
    /// The transaction.
    pub id: String,
    /// The client that asked for it.
    pub client_id: u64,
    /// When it ends, on a clock that never goes back.
    pub deadline: u64,
    /// What is needed to end it.
    pub payload: T,
}

/// The answer to a request to revert.
#[derive(Clone, Debug)]
pub enum RevertRequest<T> {
    /// The preview is to be reverted. It is not pending any more.
    Restore(PendingPreview<T>),
    AlreadyReverted,
    NoPending,
    /// Another preview is pending.
    Mismatch,
}

/// The answer to a request to confirm.
#[derive(Clone, Debug)]
pub enum ConfirmRequest<T> {
    /// The preview is to be kept. It is not pending any more.
    Persist(PendingPreview<T>),
    AlreadyConfirmed,
    NoPending,
    /// Another preview is pending.
    Mismatch,
}

/// How a preview ended.
#[derive(Clone, Copy, PartialEq, Eq, Debug, Structural)]
pub enum Completion {
    Reverted,
    Confirmed,
}

/// The pending preview, the last one that ended, and the number of the next one.
#[derive(Clone, Debug)]
pub struct PreviewState<T> {
    pub pending: Option<PendingPreview<T>>,
    pub last_completed: Option<(String, Completion)>,
    pub next_transaction: u64,
}

/// The name of a transaction.
pub open spec fn transaction_text(number: nat) -> Seq<char> {
    "preview-"@ + decimal(number)
}

/// Different transactions have different names.
pub proof fn transactions_have_different_names(a: nat, b: nat)
    requires
        a != b,
    ensures
        transaction_text(a) != transaction_text(b),
{
    decimal_reads_back(a);
    decimal_reads_back(b);
    if transaction_text(a) == transaction_text(b) {
        let n = "preview-"@.len() as int;
        assert(decimal(a) =~= transaction_text(a).skip(n));
        assert(decimal(b) =~= transaction_text(b).skip(n));
    }
}

/// What a request about a transaction finds.
#[derive(Clone, Copy, PartialEq, Eq, Debug, Structural)]
pub enum Finding {
    /// It is pending.
    Pending,
    /// It was the last one to end, and it ended in this way.
    Ended,
    /// Nothing is pending.
    Nothing,
    /// Another one is pending.
    Another,
}

impl<T> Default for PreviewState<T> {
    /// The state before the first preview.
    fn default() -> (state: PreviewState<T>)
        ensures
            state == (PreviewState::<T> {
                pending: None,
                last_completed: None,
                next_transaction: 1,
            }),
    {
        PreviewState { pending: None, last_completed: None, next_transaction: 1 }
    }
}

impl<T> PreviewState<T> {
    /// What a request finds that would end the transaction in this way.
    pub open spec fn finding(self, transaction_id: Seq<char>, way: Completion) -> Finding {
        if self.pending is Some && self.pending->0.id@ == transaction_id {
            Finding::Pending
        } else if self.last_completed matches Some((id, outcome)) && id@ == transaction_id
            && outcome == way {
            Finding::Ended
        } else if self.pending is Some {
            Finding::Another
        } else {
            Finding::Nothing
        }
    }

    /// The state in which nothing is pending.
    pub open spec fn idle(self) -> PreviewState<T> {
        PreviewState { pending: None, ..self }
    }

    /// When the pending preview ends.
    pub open spec fn ends_at(self) -> Option<u64> {
        match self.pending {
            Some(preview) => Some(preview.deadline),
            None => None,
        }
    }

    /// Whether a preview is pending.
    pub fn is_pending(&self) -> (pending: bool)
        ensures
            pending == (self.pending is Some),
    {
        self.pending.is_some()
    }

    /// When the pending preview ends.
    pub fn deadline(&self) -> (deadline: Option<u64>)
        ensures
            deadline == self.ends_at(),
    {
        match &self.pending {
            Some(preview) => Some(preview.deadline),
            None => None,
        }
    }

    /// Starts a preview, unless one is pending. The result is its transaction.
    pub fn start(&mut self, client_id: u64, deadline: u64, payload: T) -> (id: Option<String>)
        requires
            old(self).pending is None ==> old(self).next_transaction < u64::MAX,
        ensures
            old(self).pending is Some ==> id is None && *final(self) == *old(self),
            old(self).pending is None ==> {
                &&& id is Some
                &&& id->0@ == transaction_text(old(self).next_transaction as nat)
                &&& final(self).pending == Some(
                    PendingPreview { id: id->0, client_id, deadline, payload },
                )
                &&& final(self).last_completed == old(self).last_completed
                &&& final(self).next_transaction == old(self).next_transaction + 1
            },
    {
        if self.pending.is_some() {
            return None;
        }
        let mut id = "preview-".to_owned();
        append_decimal(&mut id, self.next_transaction);
        self.next_transaction = self.next_transaction + 1;
        self.pending = Some(PendingPreview { id: id.clone(), client_id, deadline, payload });
        Some(id)
    }

    /// Answers a request to revert a transaction. The pending preview is taken if it is the one.
    pub fn request_revert(&mut self, transaction_id: &str) -> (answer: RevertRequest<T>)
        ensures
            match old(self).finding(transaction_id@, Completion::Reverted) {
                Finding::Pending => answer == RevertRequest::Restore(old(self).pending->0)
                    && *final(self) == old(self).idle(),
                Finding::Ended => answer is AlreadyReverted && *final(self) == *old(self),
                Finding::Nothing => answer is NoPending && *final(self) == *old(self),
                Finding::Another => answer is Mismatch && *final(self) == *old(self),
            },
    {
        if let Some(preview) = self.take_transaction(transaction_id) {
            return RevertRequest::Restore(preview);
        }
        if self.has_ended(transaction_id, Completion::Reverted) {
            RevertRequest::AlreadyReverted
        } else if self.pending.is_some() {
            RevertRequest::Mismatch
        } else {
            RevertRequest::NoPending
        }
    }

    /// Answers a request to confirm a transaction. The pending preview is taken if it is the one.
    pub fn request_confirm(&mut self, transaction_id: &str) -> (answer: ConfirmRequest<T>)
        ensures
            match old(self).finding(transaction_id@, Completion::Confirmed) {
                Finding::Pending => answer == ConfirmRequest::Persist(old(self).pending->0)
                    && *final(self) == old(self).idle(),
                Finding::Ended => answer is AlreadyConfirmed && *final(self) == *old(self),
                Finding::Nothing => answer is NoPending && *final(self) == *old(self),
                Finding::Another => answer is Mismatch && *final(self) == *old(self),
            },
    {
        if let Some(preview) = self.take_transaction(transaction_id) {
            return ConfirmRequest::Persist(preview);
        }
        if self.has_ended(transaction_id, Completion::Confirmed) {
            ConfirmRequest::AlreadyConfirmed
        } else if self.pending.is_some() {
            ConfirmRequest::Mismatch
        } else {
            ConfirmRequest::NoPending
        }
    }

    fn take_transaction(&mut self, transaction_id: &str) -> (preview: Option<PendingPreview<T>>)
        ensures
            preview == if old(self).pending is Some && old(self).pending->0.id@ == transaction_id@ {
                old(self).pending
            } else {
                None
            },
            *final(self) == if preview is Some {
                old(self).idle()
            } else {
                *old(self)
            },
    {
        let matching = match &self.pending {
            Some(preview) => same_text(preview.id.as_str(), transaction_id),
            None => false,
        };
        if matching {
            self.pending.take()
        } else {
            None
        }
    }

    fn has_ended(&self, transaction_id: &str, way: Completion) -> (ended: bool)
        ensures
            ended == (self.last_completed matches Some((id, outcome)) && id@ == transaction_id@
                && outcome == way),
    {
        match &self.last_completed {
            Some((id, outcome)) => same_text(id.as_str(), transaction_id) && *outcome == way,
            None => false,
        }
    }

    /// Takes the pending preview if this client asked for it.
    pub fn take_for_client(&mut self, client_id: u64) -> (preview: Option<PendingPreview<T>>)
        ensures
            preview == if old(self).pending is Some && old(self).pending->0.client_id == client_id {
                old(self).pending
            } else {
                None
            },
            *final(self) == if preview is Some {
                old(self).idle()
            } else {
                *old(self)
            },
    {
        let owned = match &self.pending {
            Some(preview) => preview.client_id == client_id,
            None => false,
        };
        if owned {
            self.pending.take()
        } else {
            None
        }
    }

    /// Takes the pending preview if its time is up.
    pub fn take_if_expired(&mut self, now: u64) -> (preview: Option<PendingPreview<T>>)
        ensures
            preview == if old(self).pending is Some && old(self).pending->0.deadline <= now {
                old(self).pending
            } else {
                None
            },
            *final(self) == if preview is Some {
                old(self).idle()
            } else {
                *old(self)
            },
    {
        let expired = match &self.pending {
            Some(preview) => preview.deadline <= now,
            None => false,
        };
        if expired {
            self.pending.take()
        } else {
            None
        }
    }

    /// Takes the pending preview.
    pub fn take_pending(&mut self) -> (preview: Option<PendingPreview<T>>)
        ensures
            preview == old(self).pending,
            *final(self) == old(self).idle(),
    {
        self.pending.take()
    }

    /// Makes a preview that was taken pending again.
    pub fn retry(&mut self, preview: PendingPreview<T>)
        requires
            old(self).pending is None,
        ensures
            *final(self) == (PreviewState { pending: Some(preview), ..*old(self) }),
    {
        self.pending = Some(preview);
    }

    /// Takes note of how a preview ended.
    pub fn complete(&mut self, transaction_id: String, outcome: Completion)
        ensures
            *final(self) == (PreviewState {
                last_completed: Some((transaction_id, outcome)),
                ..*old(self)
            }),
    {
        self.last_completed = Some((transaction_id, outcome));
    }
}

/// A request to end a transaction that has ended in that way finds just that, however often it is
/// made, and whether or not a later preview is pending. It takes nothing.
pub proof fn ending_twice_is_harmless<T>(
    s: PreviewState<T>,
    transaction_id: Seq<char>,
    way: Completion,
)
    requires
        s.last_completed matches Some((id, outcome)) && id@ == transaction_id && outcome == way,
        s.pending is Some ==> s.pending->0.id@ != transaction_id,
    ensures
        s.finding(transaction_id, way) == Finding::Ended,
{
}

/// A request about a transaction other than the pending one never takes the pending one.
pub proof fn only_the_named_preview_is_taken<T>(
    s: PreviewState<T>,
    transaction_id: Seq<char>,
    way: Completion,
)
    ensures
        s.finding(transaction_id, way) == Finding::Pending <==> s.pending is Some
            && s.pending->0.id@ == transaction_id,
        s.pending is None ==> s.finding(transaction_id, way) != Finding::Another,
        s.pending is Some ==> s.finding(transaction_id, way) != Finding::Nothing,
{
}

} // verus!
