//! The idempotency table: its committed rows, and the locks of the
//! submissions that are being executed.

use crate::idempotency::persistence::{IdempotencyError, SavedResponseRecord};
use crate::store::{lemma_record_at, open_set, OpenSubmission, Store, StoreView, SubmissionId};
use vstd::prelude::*;

verus! {

/// The submission with this caller and this key.
pub open spec fn submission(user_id: u128, idempotency_key: Seq<char>) -> SubmissionId {
    SubmissionId { user_id, idempotency_key }
}

/// Changing the locks of the open submissions keeps the constraints, provided
/// that no committed submission becomes locked.
proof fn lemma_wf_locks_changed(before: StoreView, after: StoreView)
    requires
        before.wf(),
        after.idempotency == before.idempotency,
        after.newsletter_issues == before.newsletter_issues,
        after.issue_delivery_queue == before.issue_delivery_queue,
        forall|id: SubmissionId|
            !(#[trigger] after.idempotency.dom().contains(id) && after.open_submissions.contains(
                id,
            )),
    ensures
        after.wf(),
{
    assert forall|i: int| 0 <= i < after.issue_delivery_queue.len() implies after.has_issue(
        #[trigger] after.issue_delivery_queue[i].task.newsletter_issue_id,
    ) by {
        assert(before.has_issue(before.issue_delivery_queue[i].task.newsletter_issue_id));
        let j = choose|j: int|
            0 <= j < before.newsletter_issues.len()
                && #[trigger] before.newsletter_issues[j].newsletter_issue_id
                == before.issue_delivery_queue[i].task.newsletter_issue_id;
        assert(after.newsletter_issues[j].newsletter_issue_id
            == after.issue_delivery_queue[i].task.newsletter_issue_id);
    }
}

impl StoreView {
    /// The same tables, with one more submission being executed.
    pub open spec fn with_open(self, id: SubmissionId) -> StoreView {
        StoreView { open_submissions: self.open_submissions.insert(id), ..self }
    }

    /// The same tables, with the lock of one submission released.
    pub open spec fn without_open(self, id: SubmissionId) -> StoreView {
        StoreView { open_submissions: self.open_submissions.remove(id), ..self }
    }
}

impl Store {
    /// Position of the committed row with this identity.
    pub(super) fn find_record(&self, user_id: u128, idempotency_key: &String) -> (found: Option<usize>)
        requires
            self.wf(),
        ensures
            match found {
                Some(i) => i < self.idempotency.len() && self.idempotency[i as int].id()
                    == submission(user_id, idempotency_key@),
                None => !self@.idempotency.dom().contains(submission(user_id, idempotency_key@)),
            },
            found is Some <==> self@.idempotency.dom().contains(
                submission(user_id, idempotency_key@),
            ),
    {
        let mut i: usize = 0;
        while i < self.idempotency.len()
            invariant
                self.wf(),
                i <= self.idempotency.len(),
                forall|j: int|
                    0 <= j < i ==> #[trigger] self.idempotency[j].id() != submission(
                        user_id,
                        idempotency_key@,
                    ),
            decreases self.idempotency.len() - i,
        {
            if self.idempotency[i].user_id == user_id && self.idempotency[i].idempotency_key
                == *idempotency_key {
                proof {
                    lemma_record_at(self.idempotency@, i as int);
                }
                return Some(i);
            }
            i += 1;
        }
        None
    }

    /// Whether an open transaction is executing this submission.
    pub fn is_open(&self, user_id: u128, idempotency_key: &String) -> (open: bool)
        ensures
            open == self@.open_submissions.contains(submission(user_id, idempotency_key@)),
    {
        let mut i: usize = 0;
        while i < self.open_submissions.len()
            invariant
                i <= self.open_submissions.len(),
                forall|j: int|
                    0 <= j < i ==> #[trigger] self.open_submissions[j].id() != submission(
                        user_id,
                        idempotency_key@,
                    ),
            decreases self.open_submissions.len() - i,
        {
            if self.open_submissions[i].user_id == user_id
                && self.open_submissions[i].idempotency_key == *idempotency_key {
                assert(self.open_submissions[i as int].id() == submission(
                    user_id,
                    idempotency_key@,
                ));
                return true;
            }
            i += 1;
        }
        false
    }

    /// Inserts a row for the submission unless one exists, as a durable store
    /// does under a uniqueness constraint, and says how many rows it inserted.
    /// The row stays invisible, and locks its identity, until the transaction
    /// that inserted it commits or rolls back. While another transaction
    /// holds that lock nothing is inserted and the caller has to wait.
    pub fn insert_idempotency_row(&mut self, user_id: u128, idempotency_key: &String) -> (result:
        Result<u64, IdempotencyError>)
        requires
            old(self).wf(),
        ensures
            final(self).wf(),
            ({
                let id = submission(user_id, idempotency_key@);
                if old(self)@.open_submissions.contains(id) {
                    result == Err::<u64, _>(IdempotencyError::WouldBlock) && final(self)@ == old(
                        self,
                    )@
                } else if old(self)@.idempotency.dom().contains(id) {
                    result == Ok::<u64, IdempotencyError>(0) && final(self)@ == old(self)@
                } else {
                    result == Ok::<u64, IdempotencyError>(1) && final(self)@ == old(
                        self,
                    )@.with_open(id)
                }
            }),
    {
        if self.is_open(user_id, idempotency_key) {
            return Err(IdempotencyError::WouldBlock);
        }
        if self.find_record(user_id, idempotency_key).is_some() {
            return Ok(0);
        }
        let ghost before = self.open_submissions@;
        self.open_submissions.push(
            OpenSubmission { user_id, idempotency_key: idempotency_key.clone() },
        );
        proof {
            let id = submission(user_id, idempotency_key@);
            let after = self.open_submissions@;
            assert(after[before.len() as int].id() == id);
            assert forall|other: SubmissionId| #[trigger]
                open_set(after).contains(other) == open_set(before).insert(id).contains(
                    other,
                ) by {
                if open_set(after).contains(other) {
                    let i = choose|i: int| 0 <= i < after.len() && #[trigger] after[i].id() == other;
                    if i < before.len() {
                        assert(before[i].id() == other);
                    }
                }
                if open_set(before).contains(other) {
                    let i = choose|i: int|
                        0 <= i < before.len() && #[trigger] before[i].id() == other;
                    assert(after[i].id() == other);
                }
            }
            assert(self@.open_submissions =~= old(self)@.open_submissions.insert(id));
            assert(self@ == old(self)@.with_open(id));
            lemma_wf_locks_changed(old(self)@, self@);
        }
        Ok(1)
    }

    /// The response fields of the committed row with this identity, if there
    /// is such a row.
    pub fn fetch_saved_response(&self, user_id: u128, idempotency_key: &String) -> (row: Option<
        SavedResponseRecord,
    >)
        requires
            self.wf(),
        ensures
            match row {
                Some(record) => {
                    &&& self@.idempotency.dom().contains(submission(user_id, idempotency_key@))
                    &&& record@ == self@.idempotency[submission(
                        user_id,
                        idempotency_key@,
                    )].response
                },
                None => !self@.idempotency.dom().contains(submission(user_id, idempotency_key@)),
            },
    {
        match self.find_record(user_id, idempotency_key) {
            Some(i) => {
                proof {
                    lemma_record_at(self.idempotency@, i as int);
                }
                Some(self.idempotency[i].response.clone())
            },
            None => None,
        }
    }

    /// Releases the lock of a submission, if it is held.
    pub(super) fn release_submission(&mut self, user_id: u128, idempotency_key: &String)
        requires
            old(self).wf(),
        ensures
            final(self).wf(),
            final(self)@ == old(self)@.without_open(submission(user_id, idempotency_key@)),
    {
        let ghost id = submission(user_id, idempotency_key@);
        let ghost before = self.open_submissions@;
        let mut kept: Vec<OpenSubmission> = Vec::new();
        let mut i: usize = 0;
        while i < self.open_submissions.len()
            invariant
                i <= self.open_submissions.len(),
                self.open_submissions@ == before,
                id == submission(user_id, idempotency_key@),
                forall|j: int| 0 <= j < kept.len() ==> #[trigger] kept[j].id() != id,
                forall|j: int|
                    0 <= j < kept.len() ==> open_set(before).contains(#[trigger] kept[j].id()),
                forall|j: int|
                    0 <= j < i && #[trigger] before[j].id() != id ==> open_set(kept@).contains(
                        before[j].id(),
                    ),
            decreases self.open_submissions.len() - i,
        {
            let same = self.open_submissions[i].user_id == user_id
                && self.open_submissions[i].idempotency_key == *idempotency_key;
            if !same {
                let ghost kept_before = kept@;
                kept.push(
                    OpenSubmission {
                        user_id: self.open_submissions[i].user_id,
                        idempotency_key: self.open_submissions[i].idempotency_key.clone(),
                    },
                );
                proof {
                    assert(kept[kept_before.len() as int].id() == before[i as int].id());
                    assert forall|j: int|
                        0 <= j < i + 1 && #[trigger] before[j].id() != id implies open_set(
                        kept@,
                    ).contains(before[j].id()) by {
                        if j < i {
                            let k = choose|k: int|
                                0 <= k < kept_before.len() && #[trigger] kept_before[k].id()
                                    == before[j].id();
                            assert(kept[k].id() == before[j].id());
                        }
                    }
                }
            }
            i += 1;
        }
        self.open_submissions = kept;
        proof {
            assert forall|other: SubmissionId| #[trigger]
                open_set(kept@).contains(other) == open_set(before).remove(id).contains(
                    other,
                ) by {
                if open_set(kept@).contains(other) {
                    let k = choose|k: int| 0 <= k < kept.len() && #[trigger] kept[k].id() == other;
                    assert(kept[k].id() != id);
                }
                if open_set(before).remove(id).contains(other) {
                    let j = choose|j: int|
                        0 <= j < before.len() && #[trigger] before[j].id() == other;
                    assert(before[j].id() != id);
                }
            }
            assert(self@.open_submissions =~= old(self)@.open_submissions.remove(id));
            assert(self@ == old(self)@.without_open(id));
            lemma_wf_locks_changed(old(self)@, self@);
        }
    }
}

} // verus!
