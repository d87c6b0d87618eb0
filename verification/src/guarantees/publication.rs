//! Guarantees of publication: idempotence, isolation by key, and safety
//! under concurrent submissions.

use crate::idempotency::key::is_valid_key;
use crate::idempotency::persistence::{
    lemma_replay_is_verbatim, IdempotencyError, NextActionView, ResponseView,
};
use crate::routes::newsletter::{
    accepted, confirmed_emails, is_executed, issue_of, publication, publish_outcome,
    store_after_publish, NewsletterFormView, PublishError, SubscriptionView,
};
use crate::store::{
    lemma_committed_wf, pending_rows, submission, tasks_for, PublishTransactionView, StoreView,
    SubmissionId,
};
use vstd::prelude::*;

verus! {

/// One submission of the publication form, with everything that decides
/// how it is answered.
pub struct Submission {
    pub form: NewsletterFormView,
    pub subscriptions: Seq<SubscriptionView>,
    pub newsletter_issue_id: u128,
    pub now: u64,
}

impl Submission {
    /// What the caller `user_id` is answered in `store`.
    pub open spec fn outcome(self, store: StoreView, user_id: u128) -> Result<
        ResponseView,
        PublishError,
    > {
        publish_outcome(
            store,
            self.form,
            user_id,
            self.subscriptions,
            self.newsletter_issue_id,
            self.now,
        )
    }

    /// The tables after the caller `user_id` has submitted in `store`.
    pub open spec fn after(self, store: StoreView, user_id: u128) -> StoreView {
        store_after_publish(
            store,
            self.form,
            user_id,
            self.subscriptions,
            self.newsletter_issue_id,
            self.now,
        )
    }

    /// Whether the submission is executed rather than replayed or refused.
    pub open spec fn executes(self, store: StoreView, user_id: u128) -> bool {
        is_executed(
            store,
            self.form,
            user_id,
            self.subscriptions,
            self.newsletter_issue_id,
            self.now,
        )
    }
}

/// The tables after one caller has made a series of submissions.
pub open spec fn after_all(store: StoreView, user_id: u128, submissions: Seq<Submission>) -> StoreView
    decreases submissions.len(),
{
    if submissions.len() == 0 {
        store
    } else {
        submissions.last().after(after_all(store, user_id, submissions.drop_last()), user_id)
    }
}

/// A submission keeps the constraints of the tables.
pub proof fn lemma_publish_keeps_wf(store: StoreView, user_id: u128, submission: Submission)
    requires
        store.wf(),
    ensures
        submission.after(store, user_id).wf(),
{
    if submission.executes(store, user_id) {
        let id = crate::store::submission(user_id, submission.form.idempotency_key);
        let writes = publication(
            submission.form,
            user_id,
            submission.subscriptions,
            submission.newsletter_issue_id,
            submission.now,
        );
        let tasks = writes.tasks;
        assert(writes.issues[0].newsletter_issue_id == submission.newsletter_issue_id);
        assert forall|i: int| 0 <= i < tasks.len() implies !store.has_task(#[trigger] tasks[i]) by {
            if store.has_task(tasks[i]) {
                let at = choose|at: int|
                    0 <= at < store.issue_delivery_queue.len()
                        && #[trigger] store.issue_delivery_queue[at].task == tasks[i];
                assert(store.has_issue(store.issue_delivery_queue[at].task.newsletter_issue_id));
            }
        }
        assert forall|i: int| 0 <= i < tasks.len() implies writes.has_issue(
            (#[trigger] tasks[i]).newsletter_issue_id,
        ) by {}
        assert(store.commit_error(writes) is None);
        lemma_committed_wf(store, writes, id, accepted());
        let committed = store.committed(writes, id, accepted());
        let after = submission.after(store, user_id);
        assert(committed.open_submissions =~= after.open_submissions);
        assert(committed.newsletter_issues =~= after.newsletter_issues);
        assert(committed == after);
    }
}

/// Once a submission has been answered with a response, every later
/// submission of the same caller under the same key is answered with that
/// response, byte for byte, and changes nothing: no second issue is stored
/// and no delivery is enqueued again, whatever the later submission holds.
pub proof fn lemma_resubmission_replays(
    store: StoreView,
    user_id: u128,
    first: Submission,
    again: Submission,
)
    requires
        store.wf(),
        first.outcome(store, user_id) is Ok,
        again.form.idempotency_key == first.form.idempotency_key,
    ensures
        again.outcome(first.after(store, user_id), user_id) == first.outcome(store, user_id),
        again.after(first.after(store, user_id), user_id) == first.after(store, user_id),
        !again.executes(first.after(store, user_id), user_id),
{
    lemma_replay_is_verbatim(accepted());
}

/// Repeating a submission any number of times is the same as making it
/// once: the tables are those that the first answered submission left,
/// with its one issue and its one set of deliveries.
pub proof fn lemma_idempotence(
    store: StoreView,
    user_id: u128,
    first: Submission,
    retries: Seq<Submission>,
)
    requires
        store.wf(),
        first.outcome(store, user_id) is Ok,
        forall|i: int|
            0 <= i < retries.len() ==> (#[trigger] retries[i]).form.idempotency_key
                == first.form.idempotency_key,
    ensures
        after_all(first.after(store, user_id), user_id, retries) == first.after(store, user_id),
        forall|i: int|
            0 <= i < retries.len() ==> (#[trigger] retries[i]).outcome(
                first.after(store, user_id),
                user_id,
            ) == first.outcome(store, user_id),
    decreases retries.len(),
{
    if retries.len() > 0 {
        lemma_idempotence(store, user_id, first, retries.drop_last());
        lemma_resubmission_replays(store, user_id, first, retries.last());
    }
    assert forall|i: int| 0 <= i < retries.len() implies (#[trigger] retries[i]).outcome(
        first.after(store, user_id),
        user_id,
    ) == first.outcome(store, user_id) by {
        lemma_resubmission_replays(store, user_id, first, retries[i]);
    }
}

/// Two submissions of one caller under different keys are executed
/// independently. Each stores its own issue and enqueues its own
/// deliveries; the second finds the tables as the first left them and adds
/// to them, and no delivery belongs to both.
pub proof fn lemma_isolation_by_key(
    store: StoreView,
    user_id: u128,
    one: Submission,
    other: Submission,
)
    requires
        store.wf(),
        one.form.idempotency_key != other.form.idempotency_key,
        one.newsletter_issue_id != other.newsletter_issue_id,
        one.executes(store, user_id),
        other.executes(store, user_id),
    ensures
        other.executes(one.after(store, user_id), user_id),
        other.outcome(one.after(store, user_id), user_id) == Ok::<_, PublishError>(accepted()),
        ({
            let both = other.after(one.after(store, user_id), user_id);
            let tasks_of_one = tasks_for(
                one.newsletter_issue_id,
                confirmed_emails(one.subscriptions),
            );
            let tasks_of_other = tasks_for(
                other.newsletter_issue_id,
                confirmed_emails(other.subscriptions),
            );
            &&& both.newsletter_issues == store.newsletter_issues.push(
                issue_of(one.form, one.newsletter_issue_id, one.now),
            ).push(issue_of(other.form, other.newsletter_issue_id, other.now))
            &&& both.issue_delivery_queue == store.issue_delivery_queue + pending_rows(tasks_of_one)
                + pending_rows(tasks_of_other)
            &&& both.idempotency.dom() == store.idempotency.dom().insert(
                submission(user_id, one.form.idempotency_key),
            ).insert(submission(user_id, other.form.idempotency_key))
            &&& forall|i: int, j: int|
                0 <= i < tasks_of_one.len() && 0 <= j < tasks_of_other.len()
                    ==> tasks_of_one[i] != tasks_of_other[j]
        }),
{
    let after_one = one.after(store, user_id);
    let issues = after_one.newsletter_issues;
    assert(!after_one.has_issue(other.newsletter_issue_id)) by {
        if after_one.has_issue(other.newsletter_issue_id) {
            let i = choose|i: int|
                0 <= i < issues.len() && #[trigger] issues[i].newsletter_issue_id
                    == other.newsletter_issue_id;
            if i < store.newsletter_issues.len() {
                assert(store.newsletter_issues[i].newsletter_issue_id
                    == other.newsletter_issue_id);
            }
        }
    }
    let both = other.after(after_one, user_id);
    assert(both.idempotency.dom() =~= store.idempotency.dom().insert(
        submission(user_id, one.form.idempotency_key),
    ).insert(submission(user_id, other.form.idempotency_key)));
}

/// While a submission is being executed, a second submission of the same
/// caller under the same key cannot proceed: it has to wait, and it changes
/// nothing. It gets neither a transaction of its own nor a response.
pub proof fn lemma_concurrent_submission_waits(
    store: StoreView,
    id: SubmissionId,
    now: u64,
    second: Submission,
    user_id: u128,
)
    requires
        store.wf(),
        store.is_first(id),
        id == submission(user_id, second.form.idempotency_key),
        is_valid_key(second.form.idempotency_key),
    ensures
        store.after_try_processing(id) == store.with_open(id),
        store.with_open(id).wf(),
        store.with_open(id).next_action(id, now) == Err::<NextActionView, _>(
            IdempotencyError::WouldBlock,
        ),
        store.with_open(id).after_try_processing(id) == store.with_open(id),
        second.outcome(store.with_open(id), user_id) == Err::<ResponseView, _>(
            PublishError::Idempotency(IdempotencyError::WouldBlock),
        ),
        second.after(store.with_open(id), user_id) == store.with_open(id),
{
    let open = store.with_open(id);
    assert forall|i: int| 0 <= i < open.issue_delivery_queue.len() implies open.has_issue(
        #[trigger] open.issue_delivery_queue[i].task.newsletter_issue_id,
    ) by {
        assert(store.has_issue(store.issue_delivery_queue[i].task.newsletter_issue_id));
    }
}

/// Once the first of two concurrent submissions has committed, the second
/// is answered with the response that the first captured, and the tables
/// hold what the first wrote and nothing more: one execution, one result.
pub proof fn lemma_concurrent_submission_replays(
    store: StoreView,
    transaction: PublishTransactionView,
    response: ResponseView,
    now: u64,
)
    requires
        store.wf(),
        transaction.wf(),
        response.wf(),
        store.commit_error(transaction) is None,
    ensures
        ({
            let done = store.committed(transaction, transaction.id, response);
            &&& done.wf()
            &&& done.next_action(transaction.id, now) == Ok::<_, IdempotencyError>(
                NextActionView::ReturnSavedResponse(response),
            )
            &&& done.after_try_processing(transaction.id) == done
            &&& done.newsletter_issues == store.newsletter_issues + transaction.issues
            &&& done.issue_delivery_queue == store.issue_delivery_queue + pending_rows(
                transaction.tasks,
            )
        }),
{
    lemma_committed_wf(store, transaction, transaction.id, response);
    lemma_replay_is_verbatim(response);
}

/// Two submissions of one caller under one key that arrive together are
/// executed once. While the one that came first is open, the other waits
/// and writes nothing. Once the first has committed, the other is answered
/// with the very response of the first, and the tables hold exactly one
/// issue more than before the two arrived.
pub proof fn lemma_concurrent_submissions_execute_once(
    store: StoreView,
    user_id: u128,
    first: Submission,
    second: Submission,
)
    requires
        store.wf(),
        first.executes(store, user_id),
        second.form.idempotency_key == first.form.idempotency_key,
    ensures
        ({
            let id = submission(user_id, first.form.idempotency_key);
            let open = store.after_try_processing(id);
            let done = first.after(store, user_id);
            &&& open.open_submissions.contains(id)
            &&& second.outcome(open, user_id) == Err::<ResponseView, _>(
                PublishError::Idempotency(IdempotencyError::WouldBlock),
            )
            &&& second.after(open, user_id) == open
            &&& second.outcome(done, user_id) == first.outcome(store, user_id)
            &&& second.after(done, user_id) == done
            &&& done.newsletter_issues.len() == store.newsletter_issues.len() + 1
        }),
{
    lemma_resubmission_replays(store, user_id, first, second);
}

/// A submission that is abandoned before it commits leaves no trace: the
/// tables are as they were before it began, and the next submission of the
/// same caller under the same key starts afresh.
pub proof fn lemma_abandoned_submission_restarts(store: StoreView, id: SubmissionId)
    requires
        store.wf(),
        store.is_first(id),
    ensures
        store.with_open(id).without_open(id) == store,
        store.with_open(id).without_open(id).is_first(id),
{
    assert(store.with_open(id).without_open(id).open_submissions =~= store.open_submissions);
}

} // verus!
