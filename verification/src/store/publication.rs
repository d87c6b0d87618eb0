//! The transaction of a publication: what it has written, and how its
//! writes reach the tables when it commits.

use crate::idempotency::persistence::{
    encode, response_record, Response, ResponseView, SavedResponseRecord,
    SavedResponseRecordView,
};
use crate::store::{
    issues_have, lemma_record_at, lemma_records_push, lemma_records_update, submission,
    tasks_have, DeliveryTask, DeliveryTaskView, IdempotencyRecord, NewsletterIssue,
    NewsletterIssueView, QueueRow, QueueRowView, RecordContent, Store, StoreError, StoreView,
    SubmissionId,
};
use vstd::prelude::*;

verus! {

/// The tasks that deliver one issue to the given addresses, in their order.
pub open spec fn tasks_for(newsletter_issue_id: u128, emails: Seq<Seq<char>>) -> Seq<
    DeliveryTaskView,
> {
    Seq::new(
        emails.len(),
        |i: int| DeliveryTaskView { newsletter_issue_id, subscriber_email: emails[i] },
    )
}

/// No task occurs twice.
pub open spec fn distinct_tasks(tasks: Seq<DeliveryTaskView>) -> bool {
    forall|i: int, j: int| 0 <= i < j < tasks.len() ==> tasks[i] != tasks[j]
}

/// The tasks as fresh rows of the queue, none of them claimed.
pub open spec fn pending_rows(tasks: Seq<DeliveryTaskView>) -> Seq<QueueRowView> {
    Seq::new(tasks.len(), |i: int| QueueRowView { task: tasks[i], locked: false })
}

/// What enqueueing one task for each address gives: the answer, and the
/// transaction afterwards. Where at least one task is to be written and its
/// issue exists neither in the store nor in the transaction, the tasks are
/// refused; so they are where one of them occurs twice or is there already.
/// Otherwise all of them follow the tasks that the transaction holds.
pub open spec fn enqueue_outcome(
    store: StoreView,
    transaction: PublishTransactionView,
    newsletter_issue_id: u128,
    emails: Seq<Seq<char>>,
) -> (Result<(), StoreError>, PublishTransactionView) {
    let tasks = tasks_for(newsletter_issue_id, emails);
    if tasks.len() > 0 && !store.has_issue(newsletter_issue_id) && !transaction.has_issue(
        newsletter_issue_id,
    ) {
        (Err(StoreError::UnknownIssue), transaction)
    } else if !distinct_tasks(tasks) || exists|i: int|
        0 <= i < tasks.len() && (store.has_task(#[trigger] tasks[i]) || transaction.has_task(
            tasks[i],
        )) {
        (Err(StoreError::DuplicateTask), transaction)
    } else {
        (Ok(()), PublishTransactionView { tasks: transaction.tasks + tasks, ..transaction })
    }
}

/// The open transaction of one publication. It holds what the publication
/// has written so far; none of it is in the tables yet.
pub struct PublishTransaction {
    user_id: u128,
    idempotency_key: String,
    created_at: u64,
    issues: Vec<NewsletterIssue>,
    tasks: Vec<DeliveryTask>,
}

/// Mathematical content of a [`PublishTransaction`].
pub struct PublishTransactionView {
    /// The submission that the transaction executes.
    pub id: SubmissionId,
    /// When the submission was accepted.
    pub created_at: u64,
    /// The issues written so far.
    pub issues: Seq<NewsletterIssueView>,
    /// The tasks enqueued so far.
    pub tasks: Seq<DeliveryTaskView>,
}

impl PublishTransactionView {
    /// Whether the transaction has written an issue with this identifier.
    pub open spec fn has_issue(self, newsletter_issue_id: u128) -> bool {
        issues_have(self.issues, newsletter_issue_id)
    }

    /// Whether the transaction has enqueued the given task.
    pub open spec fn has_task(self, task: DeliveryTaskView) -> bool {
        tasks_have(self.tasks, task)
    }

    /// What the transaction holds does not contradict itself.
    pub open spec fn wf(self) -> bool {
        &&& forall|i: int, j: int|
            0 <= i < j < self.issues.len() ==> #[trigger] self.issues[i].newsletter_issue_id
                != #[trigger] self.issues[j].newsletter_issue_id
        &&& distinct_tasks(self.tasks)
    }

    /// A transaction that has written nothing yet.
    pub open spec fn begun(id: SubmissionId, created_at: u64) -> PublishTransactionView {
        PublishTransactionView { id, created_at, issues: Seq::empty(), tasks: Seq::empty() }
    }
}

impl View for PublishTransaction {
    type V = PublishTransactionView;

    closed spec fn view(&self) -> PublishTransactionView {
        PublishTransactionView {
            id: submission(self.user_id, self.idempotency_key@),
            created_at: self.created_at,
            issues: self.issues.deep_view(),
            tasks: self.tasks.deep_view(),
        }
    }
}

/// Whether a list of issues holds one with this identifier.
fn issues_contain(issues: &Vec<NewsletterIssue>, newsletter_issue_id: u128) -> (found: bool)
    ensures
        found == issues_have(issues.deep_view(), newsletter_issue_id),
{
    let mut i: usize = 0;
    while i < issues.len()
        invariant
            i <= issues.len(),
            forall|j: int|
                0 <= j < i ==> #[trigger] issues.deep_view()[j].newsletter_issue_id
                    != newsletter_issue_id,
        decreases issues.len() - i,
    {
        if issues[i].newsletter_issue_id == newsletter_issue_id {
            assert(issues.deep_view()[i as int].newsletter_issue_id == newsletter_issue_id);
            return true;
        }
        i += 1;
    }
    false
}

/// Whether a list of tasks holds this recipient for this issue.
fn tasks_contain(tasks: &Vec<DeliveryTask>, newsletter_issue_id: u128, email: &String) -> (found:
    bool)
    ensures
        found == tasks_have(
            tasks.deep_view(),
            DeliveryTaskView { newsletter_issue_id, subscriber_email: email@ },
        ),
{
    let mut i: usize = 0;
    while i < tasks.len()
        invariant
            i <= tasks.len(),
            forall|j: int|
                0 <= j < i ==> #[trigger] tasks.deep_view()[j] != (DeliveryTaskView {
                    newsletter_issue_id,
                    subscriber_email: email@,
                }),
        decreases tasks.len() - i,
    {
        if tasks[i].newsletter_issue_id == newsletter_issue_id && tasks[i].subscriber_email
            == *email {
            assert(tasks.deep_view()[i as int] == (DeliveryTaskView {
                newsletter_issue_id,
                subscriber_email: email@,
            }));
            return true;
        }
        i += 1;
    }
    false
}

impl Store {
    /// Whether an issue with this identifier is stored.
    pub fn contains_issue(&self, newsletter_issue_id: u128) -> (found: bool)
        ensures
            found == self@.has_issue(newsletter_issue_id),
    {
        issues_contain(&self.newsletter_issues, newsletter_issue_id)
    }

    /// Whether the queue holds this recipient for this issue, claimed or not.
    pub fn contains_task(&self, newsletter_issue_id: u128, email: &String) -> (found: bool)
        ensures
            found == self@.has_task(
                DeliveryTaskView { newsletter_issue_id, subscriber_email: email@ },
            ),
    {
        let ghost task = DeliveryTaskView { newsletter_issue_id, subscriber_email: email@ };
        let mut i: usize = 0;
        while i < self.issue_delivery_queue.len()
            invariant
                i <= self.issue_delivery_queue.len(),
                task == (DeliveryTaskView { newsletter_issue_id, subscriber_email: email@ }),
                forall|j: int| 0 <= j < i ==> #[trigger] self@.issue_delivery_queue[j].task != task,
            decreases self.issue_delivery_queue.len() - i,
        {
            if self.issue_delivery_queue[i].task.newsletter_issue_id == newsletter_issue_id
                && self.issue_delivery_queue[i].task.subscriber_email == *email {
                assert(self@.issue_delivery_queue[i as int].task == task);
                return true;
            }
            i += 1;
        }
        false
    }
}

impl PublishTransaction {
    /// What the transaction holds does not contradict itself.
    pub open spec fn wf(&self) -> bool {
        self@.wf()
    }

    /// Opens the transaction of a submission that has just been accepted.
    pub(crate) fn new(user_id: u128, idempotency_key: String, created_at: u64) -> (transaction:
        PublishTransaction)
        ensures
            transaction.wf(),
            transaction@ == PublishTransactionView::begun(
                submission(user_id, idempotency_key@),
                created_at,
            ),
    {
        let transaction = PublishTransaction {
            user_id,
            idempotency_key,
            created_at,
            issues: Vec::new(),
            tasks: Vec::new(),
        };
        assert(transaction@.issues =~= Seq::empty());
        assert(transaction@.tasks =~= Seq::empty());
        transaction
    }

    /// Writes an issue. An identifier that the store or the transaction
    /// holds already is refused, and nothing is written.
    pub fn insert_issue(&mut self, store: &Store, issue: NewsletterIssue) -> (result: Result<
        (),
        StoreError,
    >)
        requires
            old(self).wf(),
        ensures
            final(self).wf(),
            if store@.has_issue(issue.newsletter_issue_id) || old(self)@.has_issue(
                issue.newsletter_issue_id,
            ) {
                result == Err::<(), _>(StoreError::DuplicateIssue) && final(self)@ == old(self)@
            } else {
                result == Ok::<(), StoreError>(()) && final(self)@ == (PublishTransactionView {
                    issues: old(self)@.issues.push(issue@),
                    ..old(self)@
                })
            },
    {
        if store.contains_issue(issue.newsletter_issue_id) || issues_contain(
            &self.issues,
            issue.newsletter_issue_id,
        ) {
            return Err(StoreError::DuplicateIssue);
        }
        self.issues.push(issue);
        assert(self@.issues =~= old(self)@.issues.push(issue@));
        Ok(())
    }

    /// Enqueues one task for each address, all of them or none. Where a
    /// task is to be written its issue must exist, in the store or in the
    /// transaction; no task may be there already, in the store's queue or
    /// in the transaction, or occur twice. With no address nothing is
    /// written and nothing is refused.
    pub fn enqueue_tasks(
        &mut self,
        store: &Store,
        newsletter_issue_id: u128,
        emails: &Vec<String>,
    ) -> (result: Result<(), StoreError>)
        requires
            old(self).wf(),
        ensures
            final(self).wf(),
            (result, final(self)@) == enqueue_outcome(
                store@,
                old(self)@,
                newsletter_issue_id,
                emails.deep_view(),
            ),
    {
        if emails.len() > 0 && !store.contains_issue(newsletter_issue_id) && !issues_contain(
            &self.issues,
            newsletter_issue_id,
        ) {
            return Err(StoreError::UnknownIssue);
        }
        let ghost tasks = tasks_for(newsletter_issue_id, emails.deep_view());
        let mut fresh: Vec<DeliveryTask> = Vec::new();
        let mut i: usize = 0;
        while i < emails.len()
            invariant
                i <= emails.len(),
                tasks == tasks_for(newsletter_issue_id, emails.deep_view()),
                tasks.len() == emails.len(),
                fresh.len() == i,
                fresh.deep_view() == tasks.subrange(0, i as int),
                *self == *old(self),
                old(self).wf(),
                emails.len() == 0 || store@.has_issue(newsletter_issue_id) || old(self)@.has_issue(
                    newsletter_issue_id,
                ),
                distinct_tasks(tasks.subrange(0, i as int)),
                forall|j: int|
                    0 <= j < i ==> !store@.has_task(#[trigger] tasks[j]) && !self@.has_task(
                        tasks[j],
                    ),
            decreases emails.len() - i,
        {
            let ghost task = tasks[i as int];
            assert(task == (DeliveryTaskView {
                newsletter_issue_id,
                subscriber_email: emails[i as int]@,
            }));
            let taken = store.contains_task(newsletter_issue_id, &emails[i]) || tasks_contain(
                &self.tasks,
                newsletter_issue_id,
                &emails[i],
            );
            let repeated = tasks_contain(&fresh, newsletter_issue_id, &emails[i]);
            if taken || repeated {
                proof {
                    if taken {
                        assert(store@.has_task(tasks[i as int]) || self@.has_task(
                            tasks[i as int],
                        ));
                    } else {
                        let j = choose|j: int|
                            0 <= j < fresh.len() && #[trigger] fresh.deep_view()[j] == task;
                        assert(tasks.subrange(0, i as int)[j] == tasks[j]);
                        assert(tasks[j] == tasks[i as int]);
                        assert(!distinct_tasks(tasks));
                    }
                }
                return Err(StoreError::DuplicateTask);
            }

            let ghost old_fresh = fresh.deep_view();
            fresh.push(
                DeliveryTask { newsletter_issue_id, subscriber_email: emails[i].clone() },
            );
            proof {
                let checked = tasks.subrange(0, i as int);
                let extended = tasks.subrange(0, i + 1);
                assert(fresh.deep_view()[i as int] == task);
                assert forall|a: int| 0 <= a < i implies fresh.deep_view()[a] == extended[a] by {
                    assert(old_fresh[a] == checked[a]);
                }
                assert(fresh.deep_view() =~= extended);
                assert forall|a: int, b: int| 0 <= a < b < extended.len() implies extended[a]
                    != extended[b] by {
                    if b < i {
                        assert(checked[a] != checked[b]);
                    } else {
                        assert(old_fresh[a] == checked[a]);
                        assert(old_fresh[a] != task);
                    }
                }
            }
            i += 1;
        }
        proof {
            assert(tasks.subrange(0, emails.len() as int) =~= tasks);
        }
        let ghost before = self.tasks.deep_view();
        self.tasks.append(&mut fresh);
        proof {
            assert(self@.tasks =~= before + tasks);
            assert forall|a: int, b: int| 0 <= a < b < self@.tasks.len() implies self@.tasks[a]
                != self@.tasks[b] by {
                if b < before.len() {
                    assert(before[a] != before[b]);
                } else if a < before.len() {
                    assert(!old(self)@.has_task(tasks[b - before.len()]));
                } else {
                    assert(tasks[a - before.len()] != tasks[b - before.len()]);
                }
            }
        }
        Ok(())
    }
}

impl StoreView {
    /// The constraint that refuses the commit of a publication, if one does.
    pub open spec fn commit_error(self, transaction: PublishTransactionView) -> Option<StoreError> {
        if self.idempotency.dom().contains(transaction.id) {
            Some(StoreError::DuplicateRecord)
        } else if exists|i: int|
            0 <= i < transaction.issues.len() && self.has_issue(
                #[trigger] transaction.issues[i].newsletter_issue_id,
            ) {
            Some(StoreError::DuplicateIssue)
        } else if exists|i: int|
            0 <= i < transaction.tasks.len() && self.has_task(#[trigger] transaction.tasks[i]) {
            Some(StoreError::DuplicateTask)
        } else if exists|i: int|
            0 <= i < transaction.tasks.len() && !self.has_issue(
                (#[trigger] transaction.tasks[i]).newsletter_issue_id,
            ) && !transaction.has_issue(transaction.tasks[i].newsletter_issue_id) {
            Some(StoreError::UnknownIssue)
        } else {
            None
        }
    }

    /// The idempotency table after a publication has committed. The
    /// transaction's own row becomes visible, and the response is written
    /// to the row of the submission `saved_for`, if that row is the
    /// transaction's own or was committed before.
    pub open spec fn records_after_commit(
        self,
        transaction: PublishTransactionView,
        saved_for: SubmissionId,
        response: ResponseView,
    ) -> Map<SubmissionId, RecordContent> {
        if saved_for == transaction.id {
            self.idempotency.insert(
                transaction.id,
                RecordContent { created_at: transaction.created_at, response: encode(response) },
            )
        } else if self.idempotency.dom().contains(saved_for) {
            self.idempotency.insert(
                saved_for,
                RecordContent {
                    created_at: self.idempotency[saved_for].created_at,
                    response: encode(response),
                },
            ).insert(
                transaction.id,
                RecordContent {
                    created_at: transaction.created_at,
                    response: SavedResponseRecordView::empty(),
                },
            )
        } else {
            self.idempotency.insert(
                transaction.id,
                RecordContent {
                    created_at: transaction.created_at,
                    response: SavedResponseRecordView::empty(),
                },
            )
        }
    }

    /// The tables after a publication has committed: its record, its issues
    /// and its tasks have become visible together, and its lock is released.
    pub open spec fn committed(
        self,
        transaction: PublishTransactionView,
        saved_for: SubmissionId,
        response: ResponseView,
    ) -> StoreView {
        StoreView {
            idempotency: self.records_after_commit(transaction, saved_for, response),
            open_submissions: self.open_submissions.remove(transaction.id),
            newsletter_issues: self.newsletter_issues + transaction.issues,
            issue_delivery_queue: self.issue_delivery_queue + pending_rows(transaction.tasks),
        }
    }
}

/// A commit that no constraint refuses leaves the tables well formed.
pub proof fn lemma_committed_wf(
    before: StoreView,
    transaction: PublishTransactionView,
    saved_for: SubmissionId,
    response: ResponseView,
)
    requires
        before.wf(),
        transaction.wf(),
        before.commit_error(transaction) is None,
    ensures
        before.committed(transaction, saved_for, response).wf(),
{
    let after = before.committed(transaction, saved_for, response);
    let issues = after.newsletter_issues;
    let queue = after.issue_delivery_queue;
    let old_issues = before.newsletter_issues.len();
    let old_queue = before.issue_delivery_queue.len();
    assert forall|i: int, j: int| 0 <= i < j < issues.len() implies #[trigger] issues[i].newsletter_issue_id
        != #[trigger] issues[j].newsletter_issue_id by {
        if j < old_issues {
        } else if i < old_issues {
            if issues[i].newsletter_issue_id == issues[j].newsletter_issue_id {
                assert(before.newsletter_issues[i].newsletter_issue_id
                    == transaction.issues[j - old_issues].newsletter_issue_id);
                assert(before.has_issue(transaction.issues[j - old_issues].newsletter_issue_id));
            }
        } else {
            assert(transaction.issues[i - old_issues].newsletter_issue_id
                != transaction.issues[j - old_issues].newsletter_issue_id);
        }
    }
    assert forall|i: int, j: int| 0 <= i < j < queue.len() implies #[trigger] queue[i].task
        != #[trigger] queue[j].task by {
        if j < old_queue {
        } else if i < old_queue {
            if queue[i].task == queue[j].task {
                assert(before.issue_delivery_queue[i].task == transaction.tasks[j - old_queue]);
                assert(before.has_task(transaction.tasks[j - old_queue]));
            }
        } else {
            assert(transaction.tasks[i - old_queue] != transaction.tasks[j - old_queue]);
        }
    }
    assert forall|i: int| 0 <= i < queue.len() implies after.has_issue(
        #[trigger] queue[i].task.newsletter_issue_id,
    ) by {
        let wanted = queue[i].task.newsletter_issue_id;
        if i < old_queue {
            assert(before.has_issue(before.issue_delivery_queue[i].task.newsletter_issue_id));
        } else {
            assert(transaction.tasks[i - old_queue].newsletter_issue_id == wanted);
        }
        if before.has_issue(wanted) {
            let j = choose|j: int|
                0 <= j < before.newsletter_issues.len()
                    && #[trigger] before.newsletter_issues[j].newsletter_issue_id == wanted;
            assert(issues[j].newsletter_issue_id == wanted);
        } else {
            assert(transaction.has_issue(wanted));
            let j = choose|j: int|
                0 <= j < transaction.issues.len()
                    && #[trigger] transaction.issues[j].newsletter_issue_id == wanted;
            assert(issues[old_issues + j].newsletter_issue_id == wanted);
        }
    }
}

impl Store {
    /// Commits a publication: writes `response` to the row of the
    /// submission given by `user_id` and `idempotency_key`, then makes the
    /// transaction's record, issues and tasks visible together and releases
    /// its lock. Where a constraint refuses the commit, nothing becomes
    /// visible and the lock is released all the same.
    #[verifier::loop_isolation(false)]
    pub fn commit_publication(
        &mut self,
        transaction: PublishTransaction,
        user_id: u128,
        idempotency_key: &String,
        response: &Response,
    ) -> (result: Result<(), StoreError>)
        requires
            old(self).wf(),
            transaction.wf(),
        ensures
            final(self).wf(),
            match old(self)@.commit_error(transaction@) {
                Some(error) => result == Err::<(), _>(error) && final(self)@ == old(
                    self,
                )@.without_open(transaction@.id),
                None => result == Ok::<(), StoreError>(()) && final(self)@ == old(
                    self,
                )@.committed(transaction@, submission(user_id, idempotency_key@), response@),
            },
    {
        let ghost before = self@;
        let ghost writes = transaction@;
        let ghost saved_for = submission(user_id, idempotency_key@);
        let PublishTransaction {
            user_id: own_user_id,
            idempotency_key: own_key,
            created_at,
            mut issues,
            tasks,
        } = transaction;
        self.release_submission(own_user_id, &own_key);
        let ghost released = self@;
        assert(released.commit_error(writes) == before.commit_error(writes));
        if self.find_record(own_user_id, &own_key).is_some() {
            return Err(StoreError::DuplicateRecord);
        }
        let mut i: usize = 0;
        while i < issues.len()
            invariant
                i <= issues.len(),
                issues.deep_view() == writes.issues,
                self@ == released,
                forall|j: int|
                    0 <= j < i ==> !released.has_issue(
                        #[trigger] writes.issues[j].newsletter_issue_id,
                    ),
            decreases issues.len() - i,
        {
            if self.contains_issue(issues[i].newsletter_issue_id) {
                assert(released.has_issue(writes.issues[i as int].newsletter_issue_id));
                return Err(StoreError::DuplicateIssue);
            }
            i += 1;
        }
        let mut i: usize = 0;
        while i < tasks.len()
            invariant
                i <= tasks.len(),
                tasks.deep_view() == writes.tasks,
                self@ == released,
                forall|j: int| 0 <= j < i ==> !released.has_task(#[trigger] writes.tasks[j]),
            decreases tasks.len() - i,
        {
            if self.contains_task(tasks[i].newsletter_issue_id, &tasks[i].subscriber_email) {
                assert(released.has_task(writes.tasks[i as int]));
                return Err(StoreError::DuplicateTask);
            }
            i += 1;
        }
        let mut i: usize = 0;
        while i < tasks.len()
            invariant
                i <= tasks.len(),
                tasks.deep_view() == writes.tasks,
                issues.deep_view() == writes.issues,
                self@ == released,
                forall|j: int|
                    0 <= j < i ==> released.has_issue(
                        (#[trigger] writes.tasks[j]).newsletter_issue_id,
                    ) || writes.has_issue(writes.tasks[j].newsletter_issue_id),
            decreases tasks.len() - i,
        {
            if !self.contains_issue(tasks[i].newsletter_issue_id) && !issues_contain(
                &issues,
                tasks[i].newsletter_issue_id,
            ) {
                assert(!released.has_issue(writes.tasks[i as int].newsletter_issue_id));
                return Err(StoreError::UnknownIssue);
            }
            i += 1;
        }
        assert(released.commit_error(writes) is None);
        let same = own_user_id == user_id && own_key == *idempotency_key;
        let own_response = if same {
            response_record(response)
        } else {
            SavedResponseRecord::empty()
        };
        if !same {
            match self.find_record(user_id, idempotency_key) {
                Some(at) => {
                    let row = IdempotencyRecord {
                        user_id,
                        idempotency_key: idempotency_key.clone(),
                        created_at: self.idempotency[at].created_at,
                        response: response_record(response),
                    };
                    proof {
                        lemma_record_at(self.idempotency@, at as int);
                        lemma_records_update(self.idempotency@, at as int, row);
                    }
                    self.idempotency.set(at, row);
                },
                None => {},
            }
        }
        let own_row = IdempotencyRecord {
            user_id: own_user_id,
            idempotency_key: own_key,
            created_at,
            response: own_response,
        };
        proof {
            lemma_records_push(self.idempotency@, own_row);
        }
        self.idempotency.push(own_row);
        let ghost old_issues = self.newsletter_issues.deep_view();
        self.newsletter_issues.append(&mut issues);
        assert(self.newsletter_issues.deep_view() =~= old_issues + writes.issues);
        let ghost old_queue = self.issue_delivery_queue.deep_view();
        let ghost at_commit = *self;
        assert(old_queue + pending_rows(writes.tasks.subrange(0, 0)) =~= old_queue);
        let mut i: usize = 0;
        while i < tasks.len()
            invariant
                i <= tasks.len(),
                tasks.deep_view() == writes.tasks,
                self.issue_delivery_queue.deep_view() == old_queue + pending_rows(
                    writes.tasks.subrange(0, i as int),
                ),
                self.idempotency == at_commit.idempotency,
                self.open_submissions == at_commit.open_submissions,
                self.newsletter_issues == at_commit.newsletter_issues,
            decreases tasks.len() - i,
        {
            let ghost queued = self.issue_delivery_queue.deep_view();
            self.issue_delivery_queue.push(QueueRow { task: tasks[i].clone(), locked: false });
            proof {
                let now_queued = self.issue_delivery_queue.deep_view();
                let expected = old_queue + pending_rows(writes.tasks.subrange(0, i + 1));
                assert(now_queued.len() == expected.len());
                assert forall|k: int| 0 <= k < now_queued.len() implies now_queued[k]
                    == expected[k] by {
                    if k < queued.len() {
                        assert(now_queued[k] == queued[k]);
                    } else {
                        assert(now_queued[k].task == writes.tasks[i as int]);
                    }
                }
                assert(now_queued =~= expected);
            }
            i += 1;
        }
        proof {
            assert(writes.tasks.subrange(0, tasks.len() as int) =~= writes.tasks);
            assert(self@.idempotency == released.records_after_commit(
                writes,
                saved_for,
                response@,
            ));
            assert(self@ == before.committed(writes, saved_for, response@));
            lemma_committed_wf(before, writes, saved_for, response@);
        }
        Ok(())
    }

    /// Abandons a publication: nothing of it becomes visible, and its lock
    /// is released.
    pub fn rollback_publication(&mut self, transaction: PublishTransaction)
        requires
            old(self).wf(),
        ensures
            final(self).wf(),
            final(self)@ == old(self)@.without_open(transaction@.id),
    {
        self.release_submission(transaction.user_id, &transaction.idempotency_key);
    }
}

} // verus!
