//! The delivery queue: claiming a task, retiring it, and giving it up.

use crate::store::{
    DeliveryTask, DeliveryTaskView, NewsletterIssue, NewsletterIssueView, QueueRow, QueueRowView,
    Store, StoreView,
};
use vstd::prelude::*;

verus! {

/// Position of the row that holds a task.
pub open spec fn row_of(rows: Seq<QueueRowView>, task: DeliveryTaskView) -> int {
    choose|i: int| 0 <= i < rows.len() && #[trigger] rows[i].task == task
}

/// Position of the issue with an identifier.
pub open spec fn issue_at(issues: Seq<NewsletterIssueView>, newsletter_issue_id: u128) -> int {
    choose|i: int|
        0 <= i < issues.len() && #[trigger] issues[i].newsletter_issue_id == newsletter_issue_id
}

impl StoreView {
    /// Whether the task waits in the queue, held by no worker.
    pub open spec fn is_pending(self, task: DeliveryTaskView) -> bool {
        exists|i: int|
            0 <= i < self.issue_delivery_queue.len() && #[trigger] self.issue_delivery_queue[i]
                == (QueueRowView { task, locked: false })
    }

    /// Whether a worker's open transaction holds the task.
    pub open spec fn is_in_flight(self, task: DeliveryTaskView) -> bool {
        exists|i: int|
            0 <= i < self.issue_delivery_queue.len() && #[trigger] self.issue_delivery_queue[i]
                == (QueueRowView { task, locked: true })
    }

    /// The same tables, with the row of a task marked as held or as free.
    pub open spec fn with_lock(self, task: DeliveryTaskView, locked: bool) -> StoreView {
        if self.has_task(task) {
            StoreView {
                issue_delivery_queue: self.issue_delivery_queue.update(
                    row_of(self.issue_delivery_queue, task),
                    QueueRowView { task, locked },
                ),
                ..self
            }
        } else {
            self
        }
    }

    /// The same tables, without the row of a task.
    pub open spec fn retired(self, task: DeliveryTaskView) -> StoreView {
        if self.has_task(task) {
            StoreView {
                issue_delivery_queue: self.issue_delivery_queue.remove(
                    row_of(self.issue_delivery_queue, task),
                ),
                ..self
            }
        } else {
            self
        }
    }

    /// The stored issue with this identifier.
    pub open spec fn issue(self, newsletter_issue_id: u128) -> NewsletterIssueView {
        self.newsletter_issues[issue_at(self.newsletter_issues, newsletter_issue_id)]
    }
}

/// Marking a row as held or as free keeps the constraints.
pub proof fn lemma_with_lock_wf(before: StoreView, task: DeliveryTaskView, locked: bool)
    requires
        before.wf(),
    ensures
        before.with_lock(task, locked).wf(),
{
    let after = before.with_lock(task, locked);
    if before.has_task(task) {
        let at = row_of(before.issue_delivery_queue, task);
        assert forall|i: int| 0 <= i < after.issue_delivery_queue.len() implies (
        #[trigger] after.issue_delivery_queue[i]).task == before.issue_delivery_queue[i].task by {}
        assert forall|i: int, j: int|
            0 <= i < j < after.issue_delivery_queue.len() implies #[trigger] after.issue_delivery_queue[i].task
            != #[trigger] after.issue_delivery_queue[j].task by {
            assert(before.issue_delivery_queue[i].task != before.issue_delivery_queue[j].task);
        }
        assert forall|i: int| 0 <= i < after.issue_delivery_queue.len() implies after.has_issue(
            #[trigger] after.issue_delivery_queue[i].task.newsletter_issue_id,
        ) by {
            assert(before.has_issue(before.issue_delivery_queue[i].task.newsletter_issue_id));
        }
    }
}

/// Removing a row keeps the constraints.
pub proof fn lemma_retired_wf(before: StoreView, task: DeliveryTaskView)
    requires
        before.wf(),
    ensures
        before.retired(task).wf(),
{
    let after = before.retired(task);
    if before.has_task(task) {
        let at = row_of(before.issue_delivery_queue, task);
        let rows = before.issue_delivery_queue;
        let left = after.issue_delivery_queue;
        assert forall|i: int| 0 <= i < left.len() implies #[trigger] left[i] == rows[if i < at {
            i
        } else {
            i + 1
        }] by {}
        assert forall|i: int, j: int| 0 <= i < j < left.len() implies #[trigger] left[i].task
            != #[trigger] left[j].task by {
            let a = if i < at {
                i
            } else {
                i + 1
            };
            let b = if j < at {
                j
            } else {
                j + 1
            };
            assert(rows[a].task != rows[b].task);
        }
        assert forall|i: int| 0 <= i < left.len() implies after.has_issue(
            #[trigger] left[i].task.newsletter_issue_id,
        ) by {
            let a = if i < at {
                i
            } else {
                i + 1
            };
            assert(before.has_issue(rows[a].task.newsletter_issue_id));
        }
    }
}

/// In a well-formed queue a task is found in one row only.
pub proof fn lemma_row_of_unique(store: StoreView, at: int)
    requires
        store.wf(),
        0 <= at < store.issue_delivery_queue.len(),
    ensures
        store.has_task(store.issue_delivery_queue[at].task),
        row_of(store.issue_delivery_queue, store.issue_delivery_queue[at].task) == at,
{
    let rows = store.issue_delivery_queue;
    let found = row_of(rows, rows[at].task);
    if found < at {
        assert(rows[found].task != rows[at].task);
    } else if found > at {
        assert(rows[at].task != rows[found].task);
    }
}

/// What claiming a waiting task does to the queue: the task is held, and
/// every other task is where it was.
pub proof fn lemma_claim_effect(store: StoreView, task: DeliveryTaskView)
    requires
        store.wf(),
        store.is_pending(task),
    ensures
        store.with_lock(task, true).wf(),
        store.with_lock(task, true).has_task(task),
        store.with_lock(task, true).is_in_flight(task),
        !store.with_lock(task, true).is_pending(task),
        forall|other: DeliveryTaskView| #[trigger]
            store.with_lock(task, true).has_task(other) == store.has_task(other),
        forall|other: DeliveryTaskView|
            other != task ==> #[trigger] store.with_lock(task, true).is_pending(other)
                == store.is_pending(other),
{
    let rows = store.issue_delivery_queue;
    let waiting = choose|i: int|
        0 <= i < rows.len() && #[trigger] rows[i] == (QueueRowView { task, locked: false });
    assert(rows[waiting].task == task);
    let at = row_of(rows, task);
    let held = store.with_lock(task, true);
    let after = held.issue_delivery_queue;
    lemma_with_lock_wf(store, task, true);
    lemma_row_of_unique(store, waiting);
    assert(after[at] == (QueueRowView { task, locked: true }));
    assert forall|i: int| 0 <= i < rows.len() implies (#[trigger] after[i]).task
        == rows[i].task by {}
    assert forall|other: DeliveryTaskView| #[trigger]
        held.has_task(other) == store.has_task(other) by {
        if held.has_task(other) {
            let i = choose|i: int| 0 <= i < after.len() && #[trigger] after[i].task == other;
            assert(rows[i].task == other);
        }
        if store.has_task(other) {
            let i = choose|i: int| 0 <= i < rows.len() && #[trigger] rows[i].task == other;
            assert(after[i].task == other);
        }
    }
    assert forall|other: DeliveryTaskView| other != task implies #[trigger] held.is_pending(other)
        == store.is_pending(other) by {
        let wanted = QueueRowView { task: other, locked: false };
        if held.is_pending(other) {
            let i = choose|i: int| 0 <= i < after.len() && #[trigger] after[i] == wanted;
            assert(i != at);
            assert(rows[i] == wanted);
        }
        if store.is_pending(other) {
            let i = choose|i: int| 0 <= i < rows.len() && #[trigger] rows[i] == wanted;
            assert(rows[i].task == other);
            assert(i != at);
            assert(after[i] == wanted);
        }
    }
    if held.is_pending(task) {
        let i = choose|i: int|
            0 <= i < after.len() && #[trigger] after[i] == (QueueRowView { task, locked: false });
        assert(i != at);
        assert(after[i].task == task);
        if i < at {
            assert(after[i].task != after[at].task);
        } else {
            assert(after[at].task != after[i].task);
        }
    }
}

/// What retiring a task does to the queue: the task is gone, and every
/// other task is where it was.
pub proof fn lemma_retire_effect(store: StoreView, task: DeliveryTaskView)
    requires
        store.wf(),
        store.has_task(task),
    ensures
        store.retired(task).wf(),
        !store.retired(task).has_task(task),
        !store.retired(task).is_pending(task),
        store.retired(task).issue_delivery_queue.len() + 1 == store.issue_delivery_queue.len(),
        forall|other: DeliveryTaskView|
            other != task ==> #[trigger] store.retired(task).has_task(other) == store.has_task(
                other,
            ),
        forall|other: DeliveryTaskView|
            other != task ==> #[trigger] store.retired(task).is_pending(other)
                == store.is_pending(other),
{
    let rows = store.issue_delivery_queue;
    let at = row_of(rows, task);
    let gone = store.retired(task);
    let after = gone.issue_delivery_queue;
    lemma_retired_wf(store, task);
    assert forall|i: int| 0 <= i < after.len() implies #[trigger] after[i] == rows[if i < at {
        i
    } else {
        i + 1
    }] by {}
    assert forall|i: int| 0 <= i < rows.len() && i != at implies #[trigger] rows[i] == after[if i
        < at {
        i
    } else {
        i - 1
    }] by {}
    if gone.has_task(task) {
        let i = choose|i: int| 0 <= i < after.len() && #[trigger] after[i].task == task;
        let before = if i < at {
            i
        } else {
            i + 1
        };
        assert(rows[before].task == task);
        if before < at {
            assert(rows[before].task != rows[at].task);
        } else {
            assert(rows[at].task != rows[before].task);
        }
    }
    if gone.is_pending(task) {
        let i = choose|i: int|
            0 <= i < after.len() && #[trigger] after[i] == (QueueRowView { task, locked: false });
        assert(after[i].task == task);
    }
    assert forall|other: DeliveryTaskView| other != task implies #[trigger] gone.has_task(other)
        == store.has_task(other) by {
        if gone.has_task(other) {
            let i = choose|i: int| 0 <= i < after.len() && #[trigger] after[i].task == other;
            let before = if i < at {
                i
            } else {
                i + 1
            };
            assert(rows[before].task == other);
        }
        if store.has_task(other) {
            let i = choose|i: int| 0 <= i < rows.len() && #[trigger] rows[i].task == other;
            let later = if i < at {
                i
            } else {
                i - 1
            };
            assert(after[later].task == other);
        }
    }
    assert forall|other: DeliveryTaskView| other != task implies #[trigger] gone.is_pending(other)
        == store.is_pending(other) by {
        let wanted = QueueRowView { task: other, locked: false };
        if gone.is_pending(other) {
            let i = choose|i: int| 0 <= i < after.len() && #[trigger] after[i] == wanted;
            let before = if i < at {
                i
            } else {
                i + 1
            };
            assert(rows[before] == wanted);
        }
        if store.is_pending(other) {
            let i = choose|i: int| 0 <= i < rows.len() && #[trigger] rows[i] == wanted;
            assert(rows[i].task == other);
            let later = if i < at {
                i
            } else {
                i - 1
            };
            assert(after[later] == wanted);
        }
    }
}

/// The open transaction of a worker. It holds one claimed row of the queue.
#[derive(Debug, PartialEq, Eq)]
pub struct DeliveryTransaction {
    task: DeliveryTask,
}

impl View for DeliveryTransaction {
    type V = DeliveryTaskView;

    closed spec fn view(&self) -> DeliveryTaskView {
        self.task@
    }
}

impl DeliveryTransaction {
    /// The issue to deliver.
    pub fn newsletter_issue_id(&self) -> (newsletter_issue_id: u128)
        ensures
            newsletter_issue_id == self@.newsletter_issue_id,
    {
        self.task.newsletter_issue_id
    }

    /// The address to deliver it to, as it is stored.
    pub fn subscriber_email(&self) -> (email: &String)
        ensures
            email@ == self@.subscriber_email,
    {
        &self.task.subscriber_email
    }
}

impl Store {
    /// Position of the row that holds a task.
    fn find_row(&self, newsletter_issue_id: u128, email: &String) -> (found: Option<usize>)
        requires
            self.wf(),
        ensures
            ({
                let task = DeliveryTaskView { newsletter_issue_id, subscriber_email: email@ };
                match found {
                    Some(at) => self@.has_task(task) && at == row_of(
                        self@.issue_delivery_queue,
                        task,
                    ) && at < self.issue_delivery_queue.len(),
                    None => !self@.has_task(task),
                }
            }),
    {
        let ghost task = DeliveryTaskView { newsletter_issue_id, subscriber_email: email@ };
        let mut i: usize = 0;
        while i < self.issue_delivery_queue.len()
            invariant
                self.wf(),
                i <= self.issue_delivery_queue.len(),
                task == (DeliveryTaskView { newsletter_issue_id, subscriber_email: email@ }),
                forall|j: int| 0 <= j < i ==> #[trigger] self@.issue_delivery_queue[j].task != task,
            decreases self.issue_delivery_queue.len() - i,
        {
            if self.issue_delivery_queue[i].task.newsletter_issue_id == newsletter_issue_id
                && self.issue_delivery_queue[i].task.subscriber_email == *email {
                proof {
                    assert(self@.issue_delivery_queue[i as int].task == task);
                    lemma_row_of_unique(self@, i as int);
                }
                return Some(i);
            }
            i += 1;
        }
        None
    }

    /// Claims one task that no worker holds, skipping the rows that are
    /// held, and opens the transaction that holds it. Which of several free
    /// tasks is claimed is not specified.
    pub fn claim_task(&mut self) -> (claimed: Option<DeliveryTransaction>)
        requires
            old(self).wf(),
        ensures
            final(self).wf(),
            claimed is Some <==> old(self)@.has_pending_task(),
            match claimed {
                Some(transaction) => old(self)@.is_pending(transaction@) && final(self)@ == old(
                    self,
                )@.with_lock(transaction@, true),
                None => final(self)@ == old(self)@,
            },
    {
        let mut i: usize = 0;
        while i < self.issue_delivery_queue.len()
            invariant
                *self == *old(self),
                self.wf(),
                i <= self.issue_delivery_queue.len(),
                forall|j: int| 0 <= j < i ==> (#[trigger] self@.issue_delivery_queue[j]).locked,
            decreases self.issue_delivery_queue.len() - i,
        {
            if !self.issue_delivery_queue[i].locked {
                let task = self.issue_delivery_queue[i].task.clone();
                let ghost rows = self@.issue_delivery_queue;
                proof {
                    assert(rows[i as int] == (QueueRowView { task: task@, locked: false }));
                    assert(!rows[i as int].locked);
                    assert(old(self)@.has_pending_task());
                    lemma_row_of_unique(self@, i as int);
                }
                self.issue_delivery_queue.set(i, QueueRow { task: task.clone(), locked: true });
                proof {
                    assert(self@.issue_delivery_queue =~= rows.update(
                        i as int,
                        QueueRowView { task: task@, locked: true },
                    ));
                    assert(self@.idempotency == old(self)@.idempotency);
                    assert(self@ == old(self)@.with_lock(task@, true));
                    lemma_with_lock_wf(old(self)@, task@, true);
                }
                return Some(DeliveryTransaction { task });
            }
            i += 1;
        }
        assert(!self@.has_pending_task()) by {
            if self@.has_pending_task() {
                let j = choose|j: int|
                    0 <= j < self@.issue_delivery_queue.len()
                        && !#[trigger] self@.issue_delivery_queue[j].locked;
                assert(self@.issue_delivery_queue[j].locked);
            }
        }
        None
    }

    /// Deletes the row of the transaction's task and commits.
    pub fn delete_task(&mut self, transaction: DeliveryTransaction)
        requires
            old(self).wf(),
        ensures
            final(self).wf(),
            final(self)@ == old(self)@.retired(transaction@),
    {
        match self.find_row(
            transaction.task.newsletter_issue_id,
            &transaction.task.subscriber_email,
        ) {
            Some(at) => {
                let ghost rows = self@.issue_delivery_queue;
                let _ = self.issue_delivery_queue.remove(at);
                proof {
                    assert(self@.issue_delivery_queue =~= rows.remove(at as int));
                    assert(self@.idempotency == old(self)@.idempotency);
                    assert(self@ == old(self)@.retired(transaction@));
                    lemma_retired_wf(old(self)@, transaction@);
                }
            },
            None => {},
        }
    }

    /// Abandons a worker's transaction: its task waits in the queue again.
    pub fn release_task(&mut self, transaction: DeliveryTransaction)
        requires
            old(self).wf(),
        ensures
            final(self).wf(),
            final(self)@ == old(self)@.with_lock(transaction@, false),
    {
        match self.find_row(
            transaction.task.newsletter_issue_id,
            &transaction.task.subscriber_email,
        ) {
            Some(at) => {
                let ghost rows = self@.issue_delivery_queue;
                self.issue_delivery_queue.set(at, QueueRow { task: transaction.task, locked: false });
                proof {
                    assert(self@.issue_delivery_queue =~= rows.update(
                        at as int,
                        QueueRowView { task: transaction@, locked: false },
                    ));
                    assert(self@.idempotency == old(self)@.idempotency);
                    assert(self@ == old(self)@.with_lock(transaction@, false));
                    lemma_with_lock_wf(old(self)@, transaction@, false);
                }
            },
            None => {},
        }
    }

    /// The stored issue with this identifier, if there is one.
    pub fn fetch_issue(&self, newsletter_issue_id: u128) -> (found: Option<NewsletterIssue>)
        requires
            self.wf(),
        ensures
            match found {
                Some(issue) => self@.has_issue(newsletter_issue_id) && issue@ == self@.issue(
                    newsletter_issue_id,
                ),
                None => !self@.has_issue(newsletter_issue_id),
            },
    {
        let mut i: usize = 0;
        while i < self.newsletter_issues.len()
            invariant
                self.wf(),
                i <= self.newsletter_issues.len(),
                forall|j: int|
                    0 <= j < i ==> #[trigger] self@.newsletter_issues[j].newsletter_issue_id
                        != newsletter_issue_id,
            decreases self.newsletter_issues.len() - i,
        {
            if self.newsletter_issues[i].newsletter_issue_id == newsletter_issue_id {
                proof {
                    let issues = self@.newsletter_issues;
                    assert(issues[i as int].newsletter_issue_id == newsletter_issue_id);
                    let chosen = issue_at(issues, newsletter_issue_id);
                    if chosen < i {
                        assert(issues[chosen].newsletter_issue_id
                            != issues[i as int].newsletter_issue_id);
                    } else if chosen > i {
                        assert(issues[i as int].newsletter_issue_id
                            != issues[chosen].newsletter_issue_id);
                    }
                }
                return Some(self.newsletter_issues[i].clone());
            }
            i += 1;
        }
        None
    }
}

} // verus!
