//! Guarantees of delivery: the queue drains to empty, and no task is
//! attempted twice however many workers share the queue.

use crate::guarantees::publication::Submission;
use crate::domain::subscriber_email::is_valid_email;
use crate::email_client::{request_for, Answered};
use crate::issue_delivery_worker::{
    answer_of, answers_of, cycle_invariant, in_flight_rows, pending_count, CycleAction,
    DeliveryRecord,
};
use crate::store::{issue_at, DeliveryTransaction, NewsletterIssueView, StoreError};
use crate::routes::newsletter::confirmed_emails;
use crate::store::{
    lemma_claim_effect, lemma_retire_effect, lemma_row_of_unique, DeliveryTaskView, QueueRowView,
    StoreView,
};
use vstd::prelude::*;

verus! {

/// A queue in which nothing is held is drained to nothing, and every one of
/// its tasks is counted.
pub proof fn lemma_all_pending(rows: Seq<QueueRowView>)
    requires
        forall|i: int| 0 <= i < rows.len() ==> !(#[trigger] rows[i]).locked,
    ensures
        in_flight_rows(rows) == Seq::<QueueRowView>::empty(),
        pending_count(rows) == rows.len(),
    decreases rows.len(),
{
    if rows.len() > 0 {
        assert forall|i: int| 0 <= i < rows.drop_last().len() implies !(
        #[trigger] rows.drop_last()[i]).locked by {
            assert(!rows[i].locked);
        }
        lemma_all_pending(rows.drop_last());
        assert(!rows[rows.len() - 1].locked);
    } else {
        assert(rows =~= Seq::empty());
    }
}

/// After one executed publication on an empty queue, the queue holds
/// exactly one waiting task for each confirmed subscriber. Draining it
/// retires that many tasks and leaves none.
pub proof fn lemma_queue_drains_to_empty(store: StoreView, user_id: u128, published: Submission)
    requires
        store.wf(),
        store.issue_delivery_queue.len() == 0,
        published.executes(store, user_id),
    ensures
        ({
            let queue = published.after(store, user_id).issue_delivery_queue;
            let recipients = confirmed_emails(published.subscriptions);
            &&& queue.len() == recipients.len()
            &&& forall|i: int|
                0 <= i < queue.len() ==> #[trigger] queue[i] == (QueueRowView {
                    task: DeliveryTaskView {
                        newsletter_issue_id: published.newsletter_issue_id,
                        subscriber_email: recipients[i],
                    },
                    locked: false,
                })
            &&& pending_count(queue) == recipients.len()
            &&& in_flight_rows(queue) == Seq::<QueueRowView>::empty()
        }),
{
    lemma_all_pending(published.after(store, user_id).issue_delivery_queue);
}

/// While a queue is drained the sender is asked exactly once for each task
/// whose address can be used, and for nothing else: the requests follow the
/// records of the attempts one for one. Each asks for the issue of its
/// task to be sent to the recipient of its task, and each attempt counts as
/// delivered exactly if the sender answered so. A delivery that the sender
/// refused is therefore in the account once, and never again.
pub proof fn lemma_one_request_for_each_task(
    records: Seq<DeliveryRecord>,
    issues: Seq<NewsletterIssueView>,
)
    requires
        forall|i: int|
            0 <= i < records.len() ==> ((#[trigger] records[i]).attempt is InvalidAddress
                <==> !is_valid_email(records[i].task@.subscriber_email)),
    ensures
        answers_of(records, issues).len() == records.len(),
        forall|i: int|
            0 <= i < records.len() ==> #[trigger] answers_of(records, issues)[i] == (Answered {
                request: request_for(
                    records[i].task@.subscriber_email,
                    issues[issue_at(issues, records[i].task@.newsletter_issue_id)],
                ),
                delivered: records[i].attempt is Delivered,
            }),
    decreases records.len(),
{
    if records.len() > 0 {
        let earlier = records.drop_last();
        assert forall|i: int| 0 <= i < earlier.len() implies ((
        #[trigger] earlier[i]).attempt is InvalidAddress <==> !is_valid_email(
            earlier[i].task@.subscriber_email,
        )) by {
            assert(earlier[i] == records[i]);
        }
        lemma_one_request_for_each_task(earlier, issues);
        let last = records.last();
        assert(!(last.attempt is InvalidAddress)) by {
            assert(records[records.len() - 1] == last);
        }
        assert(answer_of(last.task@, last.attempt, issues).len() == 1);
        assert forall|i: int| 0 <= i < records.len() implies #[trigger] answers_of(
            records,
            issues,
        )[i] == (Answered {
            request: request_for(
                records[i].task@.subscriber_email,
                issues[issue_at(issues, records[i].task@.newsletter_issue_id)],
            ),
            delivered: records[i].attempt is Delivered,
        }) by {
            if i < earlier.len() {
                assert(earlier[i] == records[i]);
                assert(answers_of(records, issues)[i] == answers_of(earlier, issues)[i]);
            }
        }
    }
}

/// The sender is asked before the row of the task is deleted: at the step
/// of a cycle that asks the sender, and at the step that deletes the row,
/// the row is still in the queue, held by the cycle; and up to the step
/// that asks the sender, the sender has been asked nothing in the cycle.
pub proof fn lemma_asked_before_deleted(
    action: CycleAction<StoreError>,
    held: Option<DeliveryTransaction>,
    store: StoreView,
    asked: Seq<Answered>,
    store_before: StoreView,
    asked_before: Seq<Answered>,
)
    requires
        store_before.wf(),
        cycle_invariant(action, held, store, asked, store_before, asked_before),
    ensures
        action matches CycleAction::Send { task, .. } ==> store.is_in_flight(task@)
            && asked == asked_before,
        action matches CycleAction::ReadIssue { task, .. } ==> store.is_in_flight(task@)
            && asked == asked_before,
        action matches CycleAction::Delete { task, .. } ==> store.is_in_flight(task@),
        action matches CycleAction::Finish { record: Some(record) } ==> !store.has_task(
            record.task@,
        ),
{
    match action {
        CycleAction::Send { task, .. } => {
            lemma_claim_effect(store_before, task@);
        },
        CycleAction::ReadIssue { task, .. } => {
            lemma_claim_effect(store_before, task@);
        },
        CycleAction::Delete { task, .. } => {
            lemma_claim_effect(store_before, task@);
        },
        CycleAction::Finish { record: Some(record) } => {
            let rows = store_before.issue_delivery_queue;
            let at = choose|at: int|
                0 <= at < rows.len() && #[trigger] rows[at] == (QueueRowView {
                    task: record.task@,
                    locked: false,
                });
            assert(rows[at].task == record.task@);
            lemma_retire_effect(store_before, record.task@);
        },
        _ => {},
    }
}

/// A task whose worker is lost before it retires the task waits in the
/// queue again, as if it had never been claimed, for another worker to pick
/// it up.
pub proof fn lemma_abandoned_task_waits_again(store: StoreView, task: DeliveryTaskView)
    requires
        store.wf(),
        store.is_pending(task),
    ensures
        store.with_lock(task, true).with_lock(task, false) == store,
        store.with_lock(task, true).with_lock(task, false).is_pending(task),
{
    let rows = store.issue_delivery_queue;
    let waiting = choose|i: int|
        0 <= i < rows.len() && #[trigger] rows[i] == (QueueRowView { task, locked: false });
    assert(rows[waiting].task == task);
    lemma_row_of_unique(store, waiting);
    lemma_claim_effect(store, task);
    let held = store.with_lock(task, true);
    assert(held.issue_delivery_queue[waiting].task == task);
    lemma_row_of_unique(held, waiting);
    assert(held.with_lock(task, false).issue_delivery_queue =~= rows);
}

/// One step of one worker among several that share the queue.
pub enum WorkerStep {
    /// The worker, holding nothing, claims a waiting task.
    Claim { worker: nat, task: DeliveryTaskView },
    /// The worker retires the task that it holds.
    Retire { worker: nat },
}

/// Several workers and the store that they share: the tables, and the task
/// that each busy worker holds.
pub struct Pool {
    pub store: StoreView,
    pub holding: Map<nat, DeliveryTaskView>,
}

impl Pool {
    /// Workers that hold nothing, around a store.
    pub open spec fn idle(store: StoreView) -> Pool {
        Pool { store, holding: Map::empty() }
    }

    /// Whether a worker can take the step now. A worker claims only a task
    /// that waits, and only while it holds none; it retires only what it
    /// holds.
    pub open spec fn admits(self, step: WorkerStep) -> bool {
        match step {
            WorkerStep::Claim { worker, task } => !self.holding.dom().contains(worker)
                && self.store.is_pending(task),
            WorkerStep::Retire { worker } => self.holding.dom().contains(worker),
        }
    }

    /// The pool after a step, by the contracts of claiming and of retiring.
    pub open spec fn after(self, step: WorkerStep) -> Pool {
        match step {
            WorkerStep::Claim { worker, task } => Pool {
                store: self.store.with_lock(task, true),
                holding: self.holding.insert(worker, task),
            },
            WorkerStep::Retire { worker } => Pool {
                store: self.store.retired(self.holding[worker]),
                holding: self.holding.remove(worker),
            },
        }
    }

    /// The pool after a schedule of steps, taken in order.
    pub open spec fn after_all(self, steps: Seq<WorkerStep>) -> Pool
        decreases steps.len(),
    {
        if steps.len() == 0 {
            self
        } else {
            self.after_all(steps.drop_last()).after(steps.last())
        }
    }

    /// Whether every step of a schedule can be taken when its turn comes.
    pub open spec fn admits_all(self, steps: Seq<WorkerStep>) -> bool
        decreases steps.len(),
    {
        if steps.len() == 0 {
            true
        } else {
            self.admits_all(steps.drop_last()) && self.after_all(steps.drop_last()).admits(
                steps.last(),
            )
        }
    }
}

/// The claims of a schedule in order: who claimed, and which task.
pub open spec fn claims(steps: Seq<WorkerStep>) -> Seq<(nat, DeliveryTaskView)>
    decreases steps.len(),
{
    if steps.len() == 0 {
        Seq::empty()
    } else {
        match steps.last() {
            WorkerStep::Claim { worker, task } => claims(steps.drop_last()).push((worker, task)),
            WorkerStep::Retire { .. } => claims(steps.drop_last()),
        }
    }
}

/// Whether some worker has claimed the task along a schedule.
pub open spec fn was_claimed(steps: Seq<WorkerStep>, task: DeliveryTaskView) -> bool {
    exists|i: int| 0 <= i < claims(steps).len() && (#[trigger] claims(steps)[i]).1 == task
}

/// No task is claimed twice along a schedule, by the same worker or by
/// another.
pub open spec fn claims_are_disjoint(steps: Seq<WorkerStep>) -> bool {
    forall|i: int, j: int|
        0 <= i < j < claims(steps).len() ==> (#[trigger] claims(steps)[i]).1 != (
        #[trigger] claims(steps)[j]).1
}

/// What holds of the pool at every point of a schedule.
spec fn pool_invariant(start: StoreView, steps: Seq<WorkerStep>) -> bool {
    let pool = Pool::idle(start).after_all(steps);
    &&& pool.store.wf()
    &&& claims_are_disjoint(steps)
    &&& forall|task: DeliveryTaskView| #[trigger]
        was_claimed(steps, task) <==> start.has_task(task) && !pool.store.is_pending(task)
    &&& forall|task: DeliveryTaskView| #[trigger]
        pool.store.has_task(task) ==> start.has_task(task)
    &&& forall|worker: nat| #[trigger]
        pool.holding.dom().contains(worker) ==> pool.store.has_task(pool.holding[worker])
            && !pool.store.is_pending(pool.holding[worker])
    &&& forall|one: nat, other: nat|
        one != other && #[trigger] pool.holding.dom().contains(one)
            && #[trigger] pool.holding.dom().contains(other) ==> pool.holding[one]
            != pool.holding[other]
}

proof fn lemma_pool_invariant(start: StoreView, steps: Seq<WorkerStep>)
    requires
        start.wf(),
        forall|i: int|
            0 <= i < start.issue_delivery_queue.len() ==> !(
            #[trigger] start.issue_delivery_queue[i]).locked,
        Pool::idle(start).admits_all(steps),
    ensures
        pool_invariant(start, steps),
    decreases steps.len(),
{
    if steps.len() == 0 {
        assert forall|task: DeliveryTaskView| #[trigger]
            start.has_task(task) implies start.is_pending(task) by {
            let i = choose|i: int|
                0 <= i < start.issue_delivery_queue.len()
                    && #[trigger] start.issue_delivery_queue[i].task == task;
            assert(!start.issue_delivery_queue[i].locked);
            assert(start.issue_delivery_queue[i] == (QueueRowView { task, locked: false }));
        }
    } else {
        let earlier = steps.drop_last();
        lemma_pool_invariant(start, earlier);
        let before = Pool::idle(start).after_all(earlier);
        let pool = before.after(steps.last());
        assert(pool == Pool::idle(start).after_all(steps));
        match steps.last() {
            WorkerStep::Claim { worker, task } => {
                lemma_claim_effect(before.store, task);
                let old_claims = claims(earlier);
                let new_claims = claims(steps);
                assert(new_claims == old_claims.push((worker, task)));
                assert(before.store.has_task(task));
                assert(!was_claimed(earlier, task));
                assert forall|i: int, j: int| 0 <= i < j < new_claims.len() implies (
                #[trigger] new_claims[i]).1 != (#[trigger] new_claims[j]).1 by {
                    if j < old_claims.len() {
                        assert(old_claims[i].1 != old_claims[j].1);
                    } else {
                        assert(old_claims[i].1 != task) by {
                            if old_claims[i].1 == task {
                                assert(was_claimed(earlier, task));
                            }
                        }
                    }
                }
                assert forall|other: DeliveryTaskView| #[trigger]
                    was_claimed(steps, other) <==> start.has_task(other) && !pool.store.is_pending(
                        other,
                    ) by {
                    if was_claimed(steps, other) {
                        let i = choose|i: int|
                            0 <= i < new_claims.len() && (#[trigger] new_claims[i]).1 == other;
                        if i < old_claims.len() {
                            assert(old_claims[i].1 == other);
                            assert(was_claimed(earlier, other));
                        }
                    }
                    if start.has_task(other) && !pool.store.is_pending(other) {
                        if other == task {
                            assert(new_claims[old_claims.len() as int].1 == other);
                        } else {
                            assert(was_claimed(earlier, other));
                            let i = choose|i: int|
                                0 <= i < old_claims.len() && (#[trigger] old_claims[i]).1 == other;
                            assert(new_claims[i].1 == other);
                        }
                    }
                }
                assert forall|one: nat| #[trigger]
                    pool.holding.dom().contains(one) implies pool.store.has_task(
                    pool.holding[one],
                ) && !pool.store.is_pending(pool.holding[one]) by {
                    if one != worker {
                        assert(before.holding.dom().contains(one));
                        assert(before.holding[one] != task);
                    }
                }
                assert forall|one: nat, other: nat|
                    one != other && #[trigger] pool.holding.dom().contains(one)
                        && #[trigger] pool.holding.dom().contains(other) implies pool.holding[one]
                    != pool.holding[other] by {
                    if one != worker {
                        assert(before.holding.dom().contains(one));
                    }
                    if other != worker {
                        assert(before.holding.dom().contains(other));
                    }
                }
            },
            WorkerStep::Retire { worker } => {
                let task = before.holding[worker];
                assert(before.holding.dom().contains(worker));
                lemma_retire_effect(before.store, task);
                assert(claims(steps) == claims(earlier));
                assert forall|other: DeliveryTaskView| #[trigger]
                    was_claimed(steps, other) <==> start.has_task(other) && !pool.store.is_pending(
                        other,
                    ) by {
                    assert(was_claimed(steps, other) == was_claimed(earlier, other));
                    if other == task {
                        assert(start.has_task(task));
                        assert(was_claimed(earlier, task));
                    }
                }
                assert forall|one: nat| #[trigger]
                    pool.holding.dom().contains(one) implies pool.store.has_task(
                    pool.holding[one],
                ) && !pool.store.is_pending(pool.holding[one]) by {
                    assert(before.holding.dom().contains(one));
                    assert(before.holding.dom().contains(worker));
                    assert(before.holding[one] != task);
                }
                assert forall|one: nat, other: nat|
                    one != other && #[trigger] pool.holding.dom().contains(one)
                        && #[trigger] pool.holding.dom().contains(other) implies pool.holding[one]
                    != pool.holding[other] by {
                    assert(before.holding.dom().contains(one));
                    assert(before.holding.dom().contains(other));
                }
            },
        }
    }
}

/// However many workers drain a queue together, and in whatever order
/// their steps fall, no task is attempted twice: the workers claim disjoint
/// sets of tasks, every task of the queue is claimed by one of them, and
/// once the queue is empty the claims number exactly as many as the tasks
/// that the queue held.
pub proof fn lemma_no_double_send(start: StoreView, steps: Seq<WorkerStep>)
    requires
        start.wf(),
        forall|i: int|
            0 <= i < start.issue_delivery_queue.len() ==> !(
            #[trigger] start.issue_delivery_queue[i]).locked,
        Pool::idle(start).admits_all(steps),
        Pool::idle(start).after_all(steps).store.issue_delivery_queue.len() == 0,
    ensures
        claims_are_disjoint(steps),
        forall|task: DeliveryTaskView| #[trigger]
            was_claimed(steps, task) <==> start.has_task(task),
        claims(steps).len() == start.issue_delivery_queue.len(),
{
    lemma_pool_invariant(start, steps);
    let pool = Pool::idle(start).after_all(steps);
    assert forall|task: DeliveryTaskView| !(#[trigger] pool.store.is_pending(task)) by {}
    let claimed = claims(steps).map_values(|claim: (nat, DeliveryTaskView)| claim.1);
    let queued = start.issue_delivery_queue.map_values(|row: QueueRowView| row.task);
    assert(claimed.no_duplicates()) by {
        assert forall|i: int, j: int|
            0 <= i < claimed.len() && 0 <= j < claimed.len() && i != j implies claimed[i]
            != claimed[j] by {
            if i < j {
                assert(claims(steps)[i].1 != claims(steps)[j].1);
            } else {
                assert(claims(steps)[j].1 != claims(steps)[i].1);
            }
        }
    }
    assert(queued.no_duplicates()) by {
        assert forall|i: int, j: int|
            0 <= i < queued.len() && 0 <= j < queued.len() && i != j implies queued[i]
            != queued[j] by {
            if i < j {
                assert(start.issue_delivery_queue[i].task != start.issue_delivery_queue[j].task);
            } else {
                assert(start.issue_delivery_queue[j].task != start.issue_delivery_queue[i].task);
            }
        }
    }
    assert forall|task: DeliveryTaskView| claimed.to_set().contains(task)
        == queued.to_set().contains(task) by {
        if claimed.contains(task) {
            let i = choose|i: int| 0 <= i < claimed.len() && claimed[i] == task;
            assert(claims(steps)[i].1 == task);
            assert(was_claimed(steps, task));
            let at = choose|at: int|
                0 <= at < start.issue_delivery_queue.len()
                    && #[trigger] start.issue_delivery_queue[at].task == task;
            assert(queued[at] == task);
        }
        if queued.contains(task) {
            let at = choose|at: int| 0 <= at < queued.len() && queued[at] == task;
            assert(start.issue_delivery_queue[at].task == task);
            assert(start.has_task(task));
            assert(was_claimed(steps, task));
            let i = choose|i: int|
                0 <= i < claims(steps).len() && (#[trigger] claims(steps)[i]).1 == task;
            assert(claimed[i] == task);
        }
    }
    assert(claimed.to_set() =~= queued.to_set());
    claimed.unique_seq_to_set();
    queued.unique_seq_to_set();
}

} // verus!
