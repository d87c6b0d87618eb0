//! The worker that drains the delivery queue.
//!
//! A task is attempted once. Whether the attempt delivers, fails in
//! transport, or finds an address that cannot be used, the task is retired:
//! its row is deleted and never tried again.
//!
//! What a cycle does next is decided in one place, [`next_cycle_action`],
//! from the step that was taken and from what came of it. Whoever runs a
//! cycle, on the in-memory store as [`execute_task`] does or on a database,
//! takes the steps that it is told and hands back the events.

use crate::domain::subscriber_email::{is_valid_email, SubscriberEmail};
use crate::email_client::{
    email_request, issue_content, request_for, request_of, send, Answered, EmailRequest,
    EmailSender, IssueContent, TransportError,
};
use crate::store::{
    issue_at, lemma_retire_effect, lemma_row_of_unique, lemma_with_lock_wf, row_of, DeliveryTask,
    DeliveryTaskView, DeliveryTransaction, NewsletterIssue, NewsletterIssueView, QueueRowView,
    Store, StoreError, StoreView,
};
use vstd::prelude::*;

verus! {

/// How one cycle of the worker ended.
#[derive(Debug, PartialEq, Eq, Clone, Copy, Structural)]
pub enum ExecutionOutcome {
    /// A task was attempted and retired.
    TaskCompleted,
    /// No task was waiting.
    EmptyQueue,
}

/// Logged when the transport refuses a delivery.
pub const FAILED_TO_DELIVER_MSG: &'static str =
    "Failed to deliver issue to a confirmed subscriber, skipping.";

/// Logged when a stored address cannot be used.
pub const INVALID_SUBSCRIBER_DETAILS: &'static str =
    "Skipping a confirmed subscriber, store contact details are invalid";

/// Seconds that the worker rests when the queue is empty.
pub const IDLE_INTERVAL_SECONDS: u64 = 10;

/// Seconds that the worker rests when a cycle itself has failed.
pub const RETRY_INTERVAL_SECONDS: u64 = 1;

/// A cycle of the worker failed for a reason of its own.
#[derive(Debug, PartialEq, Eq, Clone, Copy, Structural)]
pub enum WorkerError {
    /// The store failed.
    Store(StoreError),
}

/// How the attempt on a claimed task went.
#[derive(Debug, PartialEq, Eq, Clone, Copy, Structural)]
pub enum Attempt {
    /// The transport took the delivery.
    Delivered,
    /// The transport refused the delivery.
    TransportFailed,
    /// The stored address could not be used.
    InvalidAddress,
}

/// Claims one waiting task, skipping the tasks that other workers hold.
pub fn dequeue_task(store: &mut Store) -> (claimed: Option<DeliveryTransaction>)
    requires
        old(store).wf(),
    ensures
        final(store).wf(),
        claimed is Some <==> old(store)@.has_pending_task(),
        match claimed {
            Some(transaction) => old(store)@.is_pending(transaction@) && final(store)@ == old(
                store,
            )@.with_lock(transaction@, true),
            None => final(store)@ == old(store)@,
        },
{
    store.claim_task()
}

/// Retires the task that the transaction holds.
pub fn delete_task(store: &mut Store, transaction: DeliveryTransaction)
    requires
        old(store).wf(),
    ensures
        final(store).wf(),
        final(store)@ == old(store)@.retired(transaction@),
{
    store.delete_task(transaction)
}

/// Reads the issue with this identifier. That there is none is an error.
pub fn get_issue(store: &Store, issue_id: u128) -> (result: Result<NewsletterIssue, StoreError>)
    requires
        store.wf(),
    ensures
        match result {
            Ok(issue) => store@.has_issue(issue_id) && issue@ == store@.issue(issue_id),
            Err(error) => !store@.has_issue(issue_id) && error == StoreError::RowNotFound,
        },
{
    match store.fetch_issue(issue_id) {
        Some(issue) => Ok(issue),
        None => Err(StoreError::RowNotFound),
    }
}

/// The line to log after an attempt, if it calls for one.
pub fn log_message(attempt: Attempt) -> (message: Option<&'static str>)
    ensures
        match attempt {
            Attempt::Delivered => message is None,
            Attempt::TransportFailed => message == Some(FAILED_TO_DELIVER_MSG),
            Attempt::InvalidAddress => message == Some(INVALID_SUBSCRIBER_DETAILS),
        },
{
    match attempt {
        Attempt::Delivered => None,
        Attempt::TransportFailed => Some(FAILED_TO_DELIVER_MSG),
        Attempt::InvalidAddress => Some(INVALID_SUBSCRIBER_DETAILS),
    }
}

/// Seconds to rest before the next cycle: none after a completed task, so
/// that a burst is drained without delay; the idle interval when the queue
/// was empty; the shorter retry interval when the cycle itself failed.
pub fn next_delay<E>(outcome: &Result<ExecutionOutcome, E>) -> (seconds: u64)
    ensures
        seconds == match *outcome {
            Ok(ExecutionOutcome::TaskCompleted) => 0,
            Ok(ExecutionOutcome::EmptyQueue) => IDLE_INTERVAL_SECONDS,
            Err(_) => RETRY_INTERVAL_SECONDS,
        },
{
    match outcome {
        Ok(ExecutionOutcome::TaskCompleted) => 0,
        Ok(ExecutionOutcome::EmptyQueue) => IDLE_INTERVAL_SECONDS,
        Err(_) => RETRY_INTERVAL_SECONDS,
    }
}

/// The rows that workers hold, in the order of the queue.
pub open spec fn in_flight_rows(rows: Seq<QueueRowView>) -> Seq<QueueRowView>
    decreases rows.len(),
{
    if rows.len() == 0 {
        rows
    } else {
        let earlier = in_flight_rows(rows.drop_last());
        if rows.last().locked {
            earlier.push(rows.last())
        } else {
            earlier
        }
    }
}

/// The number of rows that wait for a worker.
pub open spec fn pending_count(rows: Seq<QueueRowView>) -> nat
    decreases rows.len(),
{
    if rows.len() == 0 {
        0
    } else {
        let earlier = pending_count(rows.drop_last());
        if rows.last().locked {
            earlier
        } else {
            earlier + 1
        }
    }
}

/// Retiring a waiting row leaves the held rows as they are and the waiting
/// rows one fewer.
pub proof fn lemma_retire_pending_row(rows: Seq<QueueRowView>, at: int)
    requires
        0 <= at < rows.len(),
        !rows[at].locked,
    ensures
        in_flight_rows(rows.remove(at)) == in_flight_rows(rows),
        pending_count(rows.remove(at)) + 1 == pending_count(rows),
    decreases rows.len(),
{
    if at == rows.len() - 1 {
        assert(rows.remove(at) =~= rows.drop_last());
    } else {
        lemma_retire_pending_row(rows.drop_last(), at);
        assert(rows.remove(at).drop_last() =~= rows.drop_last().remove(at));
        assert(rows.remove(at).last() == rows.last());
    }
}

/// A queue has a waiting row exactly if it counts one.
pub proof fn lemma_pending_count_positive(rows: Seq<QueueRowView>)
    ensures
        pending_count(rows) > 0 <==> exists|i: int| 0 <= i < rows.len() && !#[trigger] rows[i].locked,
        pending_count(rows) <= rows.len(),
        pending_count(rows) == 0 ==> in_flight_rows(rows) == rows,
    decreases rows.len(),
{
    if rows.len() > 0 {
        lemma_pending_count_positive(rows.drop_last());
        if pending_count(rows) > 0 {
            if rows.last().locked {
                let i = choose|i: int|
                    0 <= i < rows.drop_last().len() && !#[trigger] rows.drop_last()[i].locked;
                assert(!rows[i].locked);
            } else {
                assert(!rows[rows.len() - 1].locked);
            }
        }
        if exists|i: int| 0 <= i < rows.len() && !#[trigger] rows[i].locked {
            let i = choose|i: int| 0 <= i < rows.len() && !#[trigger] rows[i].locked;
            if i < rows.len() - 1 {
                assert(!rows.drop_last()[i].locked);
            }
        }
        if pending_count(rows) == 0 {
            assert(rows.drop_last().push(rows.last()) =~= rows);
        }
    }
}

/// Claiming a task and then retiring it leaves what retiring it at once
/// would have left.
pub proof fn lemma_claim_then_retire(store: StoreView, task: DeliveryTaskView, locked: bool)
    requires
        store.wf(),
    ensures
        store.with_lock(task, locked).retired(task) == store.retired(task),
{
    if store.has_task(task) {
        let rows = store.issue_delivery_queue;
        let at = row_of(rows, task);
        let held = store.with_lock(task, locked);
        lemma_with_lock_wf(store, task, locked);
        assert(held.issue_delivery_queue[at].task == task);
        lemma_row_of_unique(held, at);
        assert(held.issue_delivery_queue.remove(at) =~= rows.remove(at));
    } else {
        assert(!store.with_lock(task, locked).has_task(task));
    }
}

/// What became of one task: the task, and how the attempt on it went.
#[derive(Debug, PartialEq, Eq)]
pub struct DeliveryRecord {
    pub task: DeliveryTask,
    pub attempt: Attempt,
}

/// What the sender is asked for one task, and what it answers, given how
/// the attempt went. For an address that cannot be used it is asked
/// nothing. For any other it is asked once, to send the task's issue to the
/// task's recipient, and the attempt counts as delivered exactly if it
/// answers so.
pub open spec fn answer_of(
    task: DeliveryTaskView,
    attempt: Attempt,
    issues: Seq<NewsletterIssueView>,
) -> Seq<Answered> {
    if attempt is InvalidAddress {
        Seq::empty()
    } else {
        seq![
            Answered {
                request: request_for(
                    task.subscriber_email,
                    issues[issue_at(issues, task.newsletter_issue_id)],
                ),
                delivered: attempt is Delivered,
            },
        ]
    }
}

/// What the sender is asked for a series of tasks, in their order.
pub open spec fn answers_of(records: Seq<DeliveryRecord>, issues: Seq<NewsletterIssueView>) -> Seq<
    Answered,
>
    decreases records.len(),
{
    if records.len() == 0 {
        Seq::empty()
    } else {
        answers_of(records.drop_last(), issues) + answer_of(
            records.last().task@,
            records.last().attempt,
            issues,
        )
    }
}

/// Why a cycle was given up.
#[derive(Debug, PartialEq, Eq)]
pub enum CycleError<E> {
    /// What was asked of the store failed.
    Failed(E),
    /// An answer came that does not belong to the step that was taken.
    OutOfTurn,
}

/// The step that a cycle of the worker takes next. Whoever runs the cycle
/// takes the step and hands back what came of it as a [`CycleEvent`].
#[derive(Debug, PartialEq, Eq)]
pub enum CycleAction<E> {
    /// Claim one waiting task, skipping the tasks that other workers hold.
    Dequeue,
    /// Read the issue of the claimed task.
    ReadIssue { task: DeliveryTask, recipient: SubscriberEmail },
    /// Ask the sender to send the request.
    Send { task: DeliveryTask, request: EmailRequest },
    /// Log the attempt if it failed, delete the row of the task, and commit.
    Delete { task: DeliveryTask, attempt: Attempt },
    /// The cycle is over: with the record of its one task, or without any
    /// where no task was waiting.
    Finish { record: Option<DeliveryRecord> },
    /// Give the cycle up; the claimed task, if there is one, waits again.
    Abandon { error: CycleError<E> },
}

/// What came of a step of the cycle.
#[derive(Debug, PartialEq, Eq)]
pub enum CycleEvent<E> {
    /// The task that was claimed, or none where none was waiting.
    Dequeued(Result<Option<DeliveryTask>, E>),
    /// The content of the issue that was read.
    IssueRead(Result<IssueContent, E>),
    /// The answer of the sender.
    Sent(Result<(), TransportError>),
    /// The row was deleted and the transaction committed.
    Deleted(Result<(), E>),
}

/// Whether `next` is the step that follows `action` once `event` has come
/// of it.
/// - With no task waiting the cycle finishes without a record.
/// - A claimed task whose address can be used has its issue read; one whose
///   address cannot be used is deleted at once, as an invalid address.
/// - Once the issue is read, the sender is asked to send it to the task's
///   recipient: the title as the subject, then the HTML and the text body.
/// - Whatever the sender answers, the task is deleted: as delivered where
///   the sender said so, as failed in transport where it did not.
/// - Once the task is deleted the cycle finishes with its record.
/// - Where the store fails the cycle is given up with that failure, and so
///   it is where an event does not belong to the step.
pub open spec fn is_next_step<E>(action: CycleAction<E>, event: CycleEvent<E>, next: CycleAction<E>) -> bool {
    match (action, event) {
        (CycleAction::Dequeue, CycleEvent::Dequeued(Ok(None))) => next
            == CycleAction::<E>::Finish { record: None },
        (CycleAction::Dequeue, CycleEvent::Dequeued(Ok(Some(claimed)))) => {
            if is_valid_email(claimed@.subscriber_email) {
                &&& next matches CycleAction::ReadIssue { task, recipient }
                &&& task@ == claimed@
                &&& recipient@ == claimed@.subscriber_email
            } else {
                &&& next matches CycleAction::Delete { task, attempt }
                &&& task@ == claimed@
                &&& attempt == Attempt::InvalidAddress
            }
        },
        (CycleAction::ReadIssue { task: claimed, recipient }, CycleEvent::IssueRead(Ok(content))) => {
            &&& next matches CycleAction::Send { task, request }
            &&& task@ == claimed@
            &&& request@ == request_of(recipient@, content@)
        },
        (CycleAction::Send { task: claimed, .. }, CycleEvent::Sent(answer)) => {
            &&& next matches CycleAction::Delete { task, attempt }
            &&& task@ == claimed@
            &&& attempt == (if answer is Ok {
                Attempt::Delivered
            } else {
                Attempt::TransportFailed
            })
        },
        (CycleAction::Delete { task: claimed, attempt: made }, CycleEvent::Deleted(Ok(_))) => {
            &&& next matches CycleAction::Finish { record: Some(record) }
            &&& record.task@ == claimed@
            &&& record.attempt == made
        },
        (CycleAction::Dequeue, CycleEvent::Dequeued(Err(error))) => next
            == CycleAction::Abandon { error: CycleError::Failed(error) },
        (CycleAction::ReadIssue { .. }, CycleEvent::IssueRead(Err(error))) => next
            == CycleAction::Abandon { error: CycleError::Failed(error) },
        (CycleAction::Delete { .. }, CycleEvent::Deleted(Err(error))) => next
            == CycleAction::Abandon { error: CycleError::Failed(error) },
        _ => next == CycleAction::<E>::Abandon { error: CycleError::OutOfTurn },
    }
}

/// Decides the next step of a cycle from the step that was taken and from
/// what came of it.
pub fn next_cycle_action<E>(action: CycleAction<E>, event: CycleEvent<E>) -> (next: CycleAction<E>)
    ensures
        is_next_step(action, event, next),
{
    match (action, event) {
        (CycleAction::Dequeue, CycleEvent::Dequeued(Ok(None))) => CycleAction::Finish {
            record: None,
        },
        (CycleAction::Dequeue, CycleEvent::Dequeued(Ok(Some(task)))) => {
            match SubscriberEmail::parse(task.subscriber_email.clone()) {
                Ok(recipient) => CycleAction::ReadIssue { task, recipient },
                Err(_) => CycleAction::Delete { task, attempt: Attempt::InvalidAddress },
            }
        },
        (CycleAction::ReadIssue { task, recipient }, CycleEvent::IssueRead(Ok(content))) => {
            CycleAction::Send { task, request: email_request(recipient, content) }
        },
        (CycleAction::Send { task, request: _ }, CycleEvent::Sent(answer)) => {
            let attempt = match answer {
                Ok(()) => Attempt::Delivered,
                Err(_) => Attempt::TransportFailed,
            };
            CycleAction::Delete { task, attempt }
        },
        (CycleAction::Delete { task, attempt }, CycleEvent::Deleted(Ok(()))) => CycleAction::Finish {
            record: Some(DeliveryRecord { task, attempt }),
        },
        (CycleAction::Dequeue, CycleEvent::Dequeued(Err(error))) => CycleAction::Abandon {
            error: CycleError::Failed(error),
        },
        (CycleAction::ReadIssue { .. }, CycleEvent::IssueRead(Err(error))) => CycleAction::Abandon {
            error: CycleError::Failed(error),
        },
        (CycleAction::Delete { .. }, CycleEvent::Deleted(Err(error))) => CycleAction::Abandon {
            error: CycleError::Failed(error),
        },
        _ => CycleAction::Abandon { error: CycleError::OutOfTurn },
    }
}

/// How a finished cycle ended.
pub fn outcome_of(record: &Option<DeliveryRecord>) -> (outcome: ExecutionOutcome)
    ensures
        outcome == (if record is Some {
            ExecutionOutcome::TaskCompleted
        } else {
            ExecutionOutcome::EmptyQueue
        }),
{
    match record {
        Some(_) => ExecutionOutcome::TaskCompleted,
        None => ExecutionOutcome::EmptyQueue,
    }
}

/// How many steps a cycle has before it, at most.
pub open spec fn steps_left<E>(action: CycleAction<E>) -> nat {
    match action {
        CycleAction::Dequeue => 4,
        CycleAction::ReadIssue { .. } => 3,
        CycleAction::Send { .. } => 2,
        CycleAction::Delete { .. } => 1,
        CycleAction::Finish { .. } => 0,
        CycleAction::Abandon { .. } => 0,
    }
}

/// What holds between the steps of a cycle that runs on the store: what
/// the step about to be taken says of the store, of the claimed task and of
/// what the sender was asked.
pub open spec fn cycle_invariant(
    action: CycleAction<StoreError>,
    held: Option<DeliveryTransaction>,
    store: StoreView,
    asked: Seq<Answered>,
    store_before: StoreView,
    asked_before: Seq<Answered>,
) -> bool {
    let issues = store_before.newsletter_issues;
    match action {
        CycleAction::Dequeue => held is None && store == store_before && asked == asked_before,
        CycleAction::ReadIssue { task, recipient } => {
            &&& is_claimed(task@, held, store, store_before)
            &&& is_valid_email(task@.subscriber_email)
            &&& recipient@ == task@.subscriber_email
            &&& asked == asked_before
        },
        CycleAction::Send { task, request } => {
            &&& is_claimed(task@, held, store, store_before)
            &&& is_valid_email(task@.subscriber_email)
            &&& request@ == request_for(
                task@.subscriber_email,
                issues[issue_at(issues, task@.newsletter_issue_id)],
            )
            &&& asked == asked_before
        },
        CycleAction::Delete { task, attempt } => {
            &&& is_claimed(task@, held, store, store_before)
            &&& attempt is InvalidAddress <==> !is_valid_email(task@.subscriber_email)
            &&& asked == asked_before + answer_of(task@, attempt, issues)
        },
        CycleAction::Finish { record: Some(record) } => {
            &&& held is None
            &&& store_before.is_pending(record.task@)
            &&& store == store_before.retired(record.task@)
            &&& record.attempt is InvalidAddress <==> !is_valid_email(record.task@.subscriber_email)
            &&& asked == asked_before + answer_of(record.task@, record.attempt, issues)
        },
        CycleAction::Finish { record: None } => {
            &&& held is None
            &&& !store_before.has_pending_task()
            &&& store == store_before
            &&& asked == asked_before
        },
        CycleAction::Abandon { .. } => false,
    }
}

/// Whether the cycle holds the task: it was waiting, and the transaction
/// at hand has claimed it.
pub open spec fn is_claimed(
    task: DeliveryTaskView,
    held: Option<DeliveryTransaction>,
    store: StoreView,
    store_before: StoreView,
) -> bool {
    &&& held matches Some(transaction)
    &&& transaction@ == task
    &&& store_before.is_pending(task)
    &&& store == store_before.with_lock(task, true)
}

/// One cycle of the worker, with a record of what it did. With no task
/// waiting it does nothing, asks the sender nothing and records nothing.
/// Otherwise it claims one waiting task. If the address of the task can be
/// used it asks the sender once, to send the task's issue to the task's
/// recipient: the title as the subject, the HTML content and the text
/// content as the two bodies. Whatever the sender answered, it retires the
/// task, and records the attempt as delivered exactly if the sender said
/// so.
pub fn execute_task<S: EmailSender>(store: &mut Store, email_client: &mut S) -> (result: Result<
    Option<DeliveryRecord>,
    WorkerError,
>)
    requires
        old(store).wf(),
    ensures
        final(store).wf(),
        if old(store)@.has_pending_task() {
            &&& result matches Ok(Some(record))
            &&& old(store)@.is_pending(record.task@)
            &&& final(store)@ == old(store)@.retired(record.task@)
            &&& record.attempt is InvalidAddress <==> !is_valid_email(record.task@.subscriber_email)
            &&& final(email_client).asked() == old(email_client).asked() + answer_of(
                record.task@,
                record.attempt,
                old(store)@.newsletter_issues,
            )
        } else {
            &&& result matches Ok(None)
            &&& final(store)@ == old(store)@
            &&& final(email_client).asked() == old(email_client).asked()
        },
{
    let ghost store_before = store@;
    let ghost asked_before = email_client.asked();
    let ghost issues = store@.newsletter_issues;
    let mut held: Option<DeliveryTransaction> = None;
    let mut action: CycleAction<StoreError> = CycleAction::Dequeue;
    loop
        invariant
            store.wf(),
            store_before == old(store)@,
            store_before.wf(),
            asked_before == old(email_client).asked(),
            issues == store_before.newsletter_issues,
            cycle_invariant(action, held, store@, email_client.asked(), store_before, asked_before),
        ensures
            action is Finish || action is Abandon,
        decreases steps_left(action),
    {
        let event = match &action {
            CycleAction::Dequeue => {
                match dequeue_task(store) {
                    Some(transaction) => {
                        let task = DeliveryTask {
                            newsletter_issue_id: transaction.newsletter_issue_id(),
                            subscriber_email: transaction.subscriber_email().clone(),
                        };
                        held = Some(transaction);
                        CycleEvent::Dequeued(Ok(Some(task)))
                    },
                    None => CycleEvent::Dequeued(Ok(None)),
                }
            },
            CycleAction::ReadIssue { task, .. } => {
                proof {
                    let rows = store_before.issue_delivery_queue;
                    let at = choose|at: int|
                        0 <= at < rows.len() && #[trigger] rows[at] == (QueueRowView {
                            task: task@,
                            locked: false,
                        });
                    assert(rows[at].task == task@);
                    assert(store_before.has_issue(rows[at].task.newsletter_issue_id));
                }
                match get_issue(store, task.newsletter_issue_id) {
                    Ok(issue) => CycleEvent::IssueRead(Ok(issue_content(issue))),
                    Err(error) => CycleEvent::IssueRead(Err(error)),
                }
            },
            CycleAction::Send { request, .. } => {
                let answer = send(email_client, request);
                proof {
                    let sent = Answered { request: request@, delivered: answer is Ok };
                    assert(asked_before + seq![sent] =~= asked_before.push(sent));
                }
                CycleEvent::Sent(answer)
            },
            CycleAction::Delete { task, attempt } => {
                let transaction = held.unwrap();
                proof {
                    lemma_claim_then_retire(store_before, task@, true);
                }
                delete_task(store, transaction);
                held = None;
                CycleEvent::Deleted(Ok(()))
            },
            CycleAction::Finish { .. } => {
                break ;
            },
            CycleAction::Abandon { .. } => {
                break ;
            },
        };
        proof {
            if action is Delete {
                assert(asked_before + answer_of(action->Delete_task@, action->Delete_attempt, issues)
                    == email_client.asked());
            }
            if action is Dequeue {
                if let CycleEvent::Dequeued(Ok(Some(task))) = &event {
                    assert(asked_before + answer_of(task@, Attempt::InvalidAddress, issues)
                        =~= asked_before);
                }
            }
        }
        action = next_cycle_action(action, event);
    }
    match action {
        CycleAction::Finish { record } => {
            proof {
                if let Some(done) = &record {
                    let rows = store_before.issue_delivery_queue;
                    let at = choose|at: int|
                        0 <= at < rows.len() && #[trigger] rows[at] == (QueueRowView {
                            task: done.task@,
                            locked: false,
                        });
                    assert(!rows[at].locked);
                }
            }
            Ok(record)
        },
        // On the store no step of a cycle fails, and the steps are taken
        // in their order: the cycle is never given up.
        _ => unreached(),
    }
}

/// One cycle of the worker. With no task waiting it reports an empty
/// queue, asks the sender nothing and changes nothing. Otherwise it claims
/// one waiting task, asks the sender once to send the task's issue to the
/// task's recipient if the address can be used, and retires the task
/// whatever the sender answered.
pub fn try_execute_task<S: EmailSender>(store: &mut Store, email_client: &mut S) -> (result: Result<
    ExecutionOutcome,
    WorkerError,
>)
    requires
        old(store).wf(),
    ensures
        final(store).wf(),
        if old(store)@.has_pending_task() {
            &&& result == Ok::<_, WorkerError>(ExecutionOutcome::TaskCompleted)
            &&& exists|task: DeliveryTaskView, attempt: Attempt|
                {
                    &&& old(store)@.is_pending(task)
                    &&& final(store)@ == old(store)@.retired(task)
                    &&& attempt is InvalidAddress <==> !is_valid_email(task.subscriber_email)
                    &&& final(email_client).asked() == old(email_client).asked()
                        + #[trigger] answer_of(task, attempt, old(store)@.newsletter_issues)
                }
        } else {
            &&& result == Ok::<_, WorkerError>(ExecutionOutcome::EmptyQueue)
            &&& final(store)@ == old(store)@
            &&& final(email_client).asked() == old(email_client).asked()
        },
{
    match execute_task(store, email_client) {
        Ok(Some(record)) => {
            assert(old(store)@.is_pending(record.task@));
            assert(email_client.asked() == old(email_client).asked() + answer_of(
                record.task@,
                record.attempt,
                old(store)@.newsletter_issues,
            ));
            Ok(ExecutionOutcome::TaskCompleted)
        },
        Ok(None) => Ok(ExecutionOutcome::EmptyQueue),
        Err(error) => Err(error),
    }
}

/// Runs the worker until no task waits any more, and hands back a record of
/// every attempt, in the order in which the attempts were made. Every task
/// that was waiting is attempted exactly once and retired, whatever the
/// sender answers: the sender is asked once for each task whose address can
/// be used, in the order of the records, and for nothing else. The tasks
/// that other workers hold stay where they are.
pub fn drain_queue<S: EmailSender>(store: &mut Store, email_client: &mut S) -> (records: Vec<
    DeliveryRecord,
>)
    requires
        old(store).wf(),
    ensures
        final(store).wf(),
        records.len() == pending_count(old(store)@.issue_delivery_queue),
        forall|i: int| 0 <= i < records.len() ==> old(store)@.is_pending(#[trigger] records[i].task@),
        forall|i: int, j: int|
            0 <= i < j < records.len() ==> (#[trigger] records[i]).task@ != (
            #[trigger] records[j]).task@,
        forall|i: int|
            0 <= i < records.len() ==> ((#[trigger] records[i]).attempt is InvalidAddress
                <==> !is_valid_email(records[i].task@.subscriber_email)),
        final(email_client).asked() == old(email_client).asked() + answers_of(
            records@,
            old(store)@.newsletter_issues,
        ),
        final(store)@ == (StoreView {
            issue_delivery_queue: in_flight_rows(old(store)@.issue_delivery_queue),
            ..old(store)@
        }),
{
    let mut records: Vec<DeliveryRecord> = Vec::new();
    let ghost asked_before = email_client.asked();
    let ghost issues = store@.newsletter_issues;
    proof {
        store.lemma_tables_fit();
        lemma_pending_count_positive(store@.issue_delivery_queue);
        assert(asked_before + answers_of(records@, issues) =~= asked_before);
    }
    loop
        invariant
            store.wf(),
            issues == old(store)@.newsletter_issues,
            store@.idempotency == old(store)@.idempotency,
            store@.open_submissions == old(store)@.open_submissions,
            store@.newsletter_issues == old(store)@.newsletter_issues,
            in_flight_rows(store@.issue_delivery_queue) == in_flight_rows(
                old(store)@.issue_delivery_queue,
            ),
            records.len() + pending_count(store@.issue_delivery_queue) == pending_count(
                old(store)@.issue_delivery_queue,
            ),
            pending_count(old(store)@.issue_delivery_queue) <= usize::MAX,
            forall|i: int|
                0 <= i < records.len() ==> old(store)@.is_pending(#[trigger] records[i].task@),
            forall|i: int| 0 <= i < records.len() ==> !store@.has_task(#[trigger] records[i].task@),
            forall|i: int, j: int|
                0 <= i < j < records.len() ==> (#[trigger] records[i]).task@ != (
                #[trigger] records[j]).task@,
            forall|i: int|
                0 <= i < records.len() ==> ((#[trigger] records[i]).attempt is InvalidAddress
                    <==> !is_valid_email(records[i].task@.subscriber_email)),
            forall|task: DeliveryTaskView| #[trigger]
                store@.is_pending(task) ==> old(store)@.is_pending(task),
            email_client.asked() == asked_before + answers_of(records@, issues),
        ensures
            store.wf(),
            records.len() == pending_count(old(store)@.issue_delivery_queue),
            forall|i: int|
                0 <= i < records.len() ==> old(store)@.is_pending(#[trigger] records[i].task@),
            forall|i: int, j: int|
                0 <= i < j < records.len() ==> (#[trigger] records[i]).task@ != (
                #[trigger] records[j]).task@,
            forall|i: int|
                0 <= i < records.len() ==> ((#[trigger] records[i]).attempt is InvalidAddress
                    <==> !is_valid_email(records[i].task@.subscriber_email)),
            email_client.asked() == asked_before + answers_of(records@, issues),
            store@ == (StoreView {
                issue_delivery_queue: in_flight_rows(old(store)@.issue_delivery_queue),
                ..old(store)@
            }),
        decreases pending_count(store@.issue_delivery_queue),
    {
        let ghost before = store@;
        let ghost recorded = records@;
        let ghost asked_so_far = email_client.asked();
        proof {
            lemma_pending_count_positive(before.issue_delivery_queue);
        }
        match execute_task(store, email_client) {
            Ok(Some(record)) => {
                proof {
                    let task = record.task@;
                    let rows = before.issue_delivery_queue;
                    let at = choose|at: int|
                        0 <= at < rows.len() && #[trigger] rows[at] == (QueueRowView {
                            task,
                            locked: false,
                        });
                    assert(rows[at].task == task);
                    lemma_row_of_unique(before, at);
                    lemma_retire_pending_row(rows, at);
                    lemma_retire_effect(before, task);
                    assert forall|i: int| 0 <= i < recorded.len() implies (
                    #[trigger] recorded[i]).task@ != task by {
                        assert(!before.has_task(recorded[i].task@));
                    }
                }
                let ghost answer = answer_of(record.task@, record.attempt, issues);
                records.push(record);
                proof {
                    assert(records@.drop_last() =~= recorded);
                    assert(answers_of(records@, issues) == answers_of(recorded, issues) + answer);
                    assert(asked_before + (answers_of(recorded, issues) + answer) =~= (
                    asked_before + answers_of(recorded, issues)) + answer);
                    assert forall|i: int| 0 <= i < records.len() implies !store@.has_task(
                        #[trigger] records[i].task@,
                    ) by {
                        if i < recorded.len() {
                            assert(records[i] == recorded[i]);
                            assert(!before.has_task(recorded[i].task@));
                        }
                    }
                    assert forall|i: int, j: int| 0 <= i < j < records.len() implies (
                    #[trigger] records[i]).task@ != (#[trigger] records[j]).task@ by {
                        assert(records[i] == recorded[i]);
                        if j < recorded.len() {
                            assert(records[j] == recorded[j]);
                        }
                    }
                    assert forall|i: int| 0 <= i < records.len() implies old(store)@.is_pending(
                        #[trigger] records[i].task@,
                    ) by {
                        if i < recorded.len() {
                            assert(records[i] == recorded[i]);
                        }
                    }
                    assert forall|i: int| 0 <= i < records.len() implies ((
                    #[trigger] records[i]).attempt is InvalidAddress <==> !is_valid_email(
                        records[i].task@.subscriber_email,
                    )) by {
                        if i < recorded.len() {
                            assert(records[i] == recorded[i]);
                        }
                    }
                }
            },
            _ => {
                break ;
            },
        }
    }
    records
}

} // verus!
