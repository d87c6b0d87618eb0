//! An in-memory durable store: the idempotency table, the newsletter issues
//! and the delivery queue, with the transactional rules that publication and
//! delivery rely on.
//!
//! A write made inside a transaction stays in the transaction's handle until
//! the transaction commits; it then reaches the tables together with every
//! other write of that transaction, or not at all. What an open transaction
//! leaves in the store itself is only its lock: the submission it is
//! executing, or the queue row it has claimed.

pub mod publication;
pub mod queue;
pub mod submissions;

pub use publication::{
    distinct_tasks, enqueue_outcome, lemma_committed_wf, pending_rows, tasks_for,
    PublishTransaction, PublishTransactionView,
};
pub use queue::{
    issue_at, lemma_claim_effect, lemma_retire_effect, lemma_retired_wf, lemma_row_of_unique,
    lemma_with_lock_wf, row_of, DeliveryTransaction,
};
pub use submissions::submission;

use crate::idempotency::persistence::{SavedResponseRecord, SavedResponseRecordView};
use vstd::prelude::*;

verus! {

/// Identity of a submission: who submitted, and under which key.
pub struct SubmissionId {
    pub user_id: u128,
    pub idempotency_key: Seq<char>,
}

/// What the idempotency table keeps for a submission besides its identity.
pub struct RecordContent {
    pub created_at: u64,
    pub response: SavedResponseRecordView,
}

/// One row of the idempotency table.
#[derive(Debug, PartialEq, Eq)]
pub struct IdempotencyRecord {
    pub user_id: u128,
    pub idempotency_key: String,
    pub created_at: u64,
    pub response: SavedResponseRecord,
}

impl IdempotencyRecord {
    /// The identity under which the row is found.
    pub open spec fn id(&self) -> SubmissionId {
        SubmissionId { user_id: self.user_id, idempotency_key: self.idempotency_key@ }
    }

    /// What the row holds under that identity.
    pub open spec fn content(&self) -> RecordContent {
        RecordContent { created_at: self.created_at, response: self.response@ }
    }
}

impl Clone for IdempotencyRecord {
    fn clone(&self) -> (copy: IdempotencyRecord)
        ensures
            copy.id() == self.id(),
            copy.content() == self.content(),
    {
        IdempotencyRecord {
            user_id: self.user_id,
            idempotency_key: self.idempotency_key.clone(),
            created_at: self.created_at,
            response: self.response.clone(),
        }
    }
}

/// One published issue of the newsletter.
#[derive(Debug, PartialEq, Eq)]
pub struct NewsletterIssue {
    pub newsletter_issue_id: u128,
    pub title: String,
    pub text_content: String,
    pub html_content: String,
    pub published_at: u64,
}

/// Mathematical content of a [`NewsletterIssue`].
pub struct NewsletterIssueView {
    pub newsletter_issue_id: u128,
    pub title: Seq<char>,
    pub text_content: Seq<char>,
    pub html_content: Seq<char>,
    pub published_at: u64,
}

impl View for NewsletterIssue {
    type V = NewsletterIssueView;

    open spec fn view(&self) -> NewsletterIssueView {
        NewsletterIssueView {
            newsletter_issue_id: self.newsletter_issue_id,
            title: self.title@,
            text_content: self.text_content@,
            html_content: self.html_content@,
            published_at: self.published_at,
        }
    }
}

impl DeepView for NewsletterIssue {
    type V = NewsletterIssueView;

    open spec fn deep_view(&self) -> NewsletterIssueView {
        self@
    }
}

impl Clone for NewsletterIssue {
    fn clone(&self) -> (copy: NewsletterIssue)
        ensures
            copy@ == self@,
    {
        NewsletterIssue {
            newsletter_issue_id: self.newsletter_issue_id,
            title: self.title.clone(),
            text_content: self.text_content.clone(),
            html_content: self.html_content.clone(),
            published_at: self.published_at,
        }
    }
}

/// One recipient that has not yet received one issue.
#[derive(Debug, PartialEq, Eq)]
pub struct DeliveryTask {
    pub newsletter_issue_id: u128,
    pub subscriber_email: String,
}

/// Mathematical content of a [`DeliveryTask`].
pub struct DeliveryTaskView {
    pub newsletter_issue_id: u128,
    pub subscriber_email: Seq<char>,
}

impl View for DeliveryTask {
    type V = DeliveryTaskView;

    open spec fn view(&self) -> DeliveryTaskView {
        DeliveryTaskView {
            newsletter_issue_id: self.newsletter_issue_id,
            subscriber_email: self.subscriber_email@,
        }
    }
}

impl DeepView for DeliveryTask {
    type V = DeliveryTaskView;

    open spec fn deep_view(&self) -> DeliveryTaskView {
        self@
    }
}

impl Clone for DeliveryTask {
    fn clone(&self) -> (copy: DeliveryTask)
        ensures
            copy@ == self@,
    {
        DeliveryTask {
            newsletter_issue_id: self.newsletter_issue_id,
            subscriber_email: self.subscriber_email.clone(),
        }
    }
}

/// A row of the delivery queue as the store sees it: the task, and whether a
/// worker's open transaction holds it.
pub struct QueueRowView {
    pub task: DeliveryTaskView,
    pub locked: bool,
}

/// What can go wrong inside the store.
#[derive(Debug, PartialEq, Eq, Clone, Copy, Structural)]
pub enum StoreError {
    /// An issue with this identifier exists already.
    DuplicateIssue,
    /// The queue holds this recipient for this issue already.
    DuplicateTask,
    /// A task names an issue that does not exist.
    UnknownIssue,
    /// The idempotency table holds this submission already.
    DuplicateRecord,
    /// No row was found where exactly one was expected.
    RowNotFound,
}

/// A submission that is being executed: the lock that its transaction holds.
struct OpenSubmission {
    user_id: u128,
    idempotency_key: String,
}

impl OpenSubmission {
    spec fn id(&self) -> SubmissionId {
        SubmissionId { user_id: self.user_id, idempotency_key: self.idempotency_key@ }
    }
}

/// A row of the delivery queue.
struct QueueRow {
    task: DeliveryTask,
    locked: bool,
}

impl View for QueueRow {
    type V = QueueRowView;

    closed spec fn view(&self) -> QueueRowView {
        QueueRowView { task: self.task@, locked: self.locked }
    }
}

impl DeepView for QueueRow {
    type V = QueueRowView;

    closed spec fn deep_view(&self) -> QueueRowView {
        self@
    }
}

/// Whether a list of issues holds one with this identifier.
pub open spec fn issues_have(issues: Seq<NewsletterIssueView>, newsletter_issue_id: u128) -> bool {
    exists|i: int|
        0 <= i < issues.len() && #[trigger] issues[i].newsletter_issue_id == newsletter_issue_id
}

/// Whether a list of tasks holds the given task.
pub open spec fn tasks_have(tasks: Seq<DeliveryTaskView>, task: DeliveryTaskView) -> bool {
    exists|i: int| 0 <= i < tasks.len() && #[trigger] tasks[i] == task
}

/// Whether a queue holds the given task, claimed or not.
pub open spec fn rows_have(rows: Seq<QueueRowView>, task: DeliveryTaskView) -> bool {
    exists|i: int| 0 <= i < rows.len() && #[trigger] rows[i].task == task
}

/// The tables as mathematical values.
pub struct StoreView {
    /// The committed rows of the idempotency table, by identity.
    pub idempotency: Map<SubmissionId, RecordContent>,
    /// The submissions that an open transaction is executing.
    pub open_submissions: Set<SubmissionId>,
    /// The committed issues, oldest first.
    pub newsletter_issues: Seq<NewsletterIssueView>,
    /// The committed rows of the delivery queue, oldest first.
    pub issue_delivery_queue: Seq<QueueRowView>,
}

impl StoreView {
    /// Whether an issue with this identifier is stored.
    pub open spec fn has_issue(self, newsletter_issue_id: u128) -> bool {
        issues_have(self.newsletter_issues, newsletter_issue_id)
    }

    /// Whether the queue holds the given task, claimed or not.
    pub open spec fn has_task(self, task: DeliveryTaskView) -> bool {
        rows_have(self.issue_delivery_queue, task)
    }

    /// Whether some task waits for a worker.
    pub open spec fn has_pending_task(self) -> bool {
        exists|i: int|
            0 <= i < self.issue_delivery_queue.len()
                && !#[trigger] self.issue_delivery_queue[i].locked
    }

    /// The constraints that the tables keep at all times.
    pub open spec fn wf(self) -> bool {
        &&& forall|id: SubmissionId| #[trigger]
            self.idempotency.dom().contains(id) ==> self.idempotency[id].response.wf()
        &&& forall|id: SubmissionId|
            !(#[trigger] self.idempotency.dom().contains(id) && self.open_submissions.contains(id))
        &&& forall|i: int, j: int|
            0 <= i < j < self.newsletter_issues.len()
                ==> #[trigger] self.newsletter_issues[i].newsletter_issue_id
                != #[trigger] self.newsletter_issues[j].newsletter_issue_id
        &&& forall|i: int, j: int|
            0 <= i < j < self.issue_delivery_queue.len()
                ==> #[trigger] self.issue_delivery_queue[i].task
                != #[trigger] self.issue_delivery_queue[j].task
        &&& forall|i: int|
            0 <= i < self.issue_delivery_queue.len() ==> self.has_issue(
                #[trigger] self.issue_delivery_queue[i].task.newsletter_issue_id,
            )
    }

    /// The store in which nothing has happened yet.
    pub open spec fn empty() -> StoreView {
        StoreView {
            idempotency: Map::empty(),
            open_submissions: Set::empty(),
            newsletter_issues: Seq::empty(),
            issue_delivery_queue: Seq::empty(),
        }
    }
}

/// The committed rows of the idempotency table as a map.
spec fn records_map(rows: Seq<IdempotencyRecord>) -> Map<SubmissionId, RecordContent> {
    Map::new(
        |id: SubmissionId| exists|i: int| 0 <= i < rows.len() && #[trigger] rows[i].id() == id,
        |id: SubmissionId|
            rows[choose|i: int| 0 <= i < rows.len() && #[trigger] rows[i].id() == id].content(),
    )
}

/// No two rows of the idempotency table share an identity.
spec fn distinct_records(rows: Seq<IdempotencyRecord>) -> bool {
    forall|i: int, j: int|
        0 <= i < j < rows.len() ==> #[trigger] rows[i].id() != #[trigger] rows[j].id()
}

/// The locks of the open submissions as a set.
spec fn open_set(rows: Seq<OpenSubmission>) -> Set<SubmissionId> {
    Set::new(|id: SubmissionId| exists|i: int| 0 <= i < rows.len() && #[trigger] rows[i].id() == id)
}

/// In a table without repeated identities a row is what the map holds
/// under its identity.
proof fn lemma_record_at(rows: Seq<IdempotencyRecord>, i: int)
    requires
        distinct_records(rows),
        0 <= i < rows.len(),
    ensures
        records_map(rows).dom().contains(rows[i].id()),
        records_map(rows)[rows[i].id()] == rows[i].content(),
{
    let id = rows[i].id();
    let j = choose|j: int| 0 <= j < rows.len() && #[trigger] rows[j].id() == id;
    assert(j == i);
}

/// Appending a row with a new identity inserts it into the map.
proof fn lemma_records_push(rows: Seq<IdempotencyRecord>, row: IdempotencyRecord)
    requires
        distinct_records(rows),
        !records_map(rows).dom().contains(row.id()),
    ensures
        distinct_records(rows.push(row)),
        records_map(rows.push(row)) == records_map(rows).insert(row.id(), row.content()),
{
    let after = rows.push(row);
    assert forall|i: int, j: int| 0 <= i < j < after.len() implies #[trigger] after[i].id()
        != #[trigger] after[j].id() by {
        if j == rows.len() {
            assert(rows[i].id() == after[i].id());
        }
    }
    let expected = records_map(rows).insert(row.id(), row.content());
    assert forall|id: SubmissionId| #[trigger]
        records_map(after).dom().contains(id) == expected.dom().contains(id) by {
        if records_map(after).dom().contains(id) {
            let i = choose|i: int| 0 <= i < after.len() && #[trigger] after[i].id() == id;
            if i < rows.len() {
                assert(rows[i].id() == id);
            }
        }
        if expected.dom().contains(id) {
            if id == row.id() {
                assert(after[rows.len() as int].id() == id);
            } else {
                let i = choose|i: int| 0 <= i < rows.len() && #[trigger] rows[i].id() == id;
                assert(after[i].id() == id);
            }
        }
    }
    assert forall|id: SubmissionId| #[trigger] expected.dom().contains(id) implies records_map(
        after,
    )[id] == expected[id] by {
        assert(records_map(after).dom().contains(id));
        let i = choose|i: int| 0 <= i < after.len() && #[trigger] after[i].id() == id;
        lemma_record_at(after, i);
        if i < rows.len() {
            assert(rows[i].id() == id);
            lemma_record_at(rows, i);
        }
    }
    assert(records_map(after) =~= expected);
}

/// Replacing a row by one of the same identity overwrites it in the map.
proof fn lemma_records_update(rows: Seq<IdempotencyRecord>, at: int, row: IdempotencyRecord)
    requires
        distinct_records(rows),
        0 <= at < rows.len(),
        row.id() == rows[at].id(),
    ensures
        distinct_records(rows.update(at, row)),
        records_map(rows.update(at, row)) == records_map(rows).insert(row.id(), row.content()),
{
    let after = rows.update(at, row);
    assert forall|i: int| 0 <= i < rows.len() implies #[trigger] after[i].id() == rows[i].id() by {}
    assert forall|i: int, j: int| 0 <= i < j < after.len() implies #[trigger] after[i].id()
        != #[trigger] after[j].id() by {
        assert(after[i].id() == rows[i].id());
        assert(after[j].id() == rows[j].id());
    }
    let expected = records_map(rows).insert(row.id(), row.content());
    assert forall|id: SubmissionId| #[trigger]
        records_map(after).dom().contains(id) == expected.dom().contains(id) by {
        if records_map(after).dom().contains(id) {
            let i = choose|i: int| 0 <= i < after.len() && #[trigger] after[i].id() == id;
            assert(rows[i].id() == id);
        }
        if expected.dom().contains(id) {
            if id == row.id() {
                assert(after[at].id() == id);
            } else {
                let i = choose|i: int| 0 <= i < rows.len() && #[trigger] rows[i].id() == id;
                assert(after[i].id() == id);
            }
        }
    }
    assert forall|id: SubmissionId| #[trigger] expected.dom().contains(id) implies records_map(
        after,
    )[id] == expected[id] by {
        assert(records_map(after).dom().contains(id));
        let i = choose|i: int| 0 <= i < after.len() && #[trigger] after[i].id() == id;
        lemma_record_at(after, i);
        if i != at {
            assert(rows[i].id() == id);
            lemma_record_at(rows, i);
        }
    }
    assert(records_map(after) =~= expected);
}

/// The in-memory store.
pub struct Store {
    idempotency: Vec<IdempotencyRecord>,
    open_submissions: Vec<OpenSubmission>,
    newsletter_issues: Vec<NewsletterIssue>,
    issue_delivery_queue: Vec<QueueRow>,
}

impl View for Store {
    type V = StoreView;

    closed spec fn view(&self) -> StoreView {
        StoreView {
            idempotency: records_map(self.idempotency@),
            open_submissions: open_set(self.open_submissions@),
            newsletter_issues: self.newsletter_issues.deep_view(),
            issue_delivery_queue: self.issue_delivery_queue.deep_view(),
        }
    }
}

impl Store {
    /// The representation keeps one row for each identity.
    pub closed spec fn rows_distinct(&self) -> bool {
        distinct_records(self.idempotency@)
    }

    /// The store is in a state that its own operations can have produced.
    pub open spec fn wf(&self) -> bool {
        self@.wf() && self.rows_distinct()
    }

    /// A store with empty tables.
    pub fn new() -> (store: Store)
        ensures
            store.wf(),
            store@ == StoreView::empty(),
    {
        let store = Store {
            idempotency: Vec::new(),
            open_submissions: Vec::new(),
            newsletter_issues: Vec::new(),
            issue_delivery_queue: Vec::new(),
        };
        assert(store@.idempotency =~= Map::empty());
        assert(store@.open_submissions =~= Set::empty());
        assert(store@.newsletter_issues =~= Seq::empty());
        assert(store@.issue_delivery_queue =~= Seq::empty());
        store
    }
}

impl Store {
    /// The tables are no larger than memory allows.
    pub proof fn lemma_tables_fit(&self)
        ensures
            self@.newsletter_issues.len() <= usize::MAX,
            self@.issue_delivery_queue.len() <= usize::MAX,
    {
        assert(self@.newsletter_issues.len() == self.newsletter_issues.len());
        assert(self@.issue_delivery_queue.len() == self.issue_delivery_queue.len());
    }

    /// The committed rows of the idempotency table, oldest first.
    pub fn idempotency_records(&self) -> (records: Vec<IdempotencyRecord>)
        requires
            self.wf(),
        ensures
            forall|i: int|
                0 <= i < records.len() ==> self@.idempotency.dom().contains(
                    #[trigger] records[i].id(),
                ) && self@.idempotency[records[i].id()] == records[i].content(),
            forall|i: int, j: int|
                0 <= i < j < records.len() ==> #[trigger] records[i].id()
                    != #[trigger] records[j].id(),
            forall|id: SubmissionId| #[trigger]
                self@.idempotency.dom().contains(id) ==> exists|i: int|
                    0 <= i < records.len() && #[trigger] records[i].id() == id,
    {
        let mut records: Vec<IdempotencyRecord> = Vec::new();
        let mut i: usize = 0;
        while i < self.idempotency.len()
            invariant
                self.wf(),
                i <= self.idempotency.len(),
                records.len() == i,
                forall|j: int|
                    0 <= j < i ==> (#[trigger] records[j]).id() == self.idempotency[j].id()
                        && records[j].content() == self.idempotency[j].content(),
            decreases self.idempotency.len() - i,
        {
            records.push(self.idempotency[i].clone());
            i += 1;
        }
        proof {
            assert forall|j: int| 0 <= j < records.len() implies self@.idempotency.dom().contains(
                #[trigger] records[j].id(),
            ) && self@.idempotency[records[j].id()] == records[j].content() by {
                lemma_record_at(self.idempotency@, j);
            }
            assert forall|a: int, b: int| 0 <= a < b < records.len() implies #[trigger] records[a].id()
                != #[trigger] records[b].id() by {
                assert(self.idempotency[a].id() != self.idempotency[b].id());
            }
            assert forall|id: SubmissionId| #[trigger]
                self@.idempotency.dom().contains(id) implies exists|k: int|
                0 <= k < records.len() && #[trigger] records[k].id() == id by {
                let k = choose|k: int|
                    0 <= k < self.idempotency.len() && #[trigger] self.idempotency[k].id() == id;
                assert(records[k].id() == id);
            }
        }
        records
    }

    /// The number of stored issues.
    pub fn issue_count(&self) -> (count: usize)
        ensures
            count == self@.newsletter_issues.len(),
    {
        self.newsletter_issues.len()
    }

    /// The number of rows in the delivery queue, held or waiting.
    pub fn queue_len(&self) -> (count: usize)
        ensures
            count == self@.issue_delivery_queue.len(),
    {
        self.issue_delivery_queue.len()
    }

    /// The tasks in the delivery queue, held or waiting, oldest first.
    pub fn queued_tasks(&self) -> (tasks: Vec<DeliveryTask>)
        ensures
            tasks.len() == self@.issue_delivery_queue.len(),
            forall|i: int|
                0 <= i < tasks.len() ==> #[trigger] tasks.deep_view()[i]
                    == self@.issue_delivery_queue[i].task,
    {
        let mut tasks: Vec<DeliveryTask> = Vec::new();
        let mut i: usize = 0;
        while i < self.issue_delivery_queue.len()
            invariant
                i <= self.issue_delivery_queue.len(),
                tasks.len() == i,
                forall|j: int|
                    0 <= j < i ==> #[trigger] tasks.deep_view()[j]
                        == self@.issue_delivery_queue[j].task,
            decreases self.issue_delivery_queue.len() - i,
        {
            let ghost copied = tasks.deep_view();
            tasks.push(self.issue_delivery_queue[i].task.clone());
            proof {
                assert forall|j: int| 0 <= j < i + 1 implies #[trigger] tasks.deep_view()[j]
                    == self@.issue_delivery_queue[j].task by {
                    if j < i {
                        assert(tasks.deep_view()[j] == copied[j]);
                    }
                }
            }
            i += 1;
        }
        tasks
    }

    /// The stored issues, oldest first.
    pub fn issues(&self) -> (issues: Vec<NewsletterIssue>)
        ensures
            issues.deep_view() == self@.newsletter_issues,
    {
        let mut issues: Vec<NewsletterIssue> = Vec::new();
        let mut i: usize = 0;
        while i < self.newsletter_issues.len()
            invariant
                i <= self.newsletter_issues.len(),
                issues.len() == i,
                forall|j: int|
                    0 <= j < i ==> #[trigger] issues.deep_view()[j] == self@.newsletter_issues[j],
            decreases self.newsletter_issues.len() - i,
        {
            let ghost copied = issues.deep_view();
            issues.push(self.newsletter_issues[i].clone());
            proof {
                assert forall|j: int| 0 <= j < i + 1 implies #[trigger] issues.deep_view()[j]
                    == self@.newsletter_issues[j] by {
                    if j < i {
                        assert(issues.deep_view()[j] == copied[j]);
                    }
                }
            }
            i += 1;
        }
        assert(issues.deep_view() =~= self@.newsletter_issues);
        issues
    }
}

} // verus!
