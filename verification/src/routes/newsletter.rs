//! Publishing an issue of the newsletter exactly once.
//!
//! What a publication does next is decided in one place,
//! [`first_publish_action`] and [`next_publish_action`], from the step that
//! was taken and from what came of it. Whoever runs a publication, on the
//! in-memory store as [`publish_newsletter_with_id`] does or on a database,
//! takes the steps that it is told and hands back the events.

use crate::domain::subscriber_email::{is_valid_email, SubscriberEmail};
use crate::email_client::{
    Answered, EmailRequestView, EmailSender, IssueContent, IssueContentView,
};
use crate::idempotency::key::{code_units, is_valid_key, IdempotencyKey, IdempotencyKeyError};
use crate::idempotency::persistence::{
    save_response, try_processing, IdempotencyError, NextAction, NextActionView, Response,
    ResponseView,
};
use crate::store::{
    distinct_tasks, enqueue_outcome, pending_rows, submission, tasks_for, NewsletterIssue,
    NewsletterIssueView, PublishTransaction, PublishTransactionView, RecordContent, Store,
    StoreError, StoreView,
};
use crate::utils::{see_other, see_other_view};
use vstd::prelude::*;

verus! {

/// What the author of an issue submits.
#[derive(Debug, PartialEq, Eq)]
pub struct NewsletterFormData {
    pub title: String,
    pub text_content: String,
    pub html_content: String,
    pub idempotency_key: String,
}

/// Mathematical content of a [`NewsletterFormData`].
pub struct NewsletterFormView {
    pub title: Seq<char>,
    pub text_content: Seq<char>,
    pub html_content: Seq<char>,
    pub idempotency_key: Seq<char>,
}

impl View for NewsletterFormData {
    type V = NewsletterFormView;

    open spec fn view(&self) -> NewsletterFormView {
        NewsletterFormView {
            title: self.title@,
            text_content: self.text_content@,
            html_content: self.html_content@,
            idempotency_key: self.idempotency_key@,
        }
    }
}

/// One subscriber as the subscriber source reports it: the address, and the
/// status of the subscription.
#[derive(Debug, PartialEq, Eq)]
pub struct Subscription {
    pub email: String,
    pub status: String,
}

/// Mathematical content of a [`Subscription`].
pub struct SubscriptionView {
    pub email: Seq<char>,
    pub status: Seq<char>,
}

impl View for Subscription {
    type V = SubscriptionView;

    open spec fn view(&self) -> SubscriptionView {
        SubscriptionView { email: self.email@, status: self.status@ }
    }
}

impl DeepView for Subscription {
    type V = SubscriptionView;

    open spec fn deep_view(&self) -> SubscriptionView {
        self@
    }
}

impl SubscriptionView {
    /// Whether the subscriber has confirmed the subscription.
    pub open spec fn is_confirmed(self) -> bool {
        self.status == "confirmed"@
    }
}

/// The addresses of the confirmed subscribers, in the order of the list.
pub open spec fn confirmed_emails(subscriptions: Seq<SubscriptionView>) -> Seq<Seq<char>>
    decreases subscriptions.len(),
{
    if subscriptions.len() == 0 {
        Seq::empty()
    } else {
        let earlier = confirmed_emails(subscriptions.drop_last());
        if subscriptions.last().is_confirmed() {
            earlier.push(subscriptions.last().email)
        } else {
            earlier
        }
    }
}

/// Picks the addresses of the confirmed subscribers.
pub fn get_confirmed_subscribers(subscriptions: &Vec<Subscription>) -> (emails: Vec<String>)
    ensures
        emails.deep_view() == confirmed_emails(subscriptions.deep_view()),
{
    let confirmed = String::from_str("confirmed");
    let mut emails: Vec<String> = Vec::new();
    let mut i: usize = 0;
    assert(subscriptions.deep_view().subrange(0, 0) =~= Seq::empty());
    while i < subscriptions.len()
        invariant
            i <= subscriptions.len(),
            confirmed@ == "confirmed"@,
            emails.deep_view() == confirmed_emails(subscriptions.deep_view().subrange(0, i as int)),
        decreases subscriptions.len() - i,
    {
        let ghost before = emails.deep_view();
        if subscriptions[i].status == confirmed {
            emails.push(subscriptions[i].email.clone());
        }
        proof {
            let seen = subscriptions.deep_view().subrange(0, i + 1);
            assert(seen.drop_last() =~= subscriptions.deep_view().subrange(0, i as int));
            assert(seen.last() == subscriptions[i as int]@);
            if subscriptions[i as int]@.is_confirmed() {
                assert(emails.deep_view() =~= before.push(subscriptions[i as int].email@));
            }
        }
        i += 1;
    }
    assert(subscriptions.deep_view().subrange(0, subscriptions.len() as int)
        =~= subscriptions.deep_view());
    emails
}

/// Asks `Uuid::new_v4` for a random identifier and gives its 128 bits. The
/// identifier carries the marks of a version 4 UUID: the version digit is 4
/// and the two variant bits are 1 and 0. Nothing else is known of it.
#[verifier::external_body]
pub(crate) fn new_issue_id() -> (newsletter_issue_id: u128)
    ensures
        newsletter_issue_id & 0x0000_0000_0000_f000_c000_0000_0000_0000
            == 0x0000_0000_0000_4000_8000_0000_0000_0000,
{
    uuid::Uuid::new_v4().as_u128()
}

/// Why a publication was refused.
#[derive(Debug, PartialEq, Eq, Clone, Copy)]
pub enum PublishError {
    /// The idempotency key is not valid. The store was not touched.
    InvalidKey(IdempotencyKeyError),
    /// The idempotency table could not say what to do.
    Idempotency(IdempotencyError),
    /// The store refused a write. Nothing of the publication is kept.
    Store(StoreError),
}

impl PublishError {
    /// The status code that reports the error to the client: 400 for an
    /// invalid key, 500 for everything else.
    pub fn status_code(&self) -> (code: u16)
        ensures
            code == (if *self is InvalidKey {
                400u16
            } else {
                500u16
            }),
    {
        match self {
            PublishError::InvalidKey(_) => 400,
            _ => 500,
        }
    }
}

/// The issue that a form describes, under the given identifier.
pub open spec fn issue_of(form: NewsletterFormView, newsletter_issue_id: u128, now: u64) -> NewsletterIssueView {
    NewsletterIssueView {
        newsletter_issue_id,
        title: form.title,
        text_content: form.text_content,
        html_content: form.html_content,
        published_at: now,
    }
}

/// What writing an issue under one identifier gives: the answer, and the
/// transaction afterwards. An identifier that the store or the transaction
/// holds already is refused and nothing is written; any other identifier is
/// handed back, and the issue is the last that the transaction has written.
pub open spec fn insert_outcome(
    store: StoreView,
    transaction: PublishTransactionView,
    newsletter_issue_id: u128,
    title: Seq<char>,
    text_content: Seq<char>,
    html_content: Seq<char>,
    now: u64,
) -> (Result<u128, StoreError>, PublishTransactionView) {
    if store.has_issue(newsletter_issue_id) || transaction.has_issue(newsletter_issue_id) {
        (Err(StoreError::DuplicateIssue), transaction)
    } else {
        (
            Ok(newsletter_issue_id),
            PublishTransactionView {
                issues: transaction.issues.push(
                    NewsletterIssueView {
                        newsletter_issue_id,
                        title,
                        text_content,
                        html_content,
                        published_at: now,
                    },
                ),
                ..transaction
            },
        )
    }
}

/// Writes the issue into the transaction under the given identifier, and
/// hands the identifier back. An identifier that is taken is refused.
pub fn insert_newsletter_issue_with_id(
    store: &Store,
    transaction: &mut PublishTransaction,
    newsletter_issue_id: u128,
    title: String,
    text_content: String,
    html_content: String,
    now: u64,
) -> (result: Result<u128, StoreError>)
    requires
        old(transaction).wf(),
    ensures
        final(transaction).wf(),
        (result, final(transaction)@) == insert_outcome(
            store@,
            old(transaction)@,
            newsletter_issue_id,
            title@,
            text_content@,
            html_content@,
            now,
        ),
{
    let issue = NewsletterIssue {
        newsletter_issue_id,
        title,
        text_content,
        html_content,
        published_at: now,
    };
    match transaction.insert_issue(store, issue) {
        Ok(()) => Ok(newsletter_issue_id),
        Err(error) => Err(error),
    }
}

/// Writes the issue into the transaction under a fresh random identifier,
/// and hands the identifier back. The outcome is that of
/// [`insert_newsletter_issue_with_id`] for the identifier that was drawn:
/// where neither the store nor the transaction holds an issue, no
/// identifier can be taken and the issue is written.
pub fn insert_newsletter_issue(
    store: &Store,
    transaction: &mut PublishTransaction,
    title: String,
    text_content: String,
    html_content: String,
    now: u64,
) -> (result: Result<u128, StoreError>)
    requires
        old(transaction).wf(),
    ensures
        final(transaction).wf(),
        exists|newsletter_issue_id: u128|
            (result, final(transaction)@) == #[trigger] insert_outcome(
                store@,
                old(transaction)@,
                newsletter_issue_id,
                title@,
                text_content@,
                html_content@,
                now,
            ),
{
    let newsletter_issue_id = new_issue_id();
    insert_newsletter_issue_with_id(
        store,
        transaction,
        newsletter_issue_id,
        title,
        text_content,
        html_content,
        now,
    )
}

/// Enqueues one delivery task for every confirmed subscriber, all of them
/// or none. With no confirmed subscriber nothing is written and nothing is
/// refused.
pub fn enqueue_delivery_tasks(
    store: &Store,
    transaction: &mut PublishTransaction,
    newsletter_issue_id: u128,
    subscriptions: &Vec<Subscription>,
) -> (result: Result<(), StoreError>)
    requires
        old(transaction).wf(),
    ensures
        final(transaction).wf(),
        (result, final(transaction)@) == enqueue_outcome(
            store@,
            old(transaction)@,
            newsletter_issue_id,
            confirmed_emails(subscriptions.deep_view()),
        ),
{
    let emails = get_confirmed_subscribers(subscriptions);
    transaction.enqueue_tasks(store, newsletter_issue_id, &emails)
}

/// Where the client is sent once an issue has been accepted.
pub open spec fn accepted() -> ResponseView {
    see_other_view("/admin/newsletters"@)
}

/// What a fresh publication writes: its issue, and one task for every
/// confirmed subscriber.
pub open spec fn publication(
    form: NewsletterFormView,
    user_id: u128,
    subscriptions: Seq<SubscriptionView>,
    newsletter_issue_id: u128,
    now: u64,
) -> PublishTransactionView {
    PublishTransactionView {
        id: submission(user_id, form.idempotency_key),
        created_at: now,
        issues: seq![issue_of(form, newsletter_issue_id, now)],
        tasks: tasks_for(newsletter_issue_id, confirmed_emails(subscriptions)),
    }
}

/// What a submission is answered.
pub open spec fn publish_outcome(
    store: StoreView,
    form: NewsletterFormView,
    user_id: u128,
    subscriptions: Seq<SubscriptionView>,
    newsletter_issue_id: u128,
    now: u64,
) -> Result<ResponseView, PublishError> {
    let id = submission(user_id, form.idempotency_key);
    if code_units(form.idempotency_key) == 0 {
        Err(PublishError::InvalidKey(IdempotencyKeyError::Empty))
    } else if code_units(form.idempotency_key) >= IdempotencyKey::MAX_LENGHT {
        Err(PublishError::InvalidKey(IdempotencyKeyError::MaxLenght))
    } else {
        match store.next_action(id, now) {
            Err(error) => Err(PublishError::Idempotency(error)),
            Ok(NextActionView::ReturnSavedResponse(response)) => Ok(response),
            Ok(NextActionView::StartProcessing(_)) => {
                if store.has_issue(newsletter_issue_id) {
                    Err(PublishError::Store(StoreError::DuplicateIssue))
                } else if !distinct_tasks(
                    tasks_for(newsletter_issue_id, confirmed_emails(subscriptions)),
                ) {
                    Err(PublishError::Store(StoreError::DuplicateTask))
                } else {
                    Ok(accepted())
                }
            },
        }
    }
}

/// Whether a submission is executed: it is valid, it is the first with its
/// caller and key, and the store accepts what it writes.
pub open spec fn is_executed(
    store: StoreView,
    form: NewsletterFormView,
    user_id: u128,
    subscriptions: Seq<SubscriptionView>,
    newsletter_issue_id: u128,
    now: u64,
) -> bool {
    &&& store.is_first(submission(user_id, form.idempotency_key))
    &&& publish_outcome(store, form, user_id, subscriptions, newsletter_issue_id, now) is Ok
}

/// The tables after a submission. An executed submission adds its record,
/// its issue and its tasks; any other leaves the tables as they were.
pub open spec fn store_after_publish(
    store: StoreView,
    form: NewsletterFormView,
    user_id: u128,
    subscriptions: Seq<SubscriptionView>,
    newsletter_issue_id: u128,
    now: u64,
) -> StoreView {
    if is_executed(store, form, user_id, subscriptions, newsletter_issue_id, now) {
        StoreView {
            idempotency: store.idempotency.insert(
                submission(user_id, form.idempotency_key),
                RecordContent {
                    created_at: now,
                    response: crate::idempotency::persistence::encode(accepted()),
                },
            ),
            open_submissions: store.open_submissions,
            newsletter_issues: store.newsletter_issues.push(
                issue_of(form, newsletter_issue_id, now),
            ),
            issue_delivery_queue: store.issue_delivery_queue + pending_rows(
                tasks_for(newsletter_issue_id, confirmed_emails(subscriptions)),
            ),
        }
    } else {
        store
    }
}

/// Whether an executable result stands for the given mathematical one.
pub open spec fn is_publish_result(
    result: Result<Response, PublishError>,
    expected: Result<ResponseView, PublishError>,
) -> bool {
    match result {
        Ok(response) => expected == Ok::<ResponseView, PublishError>(response@),
        Err(error) => expected == Err::<ResponseView, PublishError>(error),
    }
}

/// Why a publication was refused before it was answered.
#[derive(Debug, PartialEq, Eq)]
pub enum PublishRefusal<E> {
    /// The idempotency key is not valid. Nothing was asked of the store.
    InvalidKey(IdempotencyKeyError),
    /// What was asked of the store failed. The transaction is rolled back.
    Failed(E),
    /// An answer came that does not belong to the step that was taken.
    OutOfTurn,
}

/// The step that a publication takes next. Whoever runs the publication
/// takes the step and hands back what came of it as a [`PublishEvent`].
#[derive(Debug, PartialEq, Eq)]
pub enum PublishAction<E> {
    /// Ask the idempotency table whether the submission executes or
    /// replays.
    TryProcessing { idempotency_key: IdempotencyKey, issue: IssueContent },
    /// Write the issue, in the open transaction.
    InsertIssue { idempotency_key: IdempotencyKey, issue: IssueContent },
    /// Enqueue one delivery of the issue for every confirmed subscriber, in
    /// the open transaction.
    Enqueue { idempotency_key: IdempotencyKey, newsletter_issue_id: u128 },
    /// Capture the response in the record of the submission and commit.
    SaveResponse { idempotency_key: IdempotencyKey, response: Response },
    /// Answer the client with the response.
    Respond { response: Response },
    /// Refuse the submission; an open transaction is rolled back.
    Reject { error: PublishRefusal<E> },
}

/// What came of a step of a publication.
#[derive(Debug, PartialEq, Eq)]
pub enum PublishEvent<E> {
    /// What the idempotency table said: the saved response to replay, or
    /// none where the submission is the first and executes.
    Processed(Result<Option<Response>, E>),
    /// The identifier under which the issue was written.
    IssueInserted(Result<u128, E>),
    /// The deliveries were enqueued.
    Enqueued(Result<(), E>),
    /// The response was captured and the transaction committed.
    Saved(Result<(), E>),
}

/// What of a form goes into the issue.
pub open spec fn form_content(form: NewsletterFormView) -> IssueContentView {
    IssueContentView {
        title: form.title,
        text_content: form.text_content,
        html_content: form.html_content,
    }
}

/// Whether `first` is the step with which the publication of a form
/// begins: a form with an invalid key is refused at once; any other goes to
/// the idempotency table.
pub open spec fn is_first_publish_step<E>(form: NewsletterFormView, first: PublishAction<E>) -> bool {
    if code_units(form.idempotency_key) == 0 {
        first == PublishAction::<E>::Reject {
            error: PublishRefusal::InvalidKey(IdempotencyKeyError::Empty),
        }
    } else if code_units(form.idempotency_key) >= IdempotencyKey::MAX_LENGHT {
        first == PublishAction::<E>::Reject {
            error: PublishRefusal::InvalidKey(IdempotencyKeyError::MaxLenght),
        }
    } else {
        &&& first matches PublishAction::TryProcessing { idempotency_key, issue }
        &&& idempotency_key@ == form.idempotency_key
        &&& issue@ == form_content(form)
    }
}

/// Begins the publication of a form: validates the idempotency key before
/// anything is asked of the store.
pub fn first_publish_action<E>(form: NewsletterFormData) -> (first: PublishAction<E>)
    ensures
        is_first_publish_step(form@, first),
{
    let NewsletterFormData { title, text_content, html_content, idempotency_key } = form;
    match IdempotencyKey::try_from(idempotency_key) {
        Ok(idempotency_key) => PublishAction::TryProcessing {
            idempotency_key,
            issue: IssueContent { title, text_content, html_content },
        },
        Err(error) => PublishAction::Reject { error: PublishRefusal::InvalidKey(error) },
    }
}

/// Whether `next` is the step that follows `action` once `event` has come
/// of it.
/// - A submission that is not the first is answered with the saved
///   response; nothing is written.
/// - The first submission writes the issue, then enqueues the deliveries
///   under the identifier of the issue, then captures the response that
///   sends the client back to the form, then answers with that response.
/// - Where the store fails the publication is refused with that failure,
///   and so it is where an event does not belong to the step.
pub open spec fn is_next_publish_step<E>(
    action: PublishAction<E>,
    event: PublishEvent<E>,
    next: PublishAction<E>,
) -> bool {
    match (action, event) {
        (
            PublishAction::TryProcessing { idempotency_key: key, issue: content },
            PublishEvent::Processed(Ok(None)),
        ) => {
            &&& next matches PublishAction::InsertIssue { idempotency_key, issue }
            &&& idempotency_key@ == key@
            &&& issue@ == content@
        },
        (PublishAction::TryProcessing { .. }, PublishEvent::Processed(Ok(Some(saved)))) => {
            &&& next matches PublishAction::Respond { response }
            &&& response@ == saved@
        },
        (
            PublishAction::InsertIssue { idempotency_key: key, .. },
            PublishEvent::IssueInserted(Ok(drawn)),
        ) => {
            &&& next matches PublishAction::Enqueue { idempotency_key, newsletter_issue_id }
            &&& idempotency_key@ == key@
            &&& newsletter_issue_id == drawn
        },
        (PublishAction::Enqueue { idempotency_key: key, .. }, PublishEvent::Enqueued(Ok(_))) => {
            &&& next matches PublishAction::SaveResponse { idempotency_key, response }
            &&& idempotency_key@ == key@
            &&& response@ == accepted()
        },
        (PublishAction::SaveResponse { response: saved, .. }, PublishEvent::Saved(Ok(_))) => {
            &&& next matches PublishAction::Respond { response }
            &&& response@ == saved@
        },
        (PublishAction::TryProcessing { .. }, PublishEvent::Processed(Err(error))) => next
            == PublishAction::Reject { error: PublishRefusal::Failed(error) },
        (PublishAction::InsertIssue { .. }, PublishEvent::IssueInserted(Err(error))) => next
            == PublishAction::Reject { error: PublishRefusal::Failed(error) },
        (PublishAction::Enqueue { .. }, PublishEvent::Enqueued(Err(error))) => next
            == PublishAction::Reject { error: PublishRefusal::Failed(error) },
        (PublishAction::SaveResponse { .. }, PublishEvent::Saved(Err(error))) => next
            == PublishAction::Reject { error: PublishRefusal::Failed(error) },
        _ => next == PublishAction::<E>::Reject { error: PublishRefusal::OutOfTurn },
    }
}

/// Decides the next step of a publication from the step that was taken and
/// from what came of it.
pub fn next_publish_action<E>(action: PublishAction<E>, event: PublishEvent<E>) -> (next:
    PublishAction<E>)
    ensures
        is_next_publish_step(action, event, next),
{
    match (action, event) {
        (
            PublishAction::TryProcessing { idempotency_key, issue },
            PublishEvent::Processed(Ok(None)),
        ) => PublishAction::InsertIssue { idempotency_key, issue },
        (PublishAction::TryProcessing { .. }, PublishEvent::Processed(Ok(Some(response)))) => {
            PublishAction::Respond { response }
        },
        (
            PublishAction::InsertIssue { idempotency_key, issue: _ },
            PublishEvent::IssueInserted(Ok(newsletter_issue_id)),
        ) => PublishAction::Enqueue { idempotency_key, newsletter_issue_id },
        (
            PublishAction::Enqueue { idempotency_key, newsletter_issue_id: _ },
            PublishEvent::Enqueued(Ok(())),
        ) => PublishAction::SaveResponse {
            idempotency_key,
            response: see_other("/admin/newsletters"),
        },
        (
            PublishAction::SaveResponse { idempotency_key: _, response },
            PublishEvent::Saved(Ok(())),
        ) => PublishAction::Respond { response },
        (PublishAction::TryProcessing { .. }, PublishEvent::Processed(Err(error))) => {
            PublishAction::Reject { error: PublishRefusal::Failed(error) }
        },
        (PublishAction::InsertIssue { .. }, PublishEvent::IssueInserted(Err(error))) => {
            PublishAction::Reject { error: PublishRefusal::Failed(error) }
        },
        (PublishAction::Enqueue { .. }, PublishEvent::Enqueued(Err(error))) => {
            PublishAction::Reject { error: PublishRefusal::Failed(error) }
        },
        (PublishAction::SaveResponse { .. }, PublishEvent::Saved(Err(error))) => {
            PublishAction::Reject { error: PublishRefusal::Failed(error) }
        },
        _ => PublishAction::Reject { error: PublishRefusal::OutOfTurn },
    }
}

/// How many steps a publication has before it, at most.
pub open spec fn publish_steps_left<E>(action: PublishAction<E>) -> nat {
    match action {
        PublishAction::TryProcessing { .. } => 4,
        PublishAction::InsertIssue { .. } => 3,
        PublishAction::Enqueue { .. } => 2,
        PublishAction::SaveResponse { .. } => 1,
        PublishAction::Respond { .. } => 0,
        PublishAction::Reject { .. } => 0,
    }
}

/// Whether the publication is the first with its caller and key and holds
/// the transaction in which it executes.
pub open spec fn is_executing(
    held: Option<PublishTransaction>,
    store: StoreView,
    before: StoreView,
    id: crate::store::SubmissionId,
) -> bool {
    &&& held matches Some(transaction)
    &&& transaction.wf()
    &&& transaction@.id == id
    &&& before.is_first(id)
    &&& store == before.with_open(id)
}

/// What holds between the steps of a publication that runs on the store:
/// what the step about to be taken says of the store, of the open
/// transaction and of the answer that is owed.
pub open spec fn publish_invariant(
    action: PublishAction<PublishError>,
    held: Option<PublishTransaction>,
    store: StoreView,
    before: StoreView,
    form: NewsletterFormView,
    user_id: u128,
    subscriptions: Seq<SubscriptionView>,
    newsletter_issue_id: u128,
    now: u64,
) -> bool {
    let id = submission(user_id, form.idempotency_key);
    let outcome = publish_outcome(before, form, user_id, subscriptions, newsletter_issue_id, now);
    let after = store_after_publish(
        before,
        form,
        user_id,
        subscriptions,
        newsletter_issue_id,
        now,
    );
    match action {
        PublishAction::TryProcessing { idempotency_key, issue } => {
            &&& held is None
            &&& store == before
            &&& idempotency_key@ == form.idempotency_key
            &&& is_valid_key(form.idempotency_key)
            &&& issue@ == form_content(form)
        },
        PublishAction::InsertIssue { idempotency_key, issue } => {
            &&& idempotency_key@ == form.idempotency_key
            &&& is_valid_key(form.idempotency_key)
            &&& issue@ == form_content(form)
            &&& is_executing(held, store, before, id)
            &&& held->0@ == PublishTransactionView::begun(id, now)
        },
        PublishAction::Enqueue { idempotency_key, newsletter_issue_id: drawn } => {
            &&& idempotency_key@ == form.idempotency_key
            &&& is_valid_key(form.idempotency_key)
            &&& drawn == newsletter_issue_id
            &&& !before.has_issue(newsletter_issue_id)
            &&& is_executing(held, store, before, id)
            &&& held->0@ == (PublishTransactionView {
                issues: seq![issue_of(form, newsletter_issue_id, now)],
                ..PublishTransactionView::begun(id, now)
            })
        },
        PublishAction::SaveResponse { idempotency_key, response } => {
            &&& idempotency_key@ == form.idempotency_key
            &&& is_valid_key(form.idempotency_key)
            &&& response@ == accepted()
            &&& !before.has_issue(newsletter_issue_id)
            &&& distinct_tasks(tasks_for(newsletter_issue_id, confirmed_emails(subscriptions)))
            &&& is_executing(held, store, before, id)
            &&& held->0@ == publication(form, user_id, subscriptions, newsletter_issue_id, now)
        },
        PublishAction::Respond { response } => {
            &&& held is None
            &&& store == after
            &&& outcome == Ok::<ResponseView, PublishError>(response@)
        },
        PublishAction::Reject { error: PublishRefusal::InvalidKey(error) } => {
            &&& held is None
            &&& store == before
            &&& outcome == Err::<ResponseView, _>(PublishError::InvalidKey(error))
        },
        PublishAction::Reject { error: PublishRefusal::Failed(error) } => {
            &&& outcome == Err::<ResponseView, _>(error)
            &&& (held is None && store == before) || is_executing(held, store, before, id)
        },
        PublishAction::Reject { error: PublishRefusal::OutOfTurn } => false,
    }
}

/// Publishes an issue under the given identifier, once. The first valid
/// submission with its caller and key stores the issue, enqueues one
/// delivery for every confirmed subscriber, and captures the response, all
/// in one transaction. Every later submission with that caller and key is
/// answered with the captured response and changes nothing.
pub fn publish_newsletter_with_id(
    store: &mut Store,
    form: NewsletterFormData,
    user_id: u128,
    subscriptions: &Vec<Subscription>,
    newsletter_issue_id: u128,
    now: u64,
) -> (result: Result<Response, PublishError>)
    requires
        old(store).wf(),
    ensures
        final(store).wf(),
        is_publish_result(
            result,
            publish_outcome(
                old(store)@,
                form@,
                user_id,
                subscriptions.deep_view(),
                newsletter_issue_id,
                now,
            ),
        ),
        final(store)@ == store_after_publish(
            old(store)@,
            form@,
            user_id,
            subscriptions.deep_view(),
            newsletter_issue_id,
            now,
        ),
{
    let ghost before = store@;
    let ghost form_view = form@;
    let ghost listed = subscriptions.deep_view();
    let ghost id = submission(user_id, form_view.idempotency_key);
    let ghost tasks = tasks_for(newsletter_issue_id, confirmed_emails(listed));
    let mut held: Option<PublishTransaction> = None;
    let mut action: PublishAction<PublishError> = first_publish_action(form);
    loop
        invariant
            store.wf(),
            before == old(store)@,
            before.wf(),
            form_view == form@,
            listed == subscriptions.deep_view(),
            id == submission(user_id, form_view.idempotency_key),
            tasks == tasks_for(newsletter_issue_id, confirmed_emails(listed)),
            publish_invariant(
                action,
                held,
                store@,
                before,
                form_view,
                user_id,
                listed,
                newsletter_issue_id,
                now,
            ),
        ensures
            action is Respond || action is Reject,
        decreases publish_steps_left(action),
    {
        let event = match &action {
            PublishAction::TryProcessing { idempotency_key, .. } => {
                match try_processing(store, idempotency_key, user_id, now) {
                    Ok(NextAction::StartProcessing(transaction)) => {
                        held = Some(transaction);
                        PublishEvent::Processed(Ok(None))
                    },
                    Ok(NextAction::ReturnSavedResponse(saved_response)) => PublishEvent::Processed(
                        Ok(Some(saved_response)),
                    ),
                    Err(error) => PublishEvent::Processed(Err(PublishError::Idempotency(error))),
                }
            },
            PublishAction::InsertIssue { issue, .. } => {
                let mut transaction = held.unwrap();
                let inserted = insert_newsletter_issue_with_id(
                    store,
                    &mut transaction,
                    newsletter_issue_id,
                    issue.title.clone(),
                    issue.text_content.clone(),
                    issue.html_content.clone(),
                    now,
                );
                proof {
                    if inserted is Ok {
                        assert(transaction@.issues =~= seq![
                            issue_of(form_view, newsletter_issue_id, now),
                        ]);
                    }
                }
                held = Some(transaction);
                match inserted {
                    Ok(drawn) => PublishEvent::IssueInserted(Ok(drawn)),
                    Err(error) => PublishEvent::IssueInserted(Err(PublishError::Store(error))),
                }
            },
            PublishAction::Enqueue { newsletter_issue_id: drawn, .. } => {
                let mut transaction = held.unwrap();
                proof {
                    assert(transaction@.issues[0].newsletter_issue_id == newsletter_issue_id);
                    assert(transaction@.has_issue(newsletter_issue_id));
                    assert forall|i: int| 0 <= i < tasks.len() implies !store@.has_task(
                        #[trigger] tasks[i],
                    ) && !transaction@.has_task(tasks[i]) by {
                        if before.has_task(tasks[i]) {
                            let at = choose|at: int|
                                0 <= at < before.issue_delivery_queue.len()
                                    && #[trigger] before.issue_delivery_queue[at].task == tasks[i];
                            assert(before.has_issue(
                                before.issue_delivery_queue[at].task.newsletter_issue_id,
                            ));
                        }
                    }
                }
                let enqueued = enqueue_delivery_tasks(store, &mut transaction, *drawn, subscriptions);
                proof {
                    if enqueued is Ok {
                        assert(transaction@.tasks =~= tasks);
                    }
                }
                held = Some(transaction);
                match enqueued {
                    Ok(()) => PublishEvent::Enqueued(Ok(())),
                    Err(error) => PublishEvent::Enqueued(Err(PublishError::Store(error))),
                }
            },
            PublishAction::SaveResponse { idempotency_key, response } => {
                let transaction = held.unwrap();
                held = None;
                proof {
                    assert(transaction@.issues[0].newsletter_issue_id == newsletter_issue_id);
                    assert forall|i: int|
                        0 <= i < transaction@.tasks.len() implies transaction@.has_issue(
                        (#[trigger] transaction@.tasks[i]).newsletter_issue_id,
                    ) by {}
                    assert forall|i: int| 0 <= i < tasks.len() implies !store@.has_task(
                        #[trigger] tasks[i],
                    ) by {
                        if before.has_task(tasks[i]) {
                            let at = choose|at: int|
                                0 <= at < before.issue_delivery_queue.len()
                                    && #[trigger] before.issue_delivery_queue[at].task == tasks[i];
                            assert(before.has_issue(
                                before.issue_delivery_queue[at].task.newsletter_issue_id,
                            ));
                        }
                    }
                    assert(store@.commit_error(transaction@) is None);
                }
                let saved = save_response(
                    store,
                    transaction,
                    idempotency_key,
                    user_id,
                    response.clone(),
                );
                proof {
                    let after = store_after_publish(
                        before,
                        form_view,
                        user_id,
                        listed,
                        newsletter_issue_id,
                        now,
                    );
                    assert(store@.open_submissions =~= after.open_submissions);
                    assert(store@.newsletter_issues =~= after.newsletter_issues);
                    assert(store@.idempotency =~= after.idempotency);
                }
                match saved {
                    Ok(_) => PublishEvent::Saved(Ok(())),
                    Err(error) => PublishEvent::Saved(Err(PublishError::Store(error))),
                }
            },
            _ => {
                break ;
            },
        };
        action = next_publish_action(action, event);
    }
    match action {
        PublishAction::Respond { response } => Ok(response),
        PublishAction::Reject { error } => {
            match held {
                Some(transaction) => {
                    proof {
                        assert(before.with_open(id).without_open(id).open_submissions
                            =~= before.open_submissions);
                    }
                    store.rollback_publication(transaction);
                },
                None => {},
            }
            match error {
                PublishRefusal::InvalidKey(error) => Err(PublishError::InvalidKey(error)),
                PublishRefusal::Failed(error) => Err(error),
                // The steps are taken in their order.
                PublishRefusal::OutOfTurn => unreached(),
            }
        },
        // The steps end with an answer or with a refusal.
        _ => unreached(),
    }
}

/// Publishes an issue under a fresh random identifier, once. Whatever
/// identifier was drawn, the outcome is that of
/// [`publish_newsletter_with_id`] for it.
pub fn publish_newsletter(
    store: &mut Store,
    form: NewsletterFormData,
    user_id: u128,
    subscriptions: &Vec<Subscription>,
    now: u64,
) -> (result: Result<Response, PublishError>)
    requires
        old(store).wf(),
    ensures
        final(store).wf(),
        exists|newsletter_issue_id: u128|
            {
                &&& is_publish_result(
                    result,
                    #[trigger] publish_outcome(
                        old(store)@,
                        form@,
                        user_id,
                        subscriptions.deep_view(),
                        newsletter_issue_id,
                        now,
                    ),
                )
                &&& final(store)@ == store_after_publish(
                    old(store)@,
                    form@,
                    user_id,
                    subscriptions.deep_view(),
                    newsletter_issue_id,
                    now,
                )
            },
{
    let newsletter_issue_id = new_issue_id();
    publish_newsletter_with_id(store, form, user_id, subscriptions, newsletter_issue_id, now)
}

/// The transport refused the delivery to one of the confirmed subscribers.
#[derive(Debug, PartialEq, Eq, Clone, Copy, Structural)]
pub struct DeliveryFailed {
    /// Position of the subscriber among the confirmed ones.
    pub at: usize,
}

/// The request that sends an issue, given by its title and its two bodies,
/// to one recipient.
pub open spec fn direct_request(
    recipient: Seq<char>,
    title: Seq<char>,
    html_content: Seq<char>,
    text_content: Seq<char>,
) -> EmailRequestView {
    EmailRequestView { recipient, subject: title, html_content, text_content }
}

/// What the sender is asked, and answers, while an issue is delivered to
/// every one of the given addresses: one request for each address that can
/// be used, in their order, each answered with a delivery.
pub open spec fn deliveries(
    emails: Seq<Seq<char>>,
    title: Seq<char>,
    html_content: Seq<char>,
    text_content: Seq<char>,
) -> Seq<Answered>
    decreases emails.len(),
{
    if emails.len() == 0 {
        Seq::empty()
    } else {
        let earlier = deliveries(emails.drop_last(), title, html_content, text_content);
        if is_valid_email(emails.last()) {
            earlier.push(
                Answered {
                    request: direct_request(emails.last(), title, html_content, text_content),
                    delivered: true,
                },
            )
        } else {
            earlier
        }
    }
}

/// Sends an issue at once, without the delivery queue, to every confirmed
/// subscriber in turn: the sender is asked once for each, with the title
/// as the subject. A stored address that cannot be used is skipped. The
/// first delivery that the sender refuses ends the publication with an
/// error; the sender is asked nothing for the subscribers behind it.
pub fn pubish_newsletter<S: EmailSender>(
    subscriptions: &Vec<Subscription>,
    title: &str,
    html_content: &str,
    text_content: &str,
    email_client: &mut S,
) -> (result: Result<Response, DeliveryFailed>)
    ensures
        ({
            let emails = confirmed_emails(subscriptions.deep_view());
            match result {
                Ok(response) => {
                    &&& response@ == (ResponseView {
                        status_code: 200,
                        headers: Seq::empty(),
                        body: Seq::empty(),
                    })
                    &&& final(email_client).asked() == old(email_client).asked() + deliveries(
                        emails,
                        title@,
                        html_content@,
                        text_content@,
                    )
                },
                Err(failure) => {
                    &&& failure.at < emails.len()
                    &&& is_valid_email(emails[failure.at as int])
                    &&& final(email_client).asked() == (old(email_client).asked() + deliveries(
                        emails.subrange(0, failure.at as int),
                        title@,
                        html_content@,
                        text_content@,
                    )).push(
                        Answered {
                            request: direct_request(
                                emails[failure.at as int],
                                title@,
                                html_content@,
                                text_content@,
                            ),
                            delivered: false,
                        },
                    )
                },
            }
        }),
{
    let subscribers = get_confirmed_subscribers(subscriptions);
    let ghost emails = confirmed_emails(subscriptions.deep_view());
    let ghost asked_before = email_client.asked();
    let mut at: usize = 0;
    proof {
        assert(emails.subrange(0, 0) =~= Seq::empty());
        assert(asked_before + deliveries(
            emails.subrange(0, 0),
            title@,
            html_content@,
            text_content@,
        ) =~= asked_before);
    }
    while at < subscribers.len()
        invariant
            at <= subscribers.len(),
            subscribers.deep_view() == emails,
            emails == confirmed_emails(subscriptions.deep_view()),
            asked_before == old(email_client).asked(),
            email_client.asked() == asked_before + deliveries(
                emails.subrange(0, at as int),
                title@,
                html_content@,
                text_content@,
            ),
        decreases subscribers.len() - at,
    {
        let ghost seen = emails.subrange(0, at + 1);
        proof {
            assert(seen.drop_last() =~= emails.subrange(0, at as int));
            assert(seen.last() == emails[at as int]);
            assert(subscribers.deep_view()[at as int] == subscribers[at as int]@);
        }
        match SubscriberEmail::parse(subscribers[at].clone()) {
            Ok(subscriber) => {
                match email_client.send_email(&subscriber, title, html_content, text_content) {
                    Ok(()) => {
                        proof {
                            let earlier = deliveries(
                                emails.subrange(0, at as int),
                                title@,
                                html_content@,
                                text_content@,
                            );
                            let last = Answered {
                                request: direct_request(
                                    emails[at as int],
                                    title@,
                                    html_content@,
                                    text_content@,
                                ),
                                delivered: true,
                            };
                            assert((asked_before + earlier).push(last) =~= asked_before
                                + earlier.push(last));
                        }
                    },
                    Err(_) => {
                        return Err(DeliveryFailed { at });
                    },
                }
            },
            Err(_) => {},
        }
        at += 1;
    }
    proof {
        assert(emails.subrange(0, subscribers.len() as int) =~= emails);
    }
    let headers: Vec<crate::idempotency::persistence::HeaderPairRecord> = Vec::new();
    let body: Vec<u8> = Vec::new();
    assert(headers.deep_view() =~= Seq::empty());
    Ok(Response::new(200, headers, body).unwrap())
}

} // verus!
