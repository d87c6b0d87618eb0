//! What is kept of a response so that it can be replayed, and the decisions
//! taken around the idempotency table.
//!
//! Whether a submission executes or replays is decided step by step in
//! [`next_processing_action`]; [`try_processing`] takes those steps on the
//! in-memory store.

use crate::idempotency::key::IdempotencyKey;
use crate::store::{
    submission, PublishTransaction, PublishTransactionView, Store, StoreError, StoreView,
    SubmissionId,
};
use vstd::prelude::*;

verus! {

/// One response header as it is stored: its name and its raw value.
#[derive(Debug, PartialEq, Eq)]
pub struct HeaderPairRecord {
    pub name: String,
    pub value: Vec<u8>,
}

/// Mathematical content of a [`HeaderPairRecord`].
pub struct HeaderPairView {
    pub name: Seq<char>,
    pub value: Seq<u8>,
}

impl View for HeaderPairRecord {
    type V = HeaderPairView;

    open spec fn view(&self) -> HeaderPairView {
        HeaderPairView { name: self.name@, value: self.value@ }
    }
}

impl DeepView for HeaderPairRecord {
    type V = HeaderPairView;

    open spec fn deep_view(&self) -> HeaderPairView {
        self@
    }
}

impl Clone for HeaderPairRecord {
    fn clone(&self) -> (copy: HeaderPairRecord)
        ensures
            copy@ == self@,
    {
        HeaderPairRecord { name: self.name.clone(), value: clone_bytes(&self.value) }
    }
}

/// Copies a byte string.
pub fn clone_bytes(bytes: &Vec<u8>) -> (copy: Vec<u8>)
    ensures
        copy@ == bytes@,
{
    let mut copy: Vec<u8> = Vec::new();
    let mut i: usize = 0;
    while i < bytes.len()
        invariant
            i <= bytes.len(),
            copy@ == bytes@.subrange(0, i as int),
        decreases bytes.len() - i,
    {
        copy.push(bytes[i]);
        i += 1;
    }
    assert(bytes@.subrange(0, bytes.len() as int) == bytes@);
    copy
}

/// Copies a list of headers, keeping their order.
pub fn clone_headers(headers: &Vec<HeaderPairRecord>) -> (copy: Vec<HeaderPairRecord>)
    ensures
        copy.deep_view() == headers.deep_view(),
{
    let mut copy: Vec<HeaderPairRecord> = Vec::new();
    let mut i: usize = 0;
    while i < headers.len()
        invariant
            i <= headers.len(),
            copy.len() == i,
            forall|j: int| 0 <= j < i ==> copy[j]@ == headers[j]@,
        decreases headers.len() - i,
    {
        copy.push(headers[i].clone());
        i += 1;
    }
    assert(copy.deep_view() =~= headers.deep_view());
    copy
}

/// Whether `code` is a status code that HTTP admits: three decimal digits,
/// the first of them not zero.
pub open spec fn is_status_code(code: int) -> bool {
    100 <= code < 1000
}

/// Asks `StatusCode::from_u16`, as actix-web exposes it, whether it accepts
/// `code`. It accepts the codes from 100 to 999 and refuses every other.
#[verifier::external_body]
fn status_code_is_valid(code: u16) -> (valid: bool)
    ensures
        valid == is_status_code(code as int),
{
    actix_web::http::StatusCode::from_u16(code).is_ok()
}

/// The status code handed over is not one that HTTP admits.
#[derive(Debug, PartialEq, Eq, Clone, Copy, Structural)]
pub struct InvalidStatusCode;

/// A complete HTTP response as plain values: its status code, its headers in
/// order, and its body.
#[derive(Debug, PartialEq, Eq)]
pub struct Response {
    status_code: u16,
    headers: Vec<HeaderPairRecord>,
    body: Vec<u8>,
}

/// Mathematical content of a [`Response`].
pub struct ResponseView {
    pub status_code: u16,
    pub headers: Seq<HeaderPairView>,
    pub body: Seq<u8>,
}

impl ResponseView {
    /// A response carries a status code that HTTP admits.
    pub open spec fn wf(self) -> bool {
        is_status_code(self.status_code as int)
    }
}

impl View for Response {
    type V = ResponseView;

    closed spec fn view(&self) -> ResponseView {
        ResponseView {
            status_code: self.status_code,
            headers: self.headers.deep_view(),
            body: self.body@,
        }
    }
}

impl Clone for Response {
    fn clone(&self) -> (copy: Response)
        ensures
            copy@ == self@,
    {
        proof {
            use_type_invariant(self);
        }
        Response {
            status_code: self.status_code,
            headers: clone_headers(&self.headers),
            body: clone_bytes(&self.body),
        }
    }
}

impl Response {
    #[verifier::type_invariant]
    closed spec fn valid(self) -> bool {
        is_status_code(self.status_code as int)
    }

    /// Builds a response, provided that `status_code` is one that HTTP admits.
    pub fn new(status_code: u16, headers: Vec<HeaderPairRecord>, body: Vec<u8>) -> (result: Result<
        Response,
        InvalidStatusCode,
    >)
        ensures
            is_status_code(status_code as int) <==> result is Ok,
            result matches Ok(response) ==> response@ == (ResponseView {
                status_code,
                headers: headers.deep_view(),
                body: body@,
            }),
    {
        if status_code_is_valid(status_code) {
            Ok(Response { status_code, headers, body })
        } else {
            Err(InvalidStatusCode)
        }
    }

    /// The status code, which is always one that HTTP admits.
    pub fn status_code(&self) -> (code: u16)
        ensures
            code == self@.status_code,
            self@.wf(),
    {
        proof {
            use_type_invariant(self);
        }
        self.status_code
    }

    /// The headers, in the order in which they were appended.
    pub fn headers(&self) -> (headers: &Vec<HeaderPairRecord>)
        ensures
            headers.deep_view() == self@.headers,
    {
        &self.headers
    }

    /// The bytes of the body.
    pub fn body(&self) -> (body: &Vec<u8>)
        ensures
            body@ == self@.body,
    {
        &self.body
    }
}

/// What can go wrong around the idempotency table.
#[derive(Debug, PartialEq, Eq, Clone, Copy, Structural)]
pub enum IdempotencyError {
    /// A record exists for the submission, but some of its response fields
    /// are still null. This breaks an internal invariant and is never taken
    /// for a submission that is still being processed.
    ResponseNotSaved,
    /// The stored status code is negative.
    StatusCodeOutOfRange,
    /// The stored status code is not one that HTTP admits.
    InvalidStatusCode,
    /// A saved response was expected but no record was found.
    SavedResponseNotFound,
    /// Another submission with the same caller and key is still open. A
    /// durable store makes the caller wait at this point; the in-memory store
    /// cannot suspend its caller and reports this instead, changing nothing.
    WouldBlock,
}

/// The response columns of one row of the idempotency table. Each of them is
/// nullable.
#[derive(Debug, PartialEq, Eq)]
pub struct SavedResponseRecord {
    pub response_status_code: Option<i16>,
    pub response_headers: Option<Vec<HeaderPairRecord>>,
    pub response_body: Option<Vec<u8>>,
}

/// Mathematical content of a [`SavedResponseRecord`].
pub struct SavedResponseRecordView {
    pub response_status_code: Option<i16>,
    pub response_headers: Option<Seq<HeaderPairView>>,
    pub response_body: Option<Seq<u8>>,
}

impl SavedResponseRecordView {
    /// No response has been captured yet.
    pub open spec fn is_empty(self) -> bool {
        &&& self.response_status_code is None
        &&& self.response_headers is None
        &&& self.response_body is None
    }

    /// A response has been captured in full.
    pub open spec fn is_complete(self) -> bool {
        &&& self.response_status_code is Some
        &&& self.response_headers is Some
        &&& self.response_body is Some
    }

    /// The response fields are null together or populated together.
    pub open spec fn wf(self) -> bool {
        self.is_empty() || self.is_complete()
    }

    /// The record in which nothing has been captured.
    pub open spec fn empty() -> SavedResponseRecordView {
        SavedResponseRecordView {
            response_status_code: None,
            response_headers: None,
            response_body: None,
        }
    }
}

impl View for SavedResponseRecord {
    type V = SavedResponseRecordView;

    open spec fn view(&self) -> SavedResponseRecordView {
        SavedResponseRecordView {
            response_status_code: self.response_status_code,
            response_headers: match self.response_headers {
                Some(headers) => Some(headers.deep_view()),
                None => None,
            },
            response_body: match self.response_body {
                Some(body) => Some(body@),
                None => None,
            },
        }
    }
}

impl Clone for SavedResponseRecord {
    fn clone(&self) -> (copy: SavedResponseRecord)
        ensures
            copy@ == self@,
    {
        SavedResponseRecord {
            response_status_code: self.response_status_code,
            response_headers: match &self.response_headers {
                Some(headers) => Some(clone_headers(headers)),
                None => None,
            },
            response_body: match &self.response_body {
                Some(body) => Some(clone_bytes(body)),
                None => None,
            },
        }
    }
}

impl SavedResponseRecord {
    /// The record in which nothing has been captured.
    pub fn empty() -> (record: SavedResponseRecord)
        ensures
            record@ == SavedResponseRecordView::empty(),
    {
        SavedResponseRecord {
            response_status_code: None,
            response_headers: None,
            response_body: None,
        }
    }
}

/// The response that a record replays, or the reason why it replays none.
pub open spec fn decode(record: SavedResponseRecordView) -> Result<ResponseView, IdempotencyError> {
    if !record.is_complete() {
        Err(IdempotencyError::ResponseNotSaved)
    } else if record.response_status_code->0 < 0 {
        Err(IdempotencyError::StatusCodeOutOfRange)
    } else if !is_status_code(record.response_status_code->0 as int) {
        Err(IdempotencyError::InvalidStatusCode)
    } else {
        Ok(
            ResponseView {
                status_code: record.response_status_code->0 as u16,
                headers: record.response_headers->0,
                body: record.response_body->0,
            },
        )
    }
}

/// The record that captures a response.
pub open spec fn encode(response: ResponseView) -> SavedResponseRecordView {
    SavedResponseRecordView {
        response_status_code: Some(response.status_code as i16),
        response_headers: Some(response.headers),
        response_body: Some(response.body),
    }
}

/// Whether an executable result stands for the given mathematical one.
pub open spec fn is_response_result(
    result: Result<Response, IdempotencyError>,
    expected: Result<ResponseView, IdempotencyError>,
) -> bool {
    match result {
        Ok(response) => expected == Ok::<ResponseView, IdempotencyError>(response@),
        Err(error) => expected == Err::<ResponseView, IdempotencyError>(error),
    }
}

/// Rebuilds the response that a record holds. Fails when a field is null,
/// when the status code is negative, or when it is not a status code.
pub fn saved_response(record: SavedResponseRecord) -> (result: Result<Response, IdempotencyError>)
    ensures
        is_response_result(result, decode(record@)),
{
    let SavedResponseRecord { response_status_code, response_headers, response_body } = record;
    match (response_status_code, response_headers, response_body) {
        (Some(status_code), Some(headers), Some(body)) => {
            if status_code < 0 {
                Err(IdempotencyError::StatusCodeOutOfRange)
            } else {
                match Response::new(status_code as u16, headers, body) {
                    Ok(response) => Ok(response),
                    Err(_) => Err(IdempotencyError::InvalidStatusCode),
                }
            }
        },
        _ => Err(IdempotencyError::ResponseNotSaved),
    }
}

/// Captures a response as the three fields of a record.
pub fn response_record(response: &Response) -> (record: SavedResponseRecord)
    ensures
        record@ == encode(response@),
        response@.wf(),
{
    let status_code: u16 = response.status_code();
    SavedResponseRecord {
        response_status_code: Some(status_code as i16),
        response_headers: Some(clone_headers(response.headers())),
        response_body: Some(clone_bytes(response.body())),
    }
}

/// A captured response is replayed unchanged: status code, headers in their
/// order, and body.
pub proof fn lemma_replay_is_verbatim(response: ResponseView)
    requires
        response.wf(),
    ensures
        decode(encode(response)) == Ok::<ResponseView, IdempotencyError>(response),
        encode(response).is_complete(),
{
}

/// What a submission has to do next.
pub enum NextAction {
    /// The submission is the first with its caller and key. It executes
    /// inside the transaction and finishes with [`save_response`].
    StartProcessing(PublishTransaction),
    /// An earlier submission has completed. Its response is replayed.
    ReturnSavedResponse(Response),
}

/// Mathematical content of a [`NextAction`].
pub enum NextActionView {
    StartProcessing(PublishTransactionView),
    ReturnSavedResponse(ResponseView),
}

impl View for NextAction {
    type V = NextActionView;

    open spec fn view(&self) -> NextActionView {
        match self {
            NextAction::StartProcessing(transaction) => NextActionView::StartProcessing(
                transaction@,
            ),
            NextAction::ReturnSavedResponse(response) => NextActionView::ReturnSavedResponse(
                response@,
            ),
        }
    }
}

impl StoreView {
    /// The response saved for a submission: none where the submission has no
    /// committed record, an error where its record cannot be replayed.
    pub open spec fn saved_response(self, id: SubmissionId) -> Result<
        Option<ResponseView>,
        IdempotencyError,
    > {
        if !self.idempotency.dom().contains(id) {
            Ok(None)
        } else {
            match decode(self.idempotency[id].response) {
                Ok(response) => Ok(Some(response)),
                Err(error) => Err(error),
            }
        }
    }

    /// What a submission has to do next, if it arrives at `now`.
    pub open spec fn next_action(self, id: SubmissionId, now: u64) -> Result<
        NextActionView,
        IdempotencyError,
    > {
        if self.open_submissions.contains(id) {
            Err(IdempotencyError::WouldBlock)
        } else if self.idempotency.dom().contains(id) {
            match decode(self.idempotency[id].response) {
                Ok(response) => Ok(NextActionView::ReturnSavedResponse(response)),
                Err(error) => Err(error),
            }
        } else {
            Ok(NextActionView::StartProcessing(PublishTransactionView::begun(id, now)))
        }
    }

    /// Whether a submission that arrives now is the first with its identity.
    pub open spec fn is_first(self, id: SubmissionId) -> bool {
        !self.open_submissions.contains(id) && !self.idempotency.dom().contains(id)
    }

    /// The tables after a submission has asked what to do next: the first
    /// submission holds the lock of its identity, any other changes nothing.
    pub open spec fn after_try_processing(self, id: SubmissionId) -> StoreView {
        if self.is_first(id) {
            self.with_open(id)
        } else {
            self
        }
    }
}

/// Reads back the response saved for a submission. There is none where the
/// submission has no committed record; a record that cannot be replayed is
/// an error.
pub fn get_saved_response(store: &Store, idempotency_key: &IdempotencyKey, user_id: u128) -> (result:
    Result<Option<Response>, IdempotencyError>)
    requires
        store.wf(),
    ensures
        match result {
            Ok(Some(response)) => store@.saved_response(submission(user_id, idempotency_key@))
                == Ok::<_, IdempotencyError>(Some(response@)),
            Ok(None) => store@.saved_response(submission(user_id, idempotency_key@)) == Ok::<
                Option<ResponseView>,
                IdempotencyError,
            >(None),
            Err(error) => store@.saved_response(submission(user_id, idempotency_key@)) == Err::<
                Option<ResponseView>,
                _,
            >(error),
        },
{
    match store.fetch_saved_response(user_id, idempotency_key.as_string()) {
        Some(record) => match saved_response(record) {
            Ok(response) => Ok(Some(response)),
            Err(error) => Err(error),
        },
        None => Ok(None),
    }
}

/// Completes a submission: captures `response` in the record of the
/// submission named by `user_id` and `idempotency_key`, commits the
/// transaction, and hands the response back. Where the commit is refused
/// nothing of the transaction becomes visible.
pub fn save_response(
    store: &mut Store,
    transaction: PublishTransaction,
    idempotency_key: &IdempotencyKey,
    user_id: u128,
    response: Response,
) -> (result: Result<Response, StoreError>)
    requires
        old(store).wf(),
        transaction.wf(),
    ensures
        final(store).wf(),
        match old(store)@.commit_error(transaction@) {
            Some(error) => result == Err::<Response, _>(error) && final(store)@ == old(
                store,
            )@.without_open(transaction@.id),
            None => result == Ok::<_, StoreError>(response) && final(store)@ == old(
                store,
            )@.committed(transaction@, submission(user_id, idempotency_key@), response@),
        },
{
    match store.commit_publication(transaction, user_id, idempotency_key.as_string(), &response) {
        Ok(()) => Ok(response),
        Err(error) => Err(error),
    }
}

/// Whether an insert that skips conflicting rows has added the row of the
/// submission, which makes the submission the first with its caller and key.
pub fn is_first_submission(inserted_rows: u64) -> (first: bool)
    ensures
        first == (inserted_rows > 0),
{
    inserted_rows > 0
}

/// Insists on the response of a submission that is not the first: that
/// none was read back is an error.
pub fn expect_saved_response(saved_response: Option<Response>) -> (result: Result<
    Response,
    IdempotencyError,
>)
    ensures
        result == match saved_response {
            Some(response) => Ok::<Response, IdempotencyError>(response),
            None => Err::<Response, _>(IdempotencyError::SavedResponseNotFound),
        },
{
    match saved_response {
        Some(response) => Ok(response),
        None => Err(IdempotencyError::SavedResponseNotFound),
    }
}

/// Why a submission could not be told what to do.
#[derive(Debug, PartialEq, Eq)]
pub enum ProcessingError<E> {
    /// What was asked of the store failed.
    Failed(E),
    /// The record of the submission cannot be replayed, or is missing.
    Idempotency(IdempotencyError),
    /// An answer came that does not belong to the step that was taken.
    OutOfTurn,
}

/// The step that comes next while a submission is told what to do. Whoever
/// runs the steps takes the step and hands back what came of it as a
/// [`ProcessingEvent`].
#[derive(Debug, PartialEq, Eq)]
pub enum ProcessingAction<E> {
    /// Open a transaction and, in it, insert the row of the submission
    /// unless one exists.
    InsertRow,
    /// Read back the response fields of the committed row.
    ReadBack,
    /// The submission is the first: it executes in the open transaction.
    Start,
    /// An earlier submission has completed: replay its response.
    Return { response: Response },
    /// Nothing can be decided.
    Fail { error: ProcessingError<E> },
}

/// What came of a step.
#[derive(Debug, PartialEq, Eq)]
pub enum ProcessingEvent<E> {
    /// The number of rows that the insert added.
    RowInserted(Result<u64, E>),
    /// The response fields that were read back, or nothing where there is
    /// no row.
    ReadBack(Result<Option<SavedResponseRecord>, E>),
}

/// Whether `next` is the step that follows `action` once `event` has come
/// of it.
/// - An insert that added a row makes the submission the first: it starts.
/// - An insert that added none sends to the read-back.
/// - A row read back is replayed if it holds a response in full; that it
///   holds none, or none that can be replayed, is an error, and so is that
///   no row was found.
/// - Where the store fails nothing is decided, and so it is where an event
///   does not belong to the step.
pub open spec fn is_next_processing_step<E>(
    action: ProcessingAction<E>,
    event: ProcessingEvent<E>,
    next: ProcessingAction<E>,
) -> bool {
    match (action, event) {
        (ProcessingAction::InsertRow, ProcessingEvent::RowInserted(Ok(inserted_rows))) => next
            == (if inserted_rows > 0 {
            ProcessingAction::<E>::Start
        } else {
            ProcessingAction::<E>::ReadBack
        }),
        (ProcessingAction::InsertRow, ProcessingEvent::RowInserted(Err(error))) => next
            == ProcessingAction::Fail { error: ProcessingError::Failed(error) },
        (ProcessingAction::ReadBack, ProcessingEvent::ReadBack(Ok(None))) => next
            == ProcessingAction::<E>::Fail {
            error: ProcessingError::Idempotency(IdempotencyError::SavedResponseNotFound),
        },
        (ProcessingAction::ReadBack, ProcessingEvent::ReadBack(Ok(Some(record)))) => match decode(
            record@,
        ) {
            Ok(saved) => next matches ProcessingAction::Return { response } && response@ == saved,
            Err(error) => next == ProcessingAction::<E>::Fail {
                error: ProcessingError::Idempotency(error),
            },
        },
        (ProcessingAction::ReadBack, ProcessingEvent::ReadBack(Err(error))) => next
            == ProcessingAction::Fail { error: ProcessingError::Failed(error) },
        _ => next == ProcessingAction::<E>::Fail { error: ProcessingError::OutOfTurn },
    }
}

/// Decides the next step from the step that was taken and from what came
/// of it.
pub fn next_processing_action<E>(action: ProcessingAction<E>, event: ProcessingEvent<E>) -> (next:
    ProcessingAction<E>)
    ensures
        is_next_processing_step(action, event, next),
{
    match (action, event) {
        (ProcessingAction::InsertRow, ProcessingEvent::RowInserted(Ok(inserted_rows))) => {
            if is_first_submission(inserted_rows) {
                ProcessingAction::Start
            } else {
                ProcessingAction::ReadBack
            }
        },
        (ProcessingAction::InsertRow, ProcessingEvent::RowInserted(Err(error))) => {
            ProcessingAction::Fail { error: ProcessingError::Failed(error) }
        },
        (ProcessingAction::ReadBack, ProcessingEvent::ReadBack(Ok(found))) => {
            let replayed = match found {
                Some(record) => match saved_response(record) {
                    Ok(response) => Ok(Some(response)),
                    Err(error) => Err(error),
                },
                None => Ok(None),
            };
            let expected = match replayed {
                Ok(saved) => expect_saved_response(saved),
                Err(error) => Err(error),
            };
            match expected {
                Ok(response) => ProcessingAction::Return { response },
                Err(error) => ProcessingAction::Fail { error: ProcessingError::Idempotency(error) },
            }
        },
        (ProcessingAction::ReadBack, ProcessingEvent::ReadBack(Err(error))) => {
            ProcessingAction::Fail { error: ProcessingError::Failed(error) }
        },
        _ => ProcessingAction::Fail { error: ProcessingError::OutOfTurn },
    }
}

/// How many steps are left at most.
pub open spec fn processing_steps_left<E>(action: ProcessingAction<E>) -> nat {
    match action {
        ProcessingAction::InsertRow => 2,
        ProcessingAction::ReadBack => 1,
        _ => 0,
    }
}

/// What holds between the steps that run on the store: what the step about
/// to be taken says of the store and of the answer that is owed.
pub open spec fn processing_invariant(
    action: ProcessingAction<IdempotencyError>,
    store: StoreView,
    before: StoreView,
    id: SubmissionId,
    now: u64,
) -> bool {
    match action {
        ProcessingAction::InsertRow => store == before,
        ProcessingAction::ReadBack => {
            &&& store == before
            &&& !before.open_submissions.contains(id)
            &&& before.idempotency.dom().contains(id)
        },
        ProcessingAction::Start => before.is_first(id) && store == before.with_open(id),
        ProcessingAction::Return { response } => {
            &&& store == before
            &&& before.next_action(id, now) == Ok::<_, IdempotencyError>(
                NextActionView::ReturnSavedResponse(response@),
            )
        },
        ProcessingAction::Fail { error: ProcessingError::Failed(error) } => {
            &&& store == before
            &&& before.next_action(id, now) == Err::<NextActionView, _>(error)
        },
        ProcessingAction::Fail { error: ProcessingError::Idempotency(error) } => {
            &&& store == before
            &&& before.next_action(id, now) == Err::<NextActionView, _>(error)
        },
        ProcessingAction::Fail { error: ProcessingError::OutOfTurn } => false,
    }
}

/// Decides whether a submission executes or replays. The first submission
/// with its caller and key gets the transaction in which it executes. A
/// later one gets the saved response of the first. While the first is
/// still open, a later one would have to wait.
pub fn try_processing(
    store: &mut Store,
    idempotency_key: &IdempotencyKey,
    user_id: u128,
    now: u64,
) -> (result: Result<NextAction, IdempotencyError>)
    requires
        old(store).wf(),
    ensures
        final(store).wf(),
        final(store)@ == old(store)@.after_try_processing(submission(user_id, idempotency_key@)),
        match result {
            Ok(action) => old(store)@.next_action(submission(user_id, idempotency_key@), now)
                == Ok::<_, IdempotencyError>(action@),
            Err(error) => old(store)@.next_action(submission(user_id, idempotency_key@), now)
                == Err::<NextActionView, _>(error),
        },
{
    let ghost before = store@;
    let ghost id = submission(user_id, idempotency_key@);
    let mut action: ProcessingAction<IdempotencyError> = ProcessingAction::InsertRow;
    loop
        invariant
            store.wf(),
            before == old(store)@,
            id == submission(user_id, idempotency_key@),
            processing_invariant(action, store@, before, id, now),
        ensures
            !(action is InsertRow) && !(action is ReadBack),
        decreases processing_steps_left(action),
    {
        let event = match &action {
            ProcessingAction::InsertRow => ProcessingEvent::RowInserted(
                store.insert_idempotency_row(user_id, idempotency_key.as_string()),
            ),
            ProcessingAction::ReadBack => ProcessingEvent::ReadBack(
                Ok(store.fetch_saved_response(user_id, idempotency_key.as_string())),
            ),
            _ => {
                break ;
            },
        };
        action = next_processing_action(action, event);
    }
    match action {
        ProcessingAction::Start => Ok(
            NextAction::StartProcessing(
                PublishTransaction::new(user_id, idempotency_key.as_string().clone(), now),
            ),
        ),
        ProcessingAction::Return { response } => Ok(NextAction::ReturnSavedResponse(response)),
        ProcessingAction::Fail { error: ProcessingError::Failed(error) } => Err(error),
        ProcessingAction::Fail { error: ProcessingError::Idempotency(error) } => Err(error),
        // The steps are taken in their order.
        _ => unreached(),
    }
}

} // verus!
