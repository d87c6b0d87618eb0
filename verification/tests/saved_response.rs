use libnewsletter::idempotency::key::IdempotencyKey;
use libnewsletter::idempotency::persistence::{
    expect_saved_response, get_saved_response, is_first_submission, next_processing_action,
    response_record, save_response, saved_response, try_processing, HeaderPairRecord,
    IdempotencyError, InvalidStatusCode, NextAction, ProcessingAction, ProcessingError,
    ProcessingEvent, Response, SavedResponseRecord,
};
use libnewsletter::store::{Store, StoreError};
use libnewsletter::utils::see_other;

fn header(name: &str, value: &[u8]) -> HeaderPairRecord {
    HeaderPairRecord {
        name: name.to_string(),
        value: value.to_vec(),
    }
}

fn key(text: &str) -> IdempotencyKey {
    IdempotencyKey::try_from(text.to_string()).unwrap()
}

fn start(store: &mut Store, text: &str, user_id: u128) -> libnewsletter::store::PublishTransaction {
    match try_processing(store, &key(text), user_id, 7).unwrap() {
        NextAction::StartProcessing(transaction) => transaction,
        NextAction::ReturnSavedResponse(_) => panic!("expected a first submission"),
    }
}

#[test]
fn a_response_needs_a_status_code_of_three_digits() {
    assert_eq!(Response::new(99, vec![], vec![]), Err(InvalidStatusCode));
    assert_eq!(Response::new(1000, vec![], vec![]), Err(InvalidStatusCode));
    assert_eq!(Response::new(0, vec![], vec![]), Err(InvalidStatusCode));
    assert_eq!(Response::new(u16::MAX, vec![], vec![]), Err(InvalidStatusCode));
    assert!(Response::new(100, vec![], vec![]).is_ok());
    assert!(Response::new(999, vec![], vec![]).is_ok());
}

#[test]
fn a_response_gives_back_what_it_was_built_from() {
    let response = Response::new(
        200,
        vec![header("content-type", b"text/html"), header("x-raw", &[0xff, 0x00])],
        b"hello".to_vec(),
    )
    .unwrap();
    assert_eq!(response.status_code(), 200);
    assert_eq!(
        response.headers(),
        &vec![header("content-type", b"text/html"), header("x-raw", &[0xff, 0x00])]
    );
    assert_eq!(response.body(), &b"hello".to_vec());
    assert_eq!(response.clone(), response);
}

#[test]
fn see_other_redirects_with_a_location_header() {
    let response = see_other("/admin/newsletters");
    assert_eq!(response.status_code(), 303);
    assert_eq!(response.headers(), &vec![header("location", b"/admin/newsletters")]);
    assert!(response.body().is_empty());
}

#[test]
fn a_record_captures_status_headers_and_body() {
    let response = Response::new(303, vec![header("location", b"/login")], b"bye".to_vec()).unwrap();
    let record = response_record(&response);
    assert_eq!(
        record,
        SavedResponseRecord {
            response_status_code: Some(303),
            response_headers: Some(vec![header("location", b"/login")]),
            response_body: Some(b"bye".to_vec()),
        }
    );
}

#[test]
fn a_captured_response_is_replayed_verbatim() {
    let response = Response::new(
        418,
        vec![header("b", b"2"), header("a", b"1"), header("b", b"3")],
        vec![0, 159, 146, 150],
    )
    .unwrap();
    assert_eq!(saved_response(response_record(&response)), Ok(response));
}

#[test]
fn a_record_with_a_null_field_is_not_replayed() {
    assert_eq!(
        saved_response(SavedResponseRecord::empty()),
        Err(IdempotencyError::ResponseNotSaved)
    );
    assert_eq!(
        saved_response(SavedResponseRecord {
            response_status_code: Some(200),
            response_headers: None,
            response_body: Some(vec![]),
        }),
        Err(IdempotencyError::ResponseNotSaved)
    );
    assert_eq!(
        saved_response(SavedResponseRecord {
            response_status_code: None,
            response_headers: Some(vec![]),
            response_body: Some(vec![]),
        }),
        Err(IdempotencyError::ResponseNotSaved)
    );
    assert_eq!(
        saved_response(SavedResponseRecord {
            response_status_code: Some(200),
            response_headers: Some(vec![]),
            response_body: None,
        }),
        Err(IdempotencyError::ResponseNotSaved)
    );
}

#[test]
fn a_negative_status_code_is_out_of_range() {
    assert_eq!(
        saved_response(SavedResponseRecord {
            response_status_code: Some(-1),
            response_headers: Some(vec![]),
            response_body: Some(vec![]),
        }),
        Err(IdempotencyError::StatusCodeOutOfRange)
    );
}

#[test]
fn a_stored_status_code_must_be_a_status_code() {
    for code in [0, 99, 1000, i16::MAX] {
        assert_eq!(
            saved_response(SavedResponseRecord {
                response_status_code: Some(code),
                response_headers: Some(vec![]),
                response_body: Some(vec![]),
            }),
            Err(IdempotencyError::InvalidStatusCode)
        );
    }
}

#[test]
fn the_first_submission_starts_processing() {
    let mut store = Store::new();
    let action = try_processing(&mut store, &key("abc"), 1, 7).unwrap();
    assert!(matches!(action, NextAction::StartProcessing(_)));
    assert!(store.is_open(1, &"abc".to_string()));
    assert_eq!(get_saved_response(&store, &key("abc"), 1), Ok(None));
}

#[test]
fn a_completed_submission_is_replayed() {
    let mut store = Store::new();
    let transaction = start(&mut store, "abc", 1);
    let response = see_other("/admin/newsletters");
    let returned = save_response(&mut store, transaction, &key("abc"), 1, response.clone());
    assert_eq!(returned, Ok(response.clone()));
    assert!(!store.is_open(1, &"abc".to_string()));
    assert_eq!(
        get_saved_response(&store, &key("abc"), 1),
        Ok(Some(response.clone()))
    );
    match try_processing(&mut store, &key("abc"), 1, 8).unwrap() {
        NextAction::ReturnSavedResponse(saved) => assert_eq!(saved, response),
        NextAction::StartProcessing(_) => panic!("the submission was executed twice"),
    }
}

#[test]
fn a_second_submission_waits_while_the_first_is_open() {
    let mut store = Store::new();
    let transaction = start(&mut store, "abc", 1);
    assert!(matches!(
        try_processing(&mut store, &key("abc"), 1, 8),
        Err(IdempotencyError::WouldBlock)
    ));
    // Another caller, or another key, is not held up.
    assert!(matches!(
        try_processing(&mut store, &key("abc"), 2, 8),
        Ok(NextAction::StartProcessing(_))
    ));
    assert!(matches!(
        try_processing(&mut store, &key("abd"), 1, 8),
        Ok(NextAction::StartProcessing(_))
    ));
    store.rollback_publication(transaction);
    assert!(matches!(
        try_processing(&mut store, &key("abc"), 1, 9),
        Ok(NextAction::StartProcessing(_))
    ));
}

#[test]
fn an_abandoned_submission_leaves_no_record() {
    let mut store = Store::new();
    let transaction = start(&mut store, "abc", 1);
    store.rollback_publication(transaction);
    assert!(!store.is_open(1, &"abc".to_string()));
    assert_eq!(get_saved_response(&store, &key("abc"), 1), Ok(None));
}

#[test]
fn a_commit_without_its_own_response_breaks_the_replay() {
    let mut store = Store::new();
    let transaction = start(&mut store, "abc", 1);
    // The response is saved under another key: the record of "abc" is
    // committed with its response fields still null.
    let saved = save_response(&mut store, transaction, &key("other"), 1, see_other("/"));
    assert!(saved.is_ok());
    assert_eq!(
        get_saved_response(&store, &key("abc"), 1),
        Err(IdempotencyError::ResponseNotSaved)
    );
    assert!(matches!(
        try_processing(&mut store, &key("abc"), 1, 8),
        Err(IdempotencyError::ResponseNotSaved)
    ));
    assert_eq!(get_saved_response(&store, &key("other"), 1), Ok(None));
}

#[test]
fn saving_under_a_committed_key_overwrites_its_response() {
    let mut store = Store::new();
    let first = start(&mut store, "abc", 1);
    save_response(&mut store, first, &key("abc"), 1, see_other("/one")).unwrap();
    let second = start(&mut store, "abd", 1);
    save_response(&mut store, second, &key("abc"), 1, see_other("/two")).unwrap();
    assert_eq!(
        get_saved_response(&store, &key("abc"), 1),
        Ok(Some(see_other("/two")))
    );
    assert_eq!(
        get_saved_response(&store, &key("abd"), 1),
        Err(IdempotencyError::ResponseNotSaved)
    );
}

#[test]
fn a_transaction_of_another_store_cannot_commit_over_a_record() {
    let mut store = Store::new();
    let mut other = Store::new();
    let transaction = start(&mut store, "abc", 1);
    save_response(&mut store, transaction, &key("abc"), 1, see_other("/one")).unwrap();
    let stray = start(&mut other, "abc", 1);
    assert_eq!(
        save_response(&mut store, stray, &key("abc"), 1, see_other("/two")),
        Err(StoreError::DuplicateRecord)
    );
    assert_eq!(
        get_saved_response(&store, &key("abc"), 1),
        Ok(Some(see_other("/one")))
    );
}

#[test]
fn the_rows_inserted_tell_the_first_submission_from_a_repeated_one() {
    let mut store = Store::new();
    assert_eq!(store.insert_idempotency_row(1, &"abc".to_string()), Ok(1));
    assert_eq!(
        store.insert_idempotency_row(1, &"abc".to_string()),
        Err(IdempotencyError::WouldBlock)
    );
    let mut done = Store::new();
    let transaction = start(&mut done, "abc", 1);
    save_response(&mut done, transaction, &key("abc"), 1, see_other("/")).unwrap();
    assert_eq!(done.insert_idempotency_row(1, &"abc".to_string()), Ok(0));
    assert_eq!(
        done.fetch_saved_response(1, &"abc".to_string()),
        Some(response_record(&see_other("/")))
    );
    assert_eq!(done.fetch_saved_response(2, &"abc".to_string()), None);
}

#[test]
fn a_row_inserted_marks_the_first_submission() {
    assert!(is_first_submission(1));
    assert!(is_first_submission(2));
    assert!(!is_first_submission(0));
}

#[test]
fn a_repeated_submission_must_find_a_saved_response() {
    assert_eq!(
        expect_saved_response(None),
        Err(IdempotencyError::SavedResponseNotFound)
    );
    assert_eq!(
        expect_saved_response(Some(see_other("/admin/newsletters"))),
        Ok(see_other("/admin/newsletters"))
    );
}

#[test]
fn an_inserted_row_starts_the_submission() {
    let step: ProcessingAction<StoreError> = ProcessingAction::InsertRow;
    assert_eq!(
        next_processing_action(step, ProcessingEvent::RowInserted(Ok(1))),
        ProcessingAction::Start
    );
}

#[test]
fn a_row_that_was_there_is_read_back_and_replayed() {
    let step: ProcessingAction<StoreError> = ProcessingAction::InsertRow;
    let step = next_processing_action(step, ProcessingEvent::RowInserted(Ok(0)));
    assert_eq!(step, ProcessingAction::ReadBack);
    let record = response_record(&see_other("/admin/newsletters"));
    assert_eq!(
        next_processing_action(step, ProcessingEvent::ReadBack(Ok(Some(record)))),
        ProcessingAction::Return {
            response: see_other("/admin/newsletters")
        }
    );
}

#[test]
fn a_row_read_back_without_a_response_is_an_error() {
    let read_back = || ProcessingAction::<StoreError>::ReadBack;
    assert_eq!(
        next_processing_action(read_back(), ProcessingEvent::ReadBack(Ok(None))),
        ProcessingAction::Fail {
            error: ProcessingError::Idempotency(IdempotencyError::SavedResponseNotFound)
        }
    );
    assert_eq!(
        next_processing_action(
            read_back(),
            ProcessingEvent::ReadBack(Ok(Some(SavedResponseRecord::empty())))
        ),
        ProcessingAction::Fail {
            error: ProcessingError::Idempotency(IdempotencyError::ResponseNotSaved)
        }
    );
    assert_eq!(
        next_processing_action(
            read_back(),
            ProcessingEvent::ReadBack(Ok(Some(SavedResponseRecord {
                response_status_code: Some(-1),
                response_headers: Some(vec![]),
                response_body: Some(vec![]),
            })))
        ),
        ProcessingAction::Fail {
            error: ProcessingError::Idempotency(IdempotencyError::StatusCodeOutOfRange)
        }
    );
}

#[test]
fn a_failure_of_the_store_decides_nothing() {
    assert_eq!(
        next_processing_action(
            ProcessingAction::InsertRow,
            ProcessingEvent::RowInserted(Err(StoreError::RowNotFound))
        ),
        ProcessingAction::Fail {
            error: ProcessingError::Failed(StoreError::RowNotFound)
        }
    );
    assert_eq!(
        next_processing_action(
            ProcessingAction::ReadBack,
            ProcessingEvent::ReadBack(Err(StoreError::RowNotFound))
        ),
        ProcessingAction::Fail {
            error: ProcessingError::Failed(StoreError::RowNotFound)
        }
    );
}

#[test]
fn an_answer_out_of_turn_decides_nothing() {
    let out_of_turn = || ProcessingAction::<StoreError>::Fail {
        error: ProcessingError::OutOfTurn,
    };
    assert_eq!(
        next_processing_action(ProcessingAction::InsertRow, ProcessingEvent::ReadBack(Ok(None))),
        out_of_turn()
    );
    assert_eq!(
        next_processing_action(ProcessingAction::ReadBack, ProcessingEvent::RowInserted(Ok(1))),
        out_of_turn()
    );
    assert_eq!(
        next_processing_action(ProcessingAction::Start, ProcessingEvent::RowInserted(Ok(1))),
        out_of_turn()
    );
}
