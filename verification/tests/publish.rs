use libnewsletter::idempotency::key::{IdempotencyKey, IdempotencyKeyError};
use libnewsletter::idempotency::persistence::{
    get_saved_response, try_processing, IdempotencyError, NextAction,
};
use libnewsletter::email_client::IssueContent;
use libnewsletter::routes::newsletter::{
    enqueue_delivery_tasks, first_publish_action, get_confirmed_subscribers,
    insert_newsletter_issue_with_id, next_publish_action, publish_newsletter,
    publish_newsletter_with_id, NewsletterFormData, PublishAction, PublishError, PublishEvent,
    PublishRefusal, Subscription,
};
use libnewsletter::idempotency::persistence::response_record;
use libnewsletter::store::{DeliveryTask, IdempotencyRecord, NewsletterIssue, Store, StoreError};
use libnewsletter::utils::see_other;

fn form(key: &str) -> NewsletterFormData {
    NewsletterFormData {
        title: "Newsletter title".to_string(),
        text_content: "Newsletter body as plain text".to_string(),
        html_content: "<p>Newsletter body as HTML</p>".to_string(),
        idempotency_key: key.to_string(),
    }
}

fn subscriber(email: &str, status: &str) -> Subscription {
    Subscription {
        email: email.to_string(),
        status: status.to_string(),
    }
}

fn three_confirmed() -> Vec<Subscription> {
    vec![
        subscriber("one@example.com", "confirmed"),
        subscriber("two@example.com", "confirmed"),
        subscriber("three@example.com", "confirmed"),
    ]
}

fn task(newsletter_issue_id: u128, email: &str) -> DeliveryTask {
    DeliveryTask {
        newsletter_issue_id,
        subscriber_email: email.to_string(),
    }
}

#[test]
fn only_confirmed_subscribers_are_picked() {
    let subscriptions = vec![
        subscriber("one@example.com", "confirmed"),
        subscriber("two@example.com", "pending_confirmation"),
        subscriber("three@example.com", "confirmed"),
        subscriber("four@example.com", "Confirmed"),
        subscriber("five@example.com", ""),
    ];
    assert_eq!(
        get_confirmed_subscribers(&subscriptions),
        vec!["one@example.com".to_string(), "three@example.com".to_string()]
    );
    assert_eq!(get_confirmed_subscribers(&vec![]), Vec::<String>::new());
}

#[test]
fn a_publication_stores_the_issue_and_enqueues_its_deliveries() {
    let mut store = Store::new();
    let response = publish_newsletter_with_id(&mut store, form("abc"), 1, &three_confirmed(), 42, 7);
    assert_eq!(response, Ok(see_other("/admin/newsletters")));
    assert_eq!(
        store.issues(),
        vec![NewsletterIssue {
            newsletter_issue_id: 42,
            title: "Newsletter title".to_string(),
            text_content: "Newsletter body as plain text".to_string(),
            html_content: "<p>Newsletter body as HTML</p>".to_string(),
            published_at: 7,
        }]
    );
    assert_eq!(
        store.queued_tasks(),
        vec![
            task(42, "one@example.com"),
            task(42, "two@example.com"),
            task(42, "three@example.com"),
        ]
    );
    let key = IdempotencyKey::try_from("abc".to_string()).unwrap();
    assert_eq!(
        get_saved_response(&store, &key, 1),
        Ok(Some(see_other("/admin/newsletters")))
    );
    assert!(!store.is_open(1, &"abc".to_string()));
}

#[test]
fn a_resubmission_is_replayed_whatever_it_holds() {
    let mut store = Store::new();
    let first = publish_newsletter_with_id(&mut store, form("abc"), 1, &three_confirmed(), 42, 7);
    let other_form = NewsletterFormData {
        title: "Another title".to_string(),
        text_content: "Another text".to_string(),
        html_content: "<p>Another text</p>".to_string(),
        idempotency_key: "abc".to_string(),
    };
    let later = vec![subscriber("late@example.com", "confirmed")];
    for attempt in 0..5u64 {
        let again = publish_newsletter_with_id(
            &mut store,
            NewsletterFormData {
                title: other_form.title.clone(),
                text_content: other_form.text_content.clone(),
                html_content: other_form.html_content.clone(),
                idempotency_key: other_form.idempotency_key.clone(),
            },
            1,
            &later,
            100 + u128::from(attempt),
            8 + attempt,
        );
        assert_eq!(again, first);
    }
    assert_eq!(store.issue_count(), 1);
    assert_eq!(store.issues()[0].title, "Newsletter title");
    assert_eq!(store.queue_len(), 3);
}

#[test]
fn different_keys_give_independent_publications() {
    let mut store = Store::new();
    let one = publish_newsletter_with_id(&mut store, form("abc"), 1, &three_confirmed(), 42, 7);
    let other = publish_newsletter_with_id(
        &mut store,
        form("abd"),
        1,
        &vec![subscriber("one@example.com", "confirmed")],
        43,
        8,
    );
    assert_eq!(one, Ok(see_other("/admin/newsletters")));
    assert_eq!(other, Ok(see_other("/admin/newsletters")));
    assert_eq!(store.issue_count(), 2);
    assert_eq!(
        store.queued_tasks(),
        vec![
            task(42, "one@example.com"),
            task(42, "two@example.com"),
            task(42, "three@example.com"),
            task(43, "one@example.com"),
        ]
    );
}

#[test]
fn the_same_key_of_another_caller_is_another_submission() {
    let mut store = Store::new();
    publish_newsletter_with_id(&mut store, form("abc"), 1, &three_confirmed(), 42, 7).unwrap();
    publish_newsletter_with_id(&mut store, form("abc"), 2, &three_confirmed(), 43, 7).unwrap();
    assert_eq!(store.issue_count(), 2);
    assert_eq!(store.queue_len(), 6);
}

#[test]
fn an_invalid_key_is_refused_before_the_store_is_touched() {
    let mut store = Store::new();
    assert_eq!(
        publish_newsletter_with_id(&mut store, form(""), 1, &three_confirmed(), 42, 7),
        Err(PublishError::InvalidKey(IdempotencyKeyError::Empty))
    );
    assert_eq!(
        publish_newsletter_with_id(&mut store, form(&"k".repeat(50)), 1, &three_confirmed(), 42, 7),
        Err(PublishError::InvalidKey(IdempotencyKeyError::MaxLenght))
    );
    assert_eq!(store.issue_count(), 0);
    assert_eq!(store.queue_len(), 0);
    assert!(!store.is_open(1, &String::new()));
    assert!(publish_newsletter_with_id(
        &mut store,
        form(&"k".repeat(49)),
        1,
        &three_confirmed(),
        42,
        7
    )
    .is_ok());
}

#[test]
fn an_issue_identifier_that_is_taken_fails_the_publication() {
    let mut store = Store::new();
    publish_newsletter_with_id(&mut store, form("abc"), 1, &three_confirmed(), 42, 7).unwrap();
    assert_eq!(
        publish_newsletter_with_id(&mut store, form("abd"), 1, &three_confirmed(), 42, 8),
        Err(PublishError::Store(StoreError::DuplicateIssue))
    );
    // Nothing of the failed publication is kept, not even its record.
    assert_eq!(store.issue_count(), 1);
    assert_eq!(store.queue_len(), 3);
    assert!(!store.is_open(1, &"abd".to_string()));
    assert_eq!(
        publish_newsletter_with_id(&mut store, form("abd"), 1, &three_confirmed(), 43, 9),
        Ok(see_other("/admin/newsletters"))
    );
    assert_eq!(store.issue_count(), 2);
}

#[test]
fn a_subscriber_listed_twice_fails_the_publication() {
    let mut store = Store::new();
    let subscriptions = vec![
        subscriber("one@example.com", "confirmed"),
        subscriber("two@example.com", "confirmed"),
        subscriber("one@example.com", "confirmed"),
    ];
    assert_eq!(
        publish_newsletter_with_id(&mut store, form("abc"), 1, &subscriptions, 42, 7),
        Err(PublishError::Store(StoreError::DuplicateTask))
    );
    assert_eq!(store.issue_count(), 0);
    assert_eq!(store.queue_len(), 0);
    assert!(!store.is_open(1, &"abc".to_string()));
}

#[test]
fn the_errors_of_a_publication_map_to_status_codes() {
    assert_eq!(
        PublishError::InvalidKey(IdempotencyKeyError::Empty).status_code(),
        400
    );
    assert_eq!(
        PublishError::InvalidKey(IdempotencyKeyError::MaxLenght).status_code(),
        400
    );
    assert_eq!(
        PublishError::Idempotency(IdempotencyError::ResponseNotSaved).status_code(),
        500
    );
    assert_eq!(
        PublishError::Store(StoreError::DuplicateIssue).status_code(),
        500
    );
}

#[test]
fn fresh_issue_identifiers_are_random_version_four_uuids() {
    let mut store = Store::new();
    publish_newsletter(&mut store, form("abc"), 1, &three_confirmed(), 7).unwrap();
    publish_newsletter(&mut store, form("abd"), 1, &three_confirmed(), 7).unwrap();
    let issues = store.issues();
    assert_eq!(issues.len(), 2);
    assert_ne!(issues[0].newsletter_issue_id, issues[1].newsletter_issue_id);
    for issue in issues {
        let id = uuid::Uuid::from_u128(issue.newsletter_issue_id);
        assert_eq!(id.get_version_num(), 4);
        assert_eq!(
            issue.newsletter_issue_id & 0x0000_0000_0000_f000_c000_0000_0000_0000,
            0x0000_0000_0000_4000_8000_0000_0000_0000
        );
    }
}

#[test]
fn writes_stay_in_the_transaction_until_it_commits() {
    let mut store = Store::new();
    let key = IdempotencyKey::try_from("abc".to_string()).unwrap();
    let mut transaction = match try_processing(&mut store, &key, 1, 7).unwrap() {
        NextAction::StartProcessing(transaction) => transaction,
        NextAction::ReturnSavedResponse(_) => panic!("expected a first submission"),
    };
    assert_eq!(
        insert_newsletter_issue_with_id(
            &store,
            &mut transaction,
            42,
            "t".to_string(),
            "x".to_string(),
            "h".to_string(),
            7
        ),
        Ok(42)
    );
    assert_eq!(
        insert_newsletter_issue_with_id(
            &store,
            &mut transaction,
            42,
            "t".to_string(),
            "x".to_string(),
            "h".to_string(),
            7
        ),
        Err(StoreError::DuplicateIssue)
    );
    assert_eq!(
        enqueue_delivery_tasks(&store, &mut transaction, 41, &three_confirmed()),
        Err(StoreError::UnknownIssue)
    );
    assert_eq!(
        enqueue_delivery_tasks(&store, &mut transaction, 42, &three_confirmed()),
        Ok(())
    );
    assert_eq!(
        enqueue_delivery_tasks(&store, &mut transaction, 42, &three_confirmed()),
        Err(StoreError::DuplicateTask)
    );
    assert_eq!(store.issue_count(), 0);
    assert_eq!(store.queue_len(), 0);
    store.rollback_publication(transaction);
    assert_eq!(store.issue_count(), 0);
    assert_eq!(store.queue_len(), 0);
}

#[test]
fn a_publication_of_a_caller_does_not_see_the_open_one_of_another() {
    let mut store = Store::new();
    let key = IdempotencyKey::try_from("abc".to_string()).unwrap();
    let held = try_processing(&mut store, &key, 1, 7).unwrap();
    assert!(matches!(held, NextAction::StartProcessing(_)));
    assert_eq!(
        publish_newsletter_with_id(&mut store, form("abc"), 1, &three_confirmed(), 42, 7),
        Err(PublishError::Idempotency(IdempotencyError::WouldBlock))
    );
    assert_eq!(
        publish_newsletter_with_id(&mut store, form("abc"), 2, &three_confirmed(), 42, 7),
        Ok(see_other("/admin/newsletters"))
    );
    assert_eq!(store.issue_count(), 1);
}

#[test]
fn a_publication_leaves_one_complete_record() {
    let mut store = Store::new();
    assert!(store.idempotency_records().is_empty());
    publish_newsletter_with_id(&mut store, form("abc"), 1, &three_confirmed(), 42, 7).unwrap();
    publish_newsletter_with_id(&mut store, form("abc"), 1, &three_confirmed(), 43, 8).unwrap();
    assert_eq!(
        store.idempotency_records(),
        vec![IdempotencyRecord {
            user_id: 1,
            idempotency_key: "abc".to_string(),
            created_at: 7,
            response: response_record(&see_other("/admin/newsletters")),
        }]
    );
}

#[test]
fn an_issue_is_written_where_no_identifier_can_be_taken() {
    let mut store = Store::new();
    let key = IdempotencyKey::try_from("abc".to_string()).unwrap();
    let mut transaction = match try_processing(&mut store, &key, 1, 7).unwrap() {
        NextAction::StartProcessing(transaction) => transaction,
        NextAction::ReturnSavedResponse(_) => panic!("expected a first submission"),
    };
    let drawn = libnewsletter::routes::newsletter::insert_newsletter_issue(
        &store,
        &mut transaction,
        "t".to_string(),
        "x".to_string(),
        "h".to_string(),
        7,
    );
    assert!(drawn.is_ok());
    // The identifier handed back is the one under which the issue was written.
    assert_eq!(
        enqueue_delivery_tasks(&store, &mut transaction, drawn.unwrap(), &three_confirmed()),
        Ok(())
    );
}

#[test]
fn nothing_is_refused_where_no_task_is_to_be_written() {
    let mut store = Store::new();
    let key = IdempotencyKey::try_from("abc".to_string()).unwrap();
    let mut transaction = match try_processing(&mut store, &key, 1, 7).unwrap() {
        NextAction::StartProcessing(transaction) => transaction,
        NextAction::ReturnSavedResponse(_) => panic!("expected a first submission"),
    };
    // No issue 41 exists, but no subscriber is confirmed either.
    assert_eq!(enqueue_delivery_tasks(&store, &mut transaction, 41, &vec![]), Ok(()));
    assert_eq!(
        enqueue_delivery_tasks(
            &store,
            &mut transaction,
            41,
            &vec![subscriber("one@example.com", "pending_confirmation")]
        ),
        Ok(())
    );
    assert_eq!(
        enqueue_delivery_tasks(
            &store,
            &mut transaction,
            41,
            &vec![subscriber("one@example.com", "confirmed")]
        ),
        Err(StoreError::UnknownIssue)
    );
}

fn key(text: &str) -> IdempotencyKey {
    IdempotencyKey::try_from(text.to_string()).unwrap()
}

fn issue() -> IssueContent {
    IssueContent {
        title: "Newsletter title".to_string(),
        text_content: "Newsletter body as plain text".to_string(),
        html_content: "<p>Newsletter body as HTML</p>".to_string(),
    }
}

#[test]
fn a_first_submission_takes_every_step_of_a_publication() {
    let step: PublishAction<StoreError> = first_publish_action(form("abc"));
    assert_eq!(
        step,
        PublishAction::TryProcessing {
            idempotency_key: key("abc"),
            issue: issue(),
        }
    );
    let step = next_publish_action(step, PublishEvent::Processed(Ok(None)));
    assert_eq!(
        step,
        PublishAction::InsertIssue {
            idempotency_key: key("abc"),
            issue: issue(),
        }
    );
    let step = next_publish_action(step, PublishEvent::IssueInserted(Ok(42)));
    assert_eq!(
        step,
        PublishAction::Enqueue {
            idempotency_key: key("abc"),
            newsletter_issue_id: 42,
        }
    );
    let step = next_publish_action(step, PublishEvent::Enqueued(Ok(())));
    assert_eq!(
        step,
        PublishAction::SaveResponse {
            idempotency_key: key("abc"),
            response: see_other("/admin/newsletters"),
        }
    );
    let step = next_publish_action(step, PublishEvent::Saved(Ok(())));
    assert_eq!(
        step,
        PublishAction::Respond {
            response: see_other("/admin/newsletters"),
        }
    );
}

#[test]
fn a_repeated_submission_goes_straight_to_its_answer() {
    let step: PublishAction<StoreError> = first_publish_action(form("abc"));
    let step = next_publish_action(step, PublishEvent::Processed(Ok(Some(see_other("/saved")))));
    assert_eq!(
        step,
        PublishAction::Respond {
            response: see_other("/saved"),
        }
    );
}

#[test]
fn an_invalid_key_is_refused_as_the_first_step() {
    let empty: PublishAction<StoreError> = first_publish_action(form(""));
    assert_eq!(
        empty,
        PublishAction::Reject {
            error: PublishRefusal::InvalidKey(IdempotencyKeyError::Empty)
        }
    );
    let long: PublishAction<StoreError> = first_publish_action(form(&"k".repeat(50)));
    assert_eq!(
        long,
        PublishAction::Reject {
            error: PublishRefusal::InvalidKey(IdempotencyKeyError::MaxLenght)
        }
    );
}

#[test]
fn a_failure_of_the_store_refuses_the_publication_at_any_step() {
    let refused = || PublishAction::Reject {
        error: PublishRefusal::Failed(StoreError::DuplicateIssue),
    };
    let failed = StoreError::DuplicateIssue;
    assert_eq!(
        next_publish_action(
            first_publish_action(form("abc")),
            PublishEvent::Processed(Err(failed))
        ),
        refused()
    );
    assert_eq!(
        next_publish_action(
            PublishAction::InsertIssue {
                idempotency_key: key("abc"),
                issue: issue(),
            },
            PublishEvent::IssueInserted(Err(failed))
        ),
        refused()
    );
    assert_eq!(
        next_publish_action(
            PublishAction::Enqueue {
                idempotency_key: key("abc"),
                newsletter_issue_id: 42,
            },
            PublishEvent::Enqueued(Err(failed))
        ),
        refused()
    );
    assert_eq!(
        next_publish_action(
            PublishAction::SaveResponse {
                idempotency_key: key("abc"),
                response: see_other("/admin/newsletters"),
            },
            PublishEvent::Saved(Err(failed))
        ),
        refused()
    );
}

#[test]
fn an_answer_out_of_turn_refuses_the_publication() {
    let out_of_turn = || PublishAction::<StoreError>::Reject {
        error: PublishRefusal::OutOfTurn,
    };
    assert_eq!(
        next_publish_action(first_publish_action(form("abc")), PublishEvent::Saved(Ok(()))),
        out_of_turn()
    );
    assert_eq!(
        next_publish_action(
            PublishAction::Respond {
                response: see_other("/admin/newsletters")
            },
            PublishEvent::Processed(Ok(None))
        ),
        out_of_turn()
    );
    assert_eq!(
        next_publish_action(out_of_turn(), PublishEvent::Enqueued(Ok(()))),
        out_of_turn()
    );
}
