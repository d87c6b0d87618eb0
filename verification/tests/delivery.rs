use libnewsletter::domain::subscriber_email::SubscriberEmail;
use libnewsletter::email_client::{
    email_request, issue_content, send, Attempted, EmailRequest, EmailSender, IssueContent, Outbox,
    TransportError,
};
use libnewsletter::issue_delivery_worker::{
    delete_task, dequeue_task, drain_queue, execute_task, get_issue, log_message,
    next_cycle_action, next_delay, outcome_of, try_execute_task, Attempt, CycleAction,
    CycleError, CycleEvent, DeliveryRecord, ExecutionOutcome, WorkerError, FAILED_TO_DELIVER_MSG,
    IDLE_INTERVAL_SECONDS, INVALID_SUBSCRIBER_DETAILS, RETRY_INTERVAL_SECONDS,
};
use libnewsletter::idempotency::persistence::Response;
use libnewsletter::routes::newsletter::{
    pubish_newsletter, publish_newsletter_with_id, DeliveryFailed, NewsletterFormData,
    Subscription,
};
use libnewsletter::store::{DeliveryTask, Store, StoreError};
use libnewsletter::utils::see_other;

fn refusing(recipients: &[&str]) -> Outbox {
    Outbox::refusing(recipients.iter().map(|r| r.to_string()).collect())
}

/// The recipients whose emails the outbox took, in the order of the
/// requests.
fn delivered(outbox: &Outbox) -> Vec<String> {
    outbox
        .attempts()
        .iter()
        .filter(|attempt| attempt.delivered)
        .map(|attempt| attempt.recipient.clone())
        .collect()
}

fn form(key: &str) -> NewsletterFormData {
    NewsletterFormData {
        title: "Newsletter title".to_string(),
        text_content: "Newsletter body as plain text".to_string(),
        html_content: "<p>Newsletter body as HTML</p>".to_string(),
        idempotency_key: key.to_string(),
    }
}

fn confirmed(emails: &[&str]) -> Vec<Subscription> {
    emails
        .iter()
        .map(|email| Subscription {
            email: email.to_string(),
            status: "confirmed".to_string(),
        })
        .collect()
}

fn published(emails: &[&str]) -> Store {
    let mut store = Store::new();
    publish_newsletter_with_id(&mut store, form("abc"), 1, &confirmed(emails), 42, 7).unwrap();
    store
}

fn sorted(mut emails: Vec<String>) -> Vec<String> {
    emails.sort();
    emails
}

const THREE: [&str; 3] = ["one@example.com", "two@example.com", "three@example.com"];

#[test]
fn an_empty_queue_is_reported_and_left_alone() {
    let mut store = Store::new();
    let mut outbox = Outbox::new();
    assert_eq!(
        try_execute_task(&mut store, &mut outbox),
        Ok(ExecutionOutcome::EmptyQueue)
    );
    assert!(outbox.attempts().is_empty());
    assert_eq!(drain_queue(&mut store, &mut outbox).len(), 0);
}

#[test]
fn one_cycle_attempts_and_retires_one_task() {
    let mut store = published(&THREE);
    let mut outbox = Outbox::new();
    assert_eq!(
        try_execute_task(&mut store, &mut outbox),
        Ok(ExecutionOutcome::TaskCompleted)
    );
    assert_eq!(store.queue_len(), 2);
    assert_eq!(outbox.attempts().len(), 1);
    let sent = &outbox.attempts()[0];
    assert!(THREE.contains(&sent.recipient.as_str()));
    assert_eq!(sent.subject, "Newsletter title");
    assert_eq!(sent.html_content, "<p>Newsletter body as HTML</p>");
    assert_eq!(sent.text_content, "Newsletter body as plain text");
    assert!(store
        .queued_tasks()
        .iter()
        .all(|task| task.subscriber_email != sent.recipient));
}

#[test]
fn the_queue_drains_to_empty() {
    for count in [0usize, 1, 2, 7] {
        let emails: Vec<String> = (0..count).map(|i| format!("s{}@example.com", i)).collect();
        let emails: Vec<&str> = emails.iter().map(|e| e.as_str()).collect();
        let mut store = published(&emails);
        assert_eq!(store.queue_len(), count);
        let mut outbox = Outbox::new();
        assert_eq!(drain_queue(&mut store, &mut outbox).len(), count);
        assert_eq!(store.queue_len(), 0);
        assert_eq!(outbox.attempts().len(), count);
        assert_eq!(store.issue_count(), 1);
    }
}

#[test]
fn the_queue_drains_to_empty_when_every_delivery_fails() {
    let mut store = published(&THREE);
    let mut outbox = refusing(&THREE);
    assert_eq!(drain_queue(&mut store, &mut outbox).len(), 3);
    assert_eq!(store.queue_len(), 0);
    assert_eq!(outbox.attempts().len(), 3);
    assert!(delivered(&outbox).is_empty());
}

#[test]
fn a_resubmission_after_publication_adds_no_task() {
    let mut store = Store::new();
    let first =
        publish_newsletter_with_id(&mut store, form("abc"), 1, &confirmed(&THREE), 42, 7).unwrap();
    assert_eq!(store.queue_len(), 3);
    // Before the queue is drained.
    let second =
        publish_newsletter_with_id(&mut store, form("abc"), 1, &confirmed(&THREE), 43, 8).unwrap();
    assert_eq!(second, first);
    assert_eq!(second, see_other("/admin/newsletters"));
    assert_eq!(store.queue_len(), 3);
    assert_eq!(store.issue_count(), 1);
    // After the queue is drained.
    let mut outbox = Outbox::new();
    assert_eq!(drain_queue(&mut store, &mut outbox).len(), 3);
    let third =
        publish_newsletter_with_id(&mut store, form("abc"), 1, &confirmed(&THREE), 44, 9).unwrap();
    assert_eq!(third, first);
    assert_eq!(store.queue_len(), 0);
    assert_eq!(store.issue_count(), 1);
    assert_eq!(drain_queue(&mut store, &mut outbox).len(), 0);
    assert_eq!(outbox.attempts().len(), 3);
}

#[test]
fn a_failed_delivery_is_not_retried() {
    let mut store = published(&THREE);
    let mut outbox = refusing(&["two@example.com"]);
    let records = drain_queue(&mut store, &mut outbox);
    assert_eq!(records.len(), 3);
    for record in &records {
        assert_eq!(record.task.newsletter_issue_id, 42);
        let expected = if record.task.subscriber_email == "two@example.com" {
            Attempt::TransportFailed
        } else {
            Attempt::Delivered
        };
        assert_eq!(record.attempt, expected);
    }
    assert_eq!(store.queue_len(), 0);
    assert_eq!(
        sorted(delivered(&outbox)),
        sorted(vec!["one@example.com".to_string(), "three@example.com".to_string()])
    );
    let tried: Vec<String> = outbox.attempts().iter().map(|s| s.recipient.clone()).collect();
    assert_eq!(
        sorted(tried),
        sorted(THREE.iter().map(|e| e.to_string()).collect())
    );
    // A second pass finds nothing to do.
    assert_eq!(drain_queue(&mut store, &mut outbox).len(), 0);
    assert_eq!(outbox.attempts().len(), 3);
}

#[test]
fn workers_claim_different_tasks() {
    let mut store = published(&THREE);
    let first = dequeue_task(&mut store).unwrap();
    let second = dequeue_task(&mut store).unwrap();
    let third = dequeue_task(&mut store).unwrap();
    assert!(dequeue_task(&mut store).is_none());
    assert_ne!(first, second);
    assert_ne!(first, third);
    assert_ne!(second, third);
    let claimed = sorted(vec![
        first.subscriber_email().clone(),
        second.subscriber_email().clone(),
        third.subscriber_email().clone(),
    ]);
    assert_eq!(claimed, sorted(THREE.iter().map(|e| e.to_string()).collect()));
    // The rows stay in the queue while they are held.
    assert_eq!(store.queue_len(), 3);
    delete_task(&mut store, second);
    assert_eq!(store.queue_len(), 2);
    delete_task(&mut store, first);
    delete_task(&mut store, third);
    assert_eq!(store.queue_len(), 0);
}

#[test]
fn interleaved_workers_process_every_task_exactly_once() {
    let emails: Vec<String> = (0..5).map(|i| format!("s{}@example.com", i)).collect();
    let emails: Vec<&str> = emails.iter().map(|e| e.as_str()).collect();
    let mut store = published(&emails);
    let mut by_one: Vec<String> = vec![];
    let mut by_other: Vec<String> = vec![];
    loop {
        let one = dequeue_task(&mut store);
        let other = dequeue_task(&mut store);
        if one.is_none() && other.is_none() {
            break;
        }
        if let Some(transaction) = other {
            by_other.push(transaction.subscriber_email().clone());
            delete_task(&mut store, transaction);
        }
        if let Some(transaction) = one {
            by_one.push(transaction.subscriber_email().clone());
            delete_task(&mut store, transaction);
        }
    }
    assert_eq!(store.queue_len(), 0);
    assert_eq!(by_one.len() + by_other.len(), 5);
    assert!(by_one.iter().all(|email| !by_other.contains(email)));
    let mut all = by_one.clone();
    all.extend(by_other.clone());
    assert_eq!(sorted(all), sorted(emails.iter().map(|e| e.to_string()).collect()));
}

#[test]
fn a_worker_skips_what_another_holds_and_drains_the_rest() {
    let mut store = published(&THREE);
    let held = dequeue_task(&mut store).unwrap();
    let mut outbox = Outbox::new();
    assert_eq!(drain_queue(&mut store, &mut outbox).len(), 2);
    assert_eq!(
        store.queued_tasks(),
        vec![DeliveryTask {
            newsletter_issue_id: held.newsletter_issue_id(),
            subscriber_email: held.subscriber_email().clone(),
        }]
    );
    assert!(outbox
        .attempts()
        .iter()
        .all(|sent| &sent.recipient != held.subscriber_email()));
    // The worker that held the task is lost: the task waits again.
    store.release_task(held);
    assert_eq!(drain_queue(&mut store, &mut outbox).len(), 1);
    assert_eq!(store.queue_len(), 0);
    assert_eq!(outbox.attempts().len(), 3);
}

fn content() -> IssueContent {
    IssueContent {
        title: "T".to_string(),
        text_content: "X".to_string(),
        html_content: "<p>H</p>".to_string(),
    }
}

fn claimed(email: &str) -> DeliveryTask {
    DeliveryTask {
        newsletter_issue_id: 42,
        subscriber_email: email.to_string(),
    }
}

fn recipient(email: &str) -> SubscriberEmail {
    SubscriberEmail::parse(email.to_string()).unwrap()
}

#[test]
fn a_cycle_takes_its_steps_in_order() {
    let step: CycleAction<StoreError> = CycleAction::Dequeue;
    let step = next_cycle_action(step, CycleEvent::Dequeued(Ok(Some(claimed("a@x.io")))));
    assert_eq!(
        step,
        CycleAction::ReadIssue {
            task: claimed("a@x.io"),
            recipient: recipient("a@x.io"),
        }
    );
    let step = next_cycle_action(step, CycleEvent::IssueRead(Ok(content())));
    assert_eq!(
        step,
        CycleAction::Send {
            task: claimed("a@x.io"),
            request: EmailRequest {
                recipient: recipient("a@x.io"),
                subject: "T".to_string(),
                html_content: "<p>H</p>".to_string(),
                text_content: "X".to_string(),
            },
        }
    );
    let step = next_cycle_action(step, CycleEvent::Sent(Ok(())));
    assert_eq!(
        step,
        CycleAction::Delete {
            task: claimed("a@x.io"),
            attempt: Attempt::Delivered,
        }
    );
    let step = next_cycle_action(step, CycleEvent::Deleted(Ok(())));
    assert_eq!(
        step,
        CycleAction::Finish {
            record: Some(DeliveryRecord {
                task: claimed("a@x.io"),
                attempt: Attempt::Delivered,
            }),
        }
    );
}

#[test]
fn a_task_is_deleted_after_a_refused_delivery_too() {
    let step: CycleAction<StoreError> = CycleAction::Send {
        task: claimed("b@x.io"),
        request: email_request(recipient("b@x.io"), content()),
    };
    let step = next_cycle_action(step, CycleEvent::Sent(Err(TransportError)));
    assert_eq!(
        step,
        CycleAction::Delete {
            task: claimed("b@x.io"),
            attempt: Attempt::TransportFailed,
        }
    );
    let step = next_cycle_action(step, CycleEvent::Deleted(Ok(())));
    assert_eq!(
        step,
        CycleAction::Finish {
            record: Some(DeliveryRecord {
                task: claimed("b@x.io"),
                attempt: Attempt::TransportFailed,
            }),
        }
    );
}

#[test]
fn a_cycle_with_no_waiting_task_finishes_at_once() {
    let step: CycleAction<StoreError> = CycleAction::Dequeue;
    let step = next_cycle_action(step, CycleEvent::Dequeued(Ok(None)));
    assert_eq!(step, CycleAction::Finish { record: None });
    assert_eq!(outcome_of(&None), ExecutionOutcome::EmptyQueue);
    assert_eq!(
        outcome_of(&Some(DeliveryRecord {
            task: claimed("a@x.io"),
            attempt: Attempt::TransportFailed,
        })),
        ExecutionOutcome::TaskCompleted
    );
}

#[test]
fn a_failure_of_the_store_gives_the_cycle_up() {
    let failed = || CycleAction::Abandon {
        error: CycleError::Failed(StoreError::RowNotFound),
    };
    assert_eq!(
        next_cycle_action(
            CycleAction::Dequeue,
            CycleEvent::Dequeued(Err(StoreError::RowNotFound))
        ),
        failed()
    );
    assert_eq!(
        next_cycle_action(
            CycleAction::ReadIssue {
                task: claimed("a@x.io"),
                recipient: recipient("a@x.io"),
            },
            CycleEvent::IssueRead(Err(StoreError::RowNotFound))
        ),
        failed()
    );
    assert_eq!(
        next_cycle_action(
            CycleAction::Delete {
                task: claimed("a@x.io"),
                attempt: Attempt::Delivered,
            },
            CycleEvent::Deleted(Err(StoreError::RowNotFound))
        ),
        failed()
    );
}

#[test]
fn an_event_out_of_turn_gives_the_cycle_up() {
    let out_of_turn = || CycleAction::<StoreError>::Abandon {
        error: CycleError::OutOfTurn,
    };
    assert_eq!(
        next_cycle_action(CycleAction::Dequeue, CycleEvent::Sent(Ok(()))),
        out_of_turn()
    );
    assert_eq!(
        next_cycle_action(
            CycleAction::Finish { record: None },
            CycleEvent::Dequeued(Ok(None))
        ),
        out_of_turn()
    );
    assert_eq!(
        next_cycle_action(out_of_turn(), CycleEvent::Deleted(Ok(()))),
        out_of_turn()
    );
}

#[test]
fn a_claimed_task_names_its_issue_and_its_recipient() {
    let mut store = published(&["one@example.com"]);
    let transaction = dequeue_task(&mut store).unwrap();
    assert_eq!(transaction.newsletter_issue_id(), 42);
    assert_eq!(transaction.subscriber_email(), "one@example.com");
    assert_eq!(get_issue(&store, 42).unwrap().title, "Newsletter title");
    assert_eq!(
        issue_content(get_issue(&store, 42).unwrap()),
        IssueContent {
            title: "Newsletter title".to_string(),
            text_content: "Newsletter body as plain text".to_string(),
            html_content: "<p>Newsletter body as HTML</p>".to_string(),
        }
    );
}

#[test]
fn a_missing_issue_is_an_error() {
    let store = published(&["one@example.com"]);
    let elsewhere = Store::new();
    assert_eq!(get_issue(&elsewhere, 42), Err(StoreError::RowNotFound));
    assert_eq!(get_issue(&store, 41), Err(StoreError::RowNotFound));
}

#[test]
fn the_worker_rests_ten_seconds_when_idle_and_one_after_a_failure() {
    assert_eq!(next_delay::<WorkerError>(&Ok(ExecutionOutcome::TaskCompleted)), 0);
    assert_eq!(next_delay::<WorkerError>(&Ok(ExecutionOutcome::EmptyQueue)), 10);
    assert_eq!(
        next_delay(&Err(WorkerError::Store(StoreError::RowNotFound))),
        1
    );
    assert_eq!(IDLE_INTERVAL_SECONDS, 10);
    assert_eq!(RETRY_INTERVAL_SECONDS, 1);
}

#[test]
fn failed_attempts_are_logged() {
    assert_eq!(log_message(Attempt::Delivered), None);
    assert_eq!(
        log_message(Attempt::TransportFailed),
        Some("Failed to deliver issue to a confirmed subscriber, skipping.")
    );
    assert_eq!(
        log_message(Attempt::InvalidAddress),
        Some("Skipping a confirmed subscriber, store contact details are invalid")
    );
    assert_eq!(log_message(Attempt::TransportFailed), Some(FAILED_TO_DELIVER_MSG));
    assert_eq!(log_message(Attempt::InvalidAddress), Some(INVALID_SUBSCRIBER_DETAILS));
}

#[test]
fn a_cycle_records_what_it_did() {
    let mut store = published(&["one@example.com"]);
    let mut outbox = Outbox::new();
    assert_eq!(
        execute_task(&mut store, &mut outbox),
        Ok(Some(DeliveryRecord {
            task: DeliveryTask {
                newsletter_issue_id: 42,
                subscriber_email: "one@example.com".to_string(),
            },
            attempt: Attempt::Delivered,
        }))
    );
    assert_eq!(execute_task(&mut store, &mut outbox), Ok(None));
    assert_eq!(outbox.attempts().len(), 1);
}

#[test]
fn every_waiting_task_is_recorded_once() {
    let emails: Vec<String> = (0..6).map(|i| format!("s{}@example.com", i)).collect();
    let emails: Vec<&str> = emails.iter().map(|e| e.as_str()).collect();
    let mut store = published(&emails);
    let mut outbox = refusing(&["s1@example.com", "s4@example.com"]);
    let records = drain_queue(&mut store, &mut outbox);
    let recorded: Vec<String> = records.iter().map(|r| r.task.subscriber_email.clone()).collect();
    assert_eq!(sorted(recorded), sorted(emails.iter().map(|e| e.to_string()).collect()));
    let failed: Vec<String> = records
        .iter()
        .filter(|r| r.attempt == Attempt::TransportFailed)
        .map(|r| r.task.subscriber_email.clone())
        .collect();
    assert_eq!(
        sorted(failed),
        vec!["s1@example.com".to_string(), "s4@example.com".to_string()]
    );
    assert_eq!(delivered(&outbox).len(), 4);
}

#[test]
fn an_issue_sent_at_once_reaches_every_confirmed_subscriber() {
    let mut subscriptions = confirmed(&THREE);
    subscriptions.insert(
        1,
        Subscription {
            email: "pending@example.com".to_string(),
            status: "pending_confirmation".to_string(),
        },
    );
    let mut outbox = Outbox::new();
    assert_eq!(
        pubish_newsletter(&subscriptions, "Title", "<p>html</p>", "text", &mut outbox),
        Ok(Response::new(200, vec![], vec![]).unwrap())
    );
    assert_eq!(
        delivered(&outbox),
        THREE.iter().map(|e| e.to_string()).collect::<Vec<String>>()
    );
    assert_eq!(outbox.attempts()[0].subject, "Title");
    assert_eq!(outbox.attempts()[0].html_content, "<p>html</p>");
    assert_eq!(outbox.attempts()[0].text_content, "text");
}

#[test]
fn an_issue_sent_at_once_stops_at_the_first_failure() {
    let mut outbox = refusing(&["two@example.com"]);
    assert_eq!(
        pubish_newsletter(&confirmed(&THREE), "Title", "<p>html</p>", "text", &mut outbox),
        Err(DeliveryFailed { at: 1 })
    );
    assert_eq!(delivered(&outbox), vec!["one@example.com".to_string()]);
    assert_eq!(outbox.attempts().len(), 2);
}

fn attempted(recipient: &str, delivered: bool) -> Attempted {
    Attempted {
        recipient: recipient.to_string(),
        subject: "Newsletter title".to_string(),
        html_content: "<p>Newsletter body as HTML</p>".to_string(),
        text_content: "Newsletter body as plain text".to_string(),
        delivered,
    }
}

#[test]
fn the_sender_is_asked_once_for_each_task_with_the_content_of_the_issue() {
    let mut store = published(&["a@x.io", "b@x.io", "c@x.io"]);
    let mut outbox = refusing(&["b@x.io"]);
    loop {
        match try_execute_task(&mut store, &mut outbox) {
            Ok(ExecutionOutcome::TaskCompleted) => {}
            Ok(ExecutionOutcome::EmptyQueue) => break,
            Err(error) => panic!("the cycle failed: {:?}", error),
        }
    }
    let mut attempts: Vec<&Attempted> = outbox.attempts().iter().collect();
    attempts.sort_by(|one, other| one.recipient.cmp(&other.recipient));
    assert_eq!(
        attempts,
        vec![
            &attempted("a@x.io", true),
            &attempted("b@x.io", false),
            &attempted("c@x.io", true),
        ]
    );
    assert_eq!(store.queue_len(), 0);
    // A further cycle asks the sender nothing.
    assert_eq!(
        try_execute_task(&mut store, &mut outbox),
        Ok(ExecutionOutcome::EmptyQueue)
    );
    assert_eq!(outbox.attempts().len(), 3);
}

#[test]
fn the_records_of_a_drain_follow_the_answers_of_the_sender() {
    let mut store = published(&["a@x.io", "b@x.io", "c@x.io"]);
    let mut outbox = refusing(&["b@x.io"]);
    let records = drain_queue(&mut store, &mut outbox);
    assert_eq!(records.len(), outbox.attempts().len());
    for (record, attempt) in records.iter().zip(outbox.attempts().iter()) {
        assert_eq!(record.task.subscriber_email, attempt.recipient);
        assert_eq!(record.attempt == Attempt::Delivered, attempt.delivered);
        assert_eq!(attempt, &attempted(&attempt.recipient, attempt.recipient != "b@x.io"));
    }
}

#[test]
fn an_outbox_keeps_what_it_is_asked() {
    let mut outbox = refusing(&["b@x.io"]);
    let a = SubscriberEmail::parse("a@x.io".to_string()).unwrap();
    let b = SubscriberEmail::parse("b@x.io".to_string()).unwrap();
    assert_eq!(outbox.send_email(&a, "T", "<p>H</p>", "X"), Ok(()));
    let request = email_request(b, content());
    assert_eq!(request.subject, "T");
    assert_eq!(request.html_content, "<p>H</p>");
    assert_eq!(request.text_content, "X");
    assert_eq!(send(&mut outbox, &request), Err(TransportError));
    assert_eq!(
        outbox.attempts(),
        &vec![
            Attempted {
                recipient: "a@x.io".to_string(),
                subject: "T".to_string(),
                html_content: "<p>H</p>".to_string(),
                text_content: "X".to_string(),
                delivered: true,
            },
            Attempted {
                recipient: "b@x.io".to_string(),
                subject: "T".to_string(),
                html_content: "<p>H</p>".to_string(),
                text_content: "X".to_string(),
                delivered: false,
            },
        ]
    );
}
