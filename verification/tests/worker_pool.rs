use libnewsletter::routes::newsletter::{
    publish_newsletter_with_id, NewsletterFormData, Subscription,
};
use libnewsletter::store::{DeliveryTask, Store};
use libnewsletter::worker_pool::WorkerPool;

fn store_with_tasks(count: usize) -> Store {
    let mut store = Store::new();
    let subscriptions: Vec<Subscription> = (0..count)
        .map(|i| Subscription {
            email: format!("s{}@example.com", i),
            status: "confirmed".to_string(),
        })
        .collect();
    let form = NewsletterFormData {
        title: "Newsletter title".to_string(),
        text_content: "Newsletter body as plain text".to_string(),
        html_content: "<p>Newsletter body as HTML</p>".to_string(),
        idempotency_key: "abc".to_string(),
    };
    publish_newsletter_with_id(&mut store, form, 1, &subscriptions, 42, 7).unwrap();
    store
}

fn sorted_emails(tasks: &[DeliveryTask]) -> Vec<String> {
    let mut emails: Vec<String> = tasks.iter().map(|t| t.subscriber_email.clone()).collect();
    emails.sort();
    emails
}

#[test]
fn workers_that_take_turns_claim_disjoint_sets_of_tasks() {
    let mut pool = WorkerPool::new(store_with_tasks(7), 3);
    // Worker 0 is slow, worker 2 is eager; their steps fall in between.
    let schedule = vec![0, 1, 2, 2, 1, 2, 2, 1, 2, 2, 0, 1, 2, 2, 0, 0, 1, 1, 2, 2, 0, 1, 2];
    let log = pool.take_steps(&schedule);
    assert_eq!(pool.store().queue_len(), 0);
    assert_eq!(log.len(), 7);
    let tasks: Vec<DeliveryTask> = log.iter().map(|(_, task)| task.clone()).collect();
    assert_eq!(
        sorted_emails(&tasks),
        (0..7).map(|i| format!("s{}@example.com", i)).collect::<Vec<String>>()
    );
    for worker in 0..3usize {
        for other in (worker + 1)..3 {
            let mine: Vec<&DeliveryTask> =
                log.iter().filter(|(w, _)| *w == worker).map(|(_, t)| t).collect();
            let theirs: Vec<&DeliveryTask> =
                log.iter().filter(|(w, _)| *w == other).map(|(_, t)| t).collect();
            assert!(mine.iter().all(|task| !theirs.contains(task)));
        }
    }
    assert!(log.iter().any(|(w, _)| *w == 0));
    assert!(log.iter().any(|(w, _)| *w == 1));
    assert!(log.iter().any(|(w, _)| *w == 2));
}

#[test]
fn a_worker_holds_one_task_at_a_time() {
    let mut pool = WorkerPool::new(store_with_tasks(2), 2);
    let first = pool.claim(0).unwrap();
    // The same worker claims nothing more while it holds its task.
    assert_eq!(pool.claim(0), None);
    let second = pool.claim(1).unwrap();
    assert_ne!(first, second);
    // Both rows stay in the queue while they are held.
    assert_eq!(pool.store().queue_len(), 2);
    assert_eq!(pool.retire(1), Some(second));
    assert_eq!(pool.retire(1), None);
    assert_eq!(pool.store().queue_len(), 1);
    assert_eq!(pool.retire(0), Some(first));
    assert_eq!(pool.store().queue_len(), 0);
    assert_eq!(pool.claim(0), None);
}

#[test]
fn an_unknown_worker_takes_no_step() {
    let mut pool = WorkerPool::new(store_with_tasks(1), 1);
    assert_eq!(pool.claim(1), None);
    assert_eq!(pool.retire(1), None);
    assert_eq!(pool.take_steps(&vec![5, 6]), vec![]);
    assert_eq!(pool.store().queue_len(), 1);
}
