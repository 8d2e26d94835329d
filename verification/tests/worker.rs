use zero2prod::delivery::{RetryPolicy, TaskStatus};
use zero2prod::errors::DeliveryFailure;
use zero2prod::newsletter::{NewsletterIssuer, PublishRequest};
use zero2prod::subscriber::{Subscriber, SubscriberStatus, SubscriberStore};
use zero2prod::worker::{
    classify, report_for_status, DeliveryWorker, SendReport, WorkerAction, WorkerEvent,
};

fn published(recipients: &[&str]) -> NewsletterIssuer {
    let mut subs = SubscriberStore::new();
    for (i, email) in recipients.iter().enumerate() {
        subs.insert(Subscriber {
            id: i as u128 + 1,
            email: email.to_string(),
            name: "N".to_string(),
            status: SubscriberStatus::Confirmed,
            subscribed_at: 0,
        })
        .unwrap();
    }
    let mut issuer =
        NewsletterIssuer::new(RetryPolicy { max_retries: 2, base_delay_secs: 10, lease_secs: 30 });
    let req = PublishRequest {
        owner_id: "admin".to_string(),
        idempotency_key: "k1".to_string(),
        title: "Hi".to_string(),
        html_body: "<p>Hello</p>".to_string(),
        text_body: "Hello".to_string(),
    };
    issuer.publish_with(&subs, &req, 1, 100).unwrap();
    issuer
}

fn recipient_of(action: WorkerAction) -> String {
    match action {
        WorkerAction::Send(m) => {
            assert_eq!(m.subject, "Hi");
            assert_eq!(m.html_body, "<p>Hello</p>");
            assert_eq!(m.text_body, "Hello");
            m.recipient
        }
        other => panic!("expected a send, got {:?}", other),
    }
}

#[test]
fn a_report_is_read_as_an_outcome() {
    assert_eq!(classify(SendReport::Delivered), Ok(()));
    assert_eq!(classify(SendReport::Failed), Err(DeliveryFailure::Transient));
    assert_eq!(classify(SendReport::TimedOut), Err(DeliveryFailure::Transient));
    assert_eq!(classify(SendReport::Rejected), Err(DeliveryFailure::Permanent));
}

#[test]
fn a_worker_waits_while_nothing_is_available() {
    let mut issuer = published(&[]);
    let mut w = DeliveryWorker::new();
    assert!(matches!(w.step_with(&mut issuer, WorkerEvent::Tick, 100, 0), WorkerAction::Wait));
    assert_eq!(w.in_hand(), None);
    let mut issuer = published(&["a@x.com"]);
    assert!(matches!(w.step_with(&mut issuer, WorkerEvent::Tick, 99, 0), WorkerAction::Wait));
    assert_eq!(w.in_hand(), None);
    assert!(matches!(
        w.step_with(&mut issuer, WorkerEvent::Sent(SendReport::Delivered), 99, 0),
        WorkerAction::Wait
    ));
    assert_eq!(issuer.queue().task(0).status, TaskStatus::Queued);
}

#[test]
fn a_worker_sends_one_task_at_a_time_and_settles_it() {
    let mut issuer = published(&["a@x.com", "b@x.com"]);
    let mut w = DeliveryWorker::new();
    let first = w.step_with(&mut issuer, WorkerEvent::Tick, 100, 0);
    assert_eq!(recipient_of(first), "a@x.com");
    assert_eq!(w.in_hand(), Some(0));
    assert!(matches!(w.step_with(&mut issuer, WorkerEvent::Tick, 100, 0), WorkerAction::Wait));
    assert_eq!(issuer.queue().task(1).status, TaskStatus::Queued);
    let settled = w.step_with(&mut issuer, WorkerEvent::Sent(SendReport::Delivered), 101, 0);
    assert!(matches!(settled, WorkerAction::Settled(TaskStatus::Succeeded)));
    assert_eq!(w.in_hand(), None);
    let second = w.step_with(&mut issuer, WorkerEvent::Tick, 101, 0);
    assert_eq!(recipient_of(second), "b@x.com");
    assert_eq!(w.in_hand(), Some(1));
    let settled = w.step_with(&mut issuer, WorkerEvent::Sent(SendReport::Rejected), 102, 0);
    assert!(matches!(settled, WorkerAction::Settled(TaskStatus::Failed)));
    assert_eq!(issuer.queue().task(0).status, TaskStatus::Succeeded);
    assert_eq!(issuer.queue().task(1).status, TaskStatus::Failed);
    assert!(matches!(w.step_with(&mut issuer, WorkerEvent::Tick, 1_000, 0), WorkerAction::Wait));
}

#[test]
fn a_timeout_is_retried_like_any_transient_failure() {
    let mut issuer = published(&["a@x.com"]);
    let mut w = DeliveryWorker::new();
    recipient_of(w.step_with(&mut issuer, WorkerEvent::Tick, 100, 0));
    let settled = w.step_with(&mut issuer, WorkerEvent::Sent(SendReport::TimedOut), 105, 3);
    assert!(matches!(settled, WorkerAction::Settled(TaskStatus::Queued)));
    assert_eq!(issuer.queue().task(0).attempts, 1);
    // base delay 10, no doubling yet, jitter 3 % 11
    assert_eq!(issuer.queue().task(0).available_at, 118);
    assert!(matches!(w.step_with(&mut issuer, WorkerEvent::Tick, 117, 0), WorkerAction::Wait));
    recipient_of(w.step_with(&mut issuer, WorkerEvent::Tick, 118, 0));
    let settled = w.step_with(&mut issuer, WorkerEvent::Sent(SendReport::Failed), 120, 0);
    assert!(matches!(settled, WorkerAction::Settled(TaskStatus::Failed)));
    assert_eq!(issuer.queue().task(0).attempts, 2);
}

#[test]
fn a_sweep_recovers_the_task_of_a_worker_that_went_away() {
    let mut issuer = published(&["a@x.com"]);
    let mut gone = DeliveryWorker::new();
    recipient_of(gone.step_with(&mut issuer, WorkerEvent::Tick, 100, 0));
    let mut w = DeliveryWorker::new();
    assert!(matches!(w.step_with(&mut issuer, WorkerEvent::Sweep, 130, 0), WorkerAction::Wait));
    assert!(matches!(w.step_with(&mut issuer, WorkerEvent::Tick, 130, 0), WorkerAction::Wait));
    assert_eq!(issuer.queue().task(0).status, TaskStatus::Executing);
    assert!(matches!(w.step_with(&mut issuer, WorkerEvent::Sweep, 131, 0), WorkerAction::Wait));
    assert_eq!(issuer.queue().task(0).status, TaskStatus::Queued);
    // the late report of the first worker finds its task executing no more
    assert!(matches!(
        gone.step_with(&mut issuer, WorkerEvent::Sent(SendReport::Rejected), 131, 0),
        WorkerAction::Wait
    ));
    assert_eq!(gone.in_hand(), None);
    assert_eq!(issuer.queue().task(0).status, TaskStatus::Queued);
    assert_eq!(recipient_of(w.step_with(&mut issuer, WorkerEvent::Tick, 131, 0)), "a@x.com");
    let settled = w.step_with(&mut issuer, WorkerEvent::Sent(SendReport::Delivered), 132, 0);
    assert!(matches!(settled, WorkerAction::Settled(TaskStatus::Succeeded)));
}

#[test]
fn a_worker_draws_the_jitter_at_random() {
    let mut issuer = published(&["a@x.com"]);
    let mut w = DeliveryWorker::new();
    assert_eq!(recipient_of(w.step(&mut issuer, WorkerEvent::Tick, 100)), "a@x.com");
    assert!(matches!(w.step(&mut issuer, WorkerEvent::Sweep, 120), WorkerAction::Wait));
    assert_eq!(issuer.queue().task(0).status, TaskStatus::Executing);
    let settled = w.step(&mut issuer, WorkerEvent::Sent(SendReport::Failed), 120);
    assert!(matches!(settled, WorkerAction::Settled(TaskStatus::Queued)));
    let at = issuer.queue().task(0).available_at;
    assert!(130 <= at && at <= 140);
}

#[test]
fn the_providers_status_is_read_as_a_report() {
    for code in [200u16, 201, 202, 204, 299] {
        assert_eq!(report_for_status(code), SendReport::Delivered);
    }
    for code in [500u16, 502, 503, 599] {
        assert_eq!(report_for_status(code), SendReport::Failed);
    }
    for code in [0u16, 100, 199, 300, 400, 401, 404, 422, 499, 600, u16::MAX] {
        assert_eq!(report_for_status(code), SendReport::Rejected);
    }
}
