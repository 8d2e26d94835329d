use zero2prod::confirmation::{ConfirmationWorkflow, FormData};
use zero2prod::delivery::{RetryPolicy, TaskStatus};
use zero2prod::newsletter::{NewsletterIssuer, PublishRequest};
use zero2prod::subscriber::SubscriberStatus;
use zero2prod::worker::{DeliveryWorker, SendReport, WorkerAction, WorkerEvent};

#[test]
fn subscribe_confirm_publish_deliver_and_publish_again() {
    let mut workflow = ConfirmationWorkflow::new("https://news.example".to_string());
    let form = FormData { email: "a@x.com".to_string(), name: "A".to_string() };
    let subscription = workflow.subscribe(&form, 1_000).unwrap();
    assert_eq!(workflow.subscribers().row(0).status, SubscriberStatus::Pending);

    assert_eq!(workflow.confirm(&subscription.token), Ok(subscription.subscriber_id));
    assert_eq!(workflow.subscribers().row(0).status, SubscriberStatus::Confirmed);

    let mut issuer =
        NewsletterIssuer::new(RetryPolicy { max_retries: 3, base_delay_secs: 1, lease_secs: 30 });
    let request = PublishRequest {
        owner_id: "admin".to_string(),
        idempotency_key: "k1".to_string(),
        title: "Hi".to_string(),
        html_body: "<p>Hi</p>".to_string(),
        text_body: "Hi".to_string(),
    };
    let first = issuer.publish(workflow.subscribers(), &request, 2_000).unwrap();
    assert_eq!(issuer.queue().len(), 1);
    assert_eq!(issuer.newsletters().len(), 1);

    let mut worker = DeliveryWorker::new();
    let mut sent_to = Vec::new();
    loop {
        match worker.step(&mut issuer, WorkerEvent::Tick, 3_000) {
            WorkerAction::Send(message) => {
                sent_to.push(message.recipient);
                worker.step(&mut issuer, WorkerEvent::Sent(SendReport::Delivered), 3_001);
            }
            _ => break,
        }
    }
    assert_eq!(sent_to, vec!["a@x.com".to_string()]);
    assert_eq!(issuer.queue().task(0).status, TaskStatus::Succeeded);

    let again = issuer.publish(workflow.subscribers(), &request, 4_000).unwrap();
    assert_eq!(issuer.queue().len(), 1);
    assert_eq!(issuer.newsletters().len(), 1);
    assert_eq!(again.status, first.status);
    assert_eq!(again.body, first.body);
    assert!(matches!(worker.step(&mut issuer, WorkerEvent::Tick, 5_000), WorkerAction::Wait));
}
