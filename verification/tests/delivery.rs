use zero2prod::delivery::{backoff_secs, later, DeliveryQueue, RetryPolicy, TaskStatus};
use zero2prod::errors::DeliveryFailure;

fn policy() -> RetryPolicy {
    RetryPolicy { max_retries: 3, base_delay_secs: 1, lease_secs: 30 }
}

fn queue_with_one_task() -> DeliveryQueue {
    let mut q = DeliveryQueue::new(policy());
    q.enqueue(10, 1, "a@x.com".to_string(), 100);
    q
}

#[test]
fn the_default_policy_allows_three_attempts() {
    assert_eq!(
        RetryPolicy::default(),
        RetryPolicy { max_retries: 3, base_delay_secs: 1, lease_secs: 60 }
    );
}

#[test]
fn a_fresh_task_is_queued_and_untried() {
    let q = queue_with_one_task();
    assert_eq!(q.len(), 1);
    assert_eq!(q.policy(), policy());
    let t = q.task(0);
    assert_eq!(t.newsletter_id, 10);
    assert_eq!(t.subscriber_id, 1);
    assert_eq!(t.recipient_email, "a@x.com");
    assert_eq!(t.attempts, 0);
    assert_eq!(t.n_retries, 0);
    assert_eq!(t.status, TaskStatus::Queued);
    assert_eq!(t.available_at, 100);
    assert_eq!(t.leased_until, None);
}

#[test]
fn a_task_is_claimed_once_it_is_available_and_only_once() {
    let mut q = queue_with_one_task();
    assert!(q.claim_at(99).is_none());
    let c = q.claim_at(100).unwrap();
    assert_eq!(c.ticket, 0);
    assert_eq!(c.task.status, TaskStatus::Executing);
    assert_eq!(c.task.leased_until, Some(130));
    assert_eq!(c.task.recipient_email, "a@x.com");
    assert_eq!(q.task(0).status, TaskStatus::Executing);
    assert_eq!(q.task(0).leased_until, Some(130));
    assert!(q.claim_at(100).is_none());
    assert!(q.claim_at(1_000).is_none());
}

#[test]
fn the_first_available_task_in_table_order_is_claimed() {
    let mut q = DeliveryQueue::new(policy());
    q.enqueue(10, 1, "late@x.com".to_string(), 200);
    q.enqueue(10, 2, "early@x.com".to_string(), 100);
    q.enqueue(10, 3, "also@x.com".to_string(), 100);
    assert_eq!(q.claim_at(150).unwrap().ticket, 1);
    assert_eq!(q.claim_at(150).unwrap().ticket, 2);
    assert!(q.claim_at(150).is_none());
    assert_eq!(q.claim_at(200).unwrap().ticket, 0);
}

#[test]
fn a_success_ends_the_task() {
    let mut q = queue_with_one_task();
    let c = q.claim_at(100).unwrap();
    assert_eq!(q.record_with(c.ticket, Ok(()), 101, 0), Some(TaskStatus::Succeeded));
    let t = q.task(0);
    assert_eq!(t.status, TaskStatus::Succeeded);
    assert_eq!(t.attempts, 0);
    assert_eq!(t.leased_until, None);
    assert!(q.claim_at(i64::MAX).is_none());
    assert_eq!(q.record_with(0, Err(DeliveryFailure::Transient), 102, 0), None);
    q.reap_at(i64::MAX);
    assert_eq!(q.task(0).status, TaskStatus::Succeeded);
}

#[test]
fn a_permanent_failure_ends_the_task_without_a_retry() {
    let mut q = queue_with_one_task();
    q.claim_at(100).unwrap();
    assert_eq!(
        q.record_with(0, Err(DeliveryFailure::Permanent), 101, 0),
        Some(TaskStatus::Failed)
    );
    let t = q.task(0);
    assert_eq!(t.status, TaskStatus::Failed);
    assert_eq!(t.attempts, 1);
    assert_eq!(t.n_retries, 0);
    assert_eq!(t.available_at, 100);
    assert!(q.claim_at(i64::MAX).is_none());
}

#[test]
fn transient_failures_are_retried_with_backoff_until_max_retries() {
    let mut q = queue_with_one_task();
    q.claim_at(100).unwrap();
    assert_eq!(
        q.record_with(0, Err(DeliveryFailure::Transient), 105, 0),
        Some(TaskStatus::Queued)
    );
    assert_eq!(q.task(0).attempts, 1);
    assert_eq!(q.task(0).n_retries, 1);
    assert_eq!(q.task(0).available_at, 106);
    assert_eq!(q.task(0).leased_until, None);
    assert!(q.claim_at(105).is_none());
    q.claim_at(106).unwrap();
    assert_eq!(
        q.record_with(0, Err(DeliveryFailure::Transient), 110, 5),
        Some(TaskStatus::Queued)
    );
    assert_eq!(q.task(0).attempts, 2);
    assert_eq!(q.task(0).n_retries, 2);
    assert_eq!(q.task(0).available_at, 114);
    q.claim_at(114).unwrap();
    assert_eq!(
        q.record_with(0, Err(DeliveryFailure::Transient), 120, 0),
        Some(TaskStatus::Failed)
    );
    assert_eq!(q.task(0).status, TaskStatus::Failed);
    assert_eq!(q.task(0).attempts, 3);
    assert_eq!(q.task(0).n_retries, 2);
    assert_eq!(q.task(0).available_at, 114);
    assert!(q.claim_at(i64::MAX).is_none());
}

#[test]
fn with_no_retries_allowed_the_first_transient_failure_is_the_last() {
    let mut q = DeliveryQueue::new(RetryPolicy { max_retries: 0, base_delay_secs: 1, lease_secs: 30 });
    q.enqueue(10, 1, "a@x.com".to_string(), 0);
    q.claim_at(0).unwrap();
    assert_eq!(q.record_with(0, Err(DeliveryFailure::Transient), 1, 0), Some(TaskStatus::Failed));
    assert_eq!(q.task(0).attempts, 1);
    let mut q = DeliveryQueue::new(RetryPolicy { max_retries: 1, base_delay_secs: 1, lease_secs: 30 });
    q.enqueue(10, 1, "a@x.com".to_string(), 0);
    q.claim_at(0).unwrap();
    assert_eq!(q.record_with(0, Err(DeliveryFailure::Transient), 1, 0), Some(TaskStatus::Failed));
    assert_eq!(q.task(0).attempts, 1);
}

#[test]
fn a_report_for_a_task_that_is_not_executing_changes_nothing() {
    let mut q = queue_with_one_task();
    assert_eq!(q.record_with(0, Ok(()), 100, 0), None);
    assert_eq!(q.record_with(7, Ok(()), 100, 0), None);
    assert_eq!(q.task(0).status, TaskStatus::Queued);
    assert_eq!(q.task(0).attempts, 0);
}

#[test]
fn an_abandoned_claim_is_recovered_when_its_lease_runs_out() {
    let mut q = queue_with_one_task();
    let c = q.claim_at(100).unwrap();
    assert_eq!(c.task.leased_until, Some(130));
    q.reap_at(129);
    assert_eq!(q.task(0).status, TaskStatus::Executing);
    q.reap_at(130);
    assert_eq!(q.task(0).status, TaskStatus::Executing);
    assert_eq!(q.task(0).leased_until, Some(130));
    assert!(q.claim_at(130).is_none());
    q.reap_at(131);
    let t = q.task(0);
    assert_eq!(t.status, TaskStatus::Queued);
    assert_eq!(t.available_at, 131);
    assert_eq!(t.leased_until, None);
    assert_eq!(t.attempts, 0);
    assert_eq!(t.n_retries, 0);
    let again = q.claim_at(131).unwrap();
    assert_eq!(again.ticket, 0);
    assert_eq!(again.task.leased_until, Some(161));
}

#[test]
fn a_lease_of_no_seconds_holds_for_the_second_of_the_claim() {
    let mut q =
        DeliveryQueue::new(RetryPolicy { max_retries: 3, base_delay_secs: 1, lease_secs: 0 });
    q.enqueue(10, 1, "a@x.com".to_string(), 0);
    assert_eq!(q.claim_at(5).unwrap().task.leased_until, Some(5));
    q.reap_at(5);
    assert_eq!(q.task(0).status, TaskStatus::Executing);
    q.reap_at(6);
    assert_eq!(q.task(0).status, TaskStatus::Queued);
}

#[test]
fn without_a_base_delay_a_retry_is_available_at_once() {
    let mut q =
        DeliveryQueue::new(RetryPolicy { max_retries: 3, base_delay_secs: 0, lease_secs: 30 });
    q.enqueue(10, 1, "a@x.com".to_string(), 0);
    q.claim_at(5).unwrap();
    assert_eq!(
        q.record_with(0, Err(DeliveryFailure::Transient), 7, 12345),
        Some(TaskStatus::Queued)
    );
    assert_eq!(q.task(0).available_at, 7);
    assert_eq!(q.claim_at(7).unwrap().ticket, 0);
}

#[test]
fn the_reaper_leaves_live_leases_and_other_tasks_alone() {
    let mut q = DeliveryQueue::new(policy());
    q.enqueue(10, 1, "a@x.com".to_string(), 0);
    q.enqueue(10, 2, "b@x.com".to_string(), 0);
    q.enqueue(10, 3, "c@x.com".to_string(), 500);
    q.claim_at(0).unwrap();
    q.claim_at(20).unwrap();
    q.reap_at(30);
    assert_eq!(q.task(0).status, TaskStatus::Executing);
    q.reap_at(40);
    assert_eq!(q.task(0).status, TaskStatus::Queued);
    assert_eq!(q.task(0).available_at, 40);
    assert_eq!(q.task(1).status, TaskStatus::Executing);
    assert_eq!(q.task(1).leased_until, Some(50));
    assert_eq!(q.task(2).status, TaskStatus::Queued);
    assert_eq!(q.task(2).available_at, 500);
}

#[test]
fn one_recipients_failure_does_not_touch_the_others() {
    let mut q = DeliveryQueue::new(policy());
    q.enqueue(10, 1, "a@x.com".to_string(), 0);
    q.enqueue(10, 2, "b@x.com".to_string(), 0);
    let a = q.claim_at(0).unwrap();
    let b = q.claim_at(0).unwrap();
    assert_eq!(q.record_with(a.ticket, Err(DeliveryFailure::Permanent), 1, 0), Some(TaskStatus::Failed));
    assert_eq!(q.task(1).status, TaskStatus::Executing);
    assert_eq!(q.task(1).attempts, 0);
    assert_eq!(q.record_with(b.ticket, Ok(()), 2, 0), Some(TaskStatus::Succeeded));
    assert_eq!(q.task(0).status, TaskStatus::Failed);
}

#[test]
fn backoff_doubles_per_retry_and_adds_jitter_up_to_the_same_amount() {
    let p = RetryPolicy { max_retries: 30, base_delay_secs: 2, lease_secs: 30 };
    assert_eq!(backoff_secs(&p, 0, 0), 2);
    assert_eq!(backoff_secs(&p, 1, 0), 2);
    assert_eq!(backoff_secs(&p, 1, 4), 3);
    assert_eq!(backoff_secs(&p, 1, 2), 4);
    assert_eq!(backoff_secs(&p, 2, 0), 4);
    assert_eq!(backoff_secs(&p, 3, 0), 8);
    assert_eq!(backoff_secs(&p, 3, 100), 9);
    assert_eq!(backoff_secs(&p, 21, 0), 2_097_152);
    assert_eq!(backoff_secs(&p, 22, 0), 2_097_152);
    assert_eq!(backoff_secs(&p, u32::MAX, 0), 2_097_152);
    assert_eq!(backoff_secs(&p, 22, u128::MAX), 2_097_152 + u128::MAX % 2_097_153);
    let none = RetryPolicy { max_retries: 3, base_delay_secs: 0, lease_secs: 30 };
    assert_eq!(backoff_secs(&none, 5, 12345), 0);
    let big = RetryPolicy { max_retries: 3, base_delay_secs: u32::MAX, lease_secs: 30 };
    assert_eq!(backoff_secs(&big, 21, 0), (u32::MAX as u128) << 20);
}

#[test]
fn later_adds_seconds_and_stops_at_the_end_of_the_clock() {
    assert_eq!(later(100, 5), 105);
    assert_eq!(later(-10, 3), -7);
    assert_eq!(later(i64::MAX - 1, 1), i64::MAX);
    assert_eq!(later(i64::MAX - 1, 5), i64::MAX);
    assert_eq!(later(0, u128::MAX), i64::MAX);
    assert_eq!(later(i64::MIN, u64::MAX as u128), i64::MAX);
    assert_eq!(later(i64::MIN, 0), i64::MIN);
}

#[test]
fn a_lease_that_would_pass_the_end_of_the_clock_ends_there() {
    let mut q = DeliveryQueue::new(policy());
    q.enqueue(10, 1, "a@x.com".to_string(), 0);
    let c = q.claim_at(i64::MAX - 3).unwrap();
    assert_eq!(c.task.leased_until, Some(i64::MAX));
}

#[test]
fn record_draws_the_jitter_at_random() {
    let mut q = DeliveryQueue::new(RetryPolicy { max_retries: 9, base_delay_secs: 8, lease_secs: 30 });
    q.enqueue(10, 1, "a@x.com".to_string(), 0);
    q.enqueue(10, 2, "b@x.com".to_string(), 0);
    q.claim_at(0).unwrap();
    assert_eq!(q.record(0, Err(DeliveryFailure::Transient), 100), Some(TaskStatus::Queued));
    let t = q.task(0);
    assert_eq!(t.attempts, 1);
    assert_eq!(t.n_retries, 1);
    assert!(108 <= t.available_at && t.available_at <= 116);
    assert_eq!(q.record(0, Ok(()), 100), None);
    q.claim_at(0).unwrap();
    assert_eq!(q.record(1, Ok(()), 101), Some(TaskStatus::Succeeded));
    assert_eq!(q.record(7, Ok(()), 101), None);
}
