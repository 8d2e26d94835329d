//! The delivery queue: one task per newsletter and recipient, claimed under
//! a lease, retried with backoff after transient failures, and recovered
//! when a lease runs out.

use vstd::prelude::*;
use crate::errors::DeliveryFailure;
use crate::system::{is_random_uuid, random_uuid};

verus! {

/// Where a delivery task stands.
#[derive(Clone, Copy, Debug, PartialEq, Eq, Structural)]
pub enum TaskStatus {
    /// Waiting to be claimed.
    Queued,
    /// Claimed by a worker under a lease.
    Executing,
    /// Delivered. Final.
    Succeeded,
    /// Given up. Final.
    Failed,
}

/// How often a delivery is tried and how long a worker may hold a task.
#[derive(Clone, Copy, Debug, PartialEq, Eq, Structural)]
pub struct RetryPolicy {
    /// A task fails for good once this many attempts failed transiently.
    pub max_retries: u32,
    /// The delay before the first retry, in seconds; it doubles per retry.
    pub base_delay_secs: u32,
    /// How long a claim lasts, in seconds: the lease holds up to and
    /// including the second that lies this many seconds after the claim.
    pub lease_secs: u32,
}

impl Default for RetryPolicy {
    /// Three attempts, one second before the first retry, and a lease of
    /// one minute.
    fn default() -> (p: RetryPolicy)
        ensures
            p == (RetryPolicy { max_retries: 3, base_delay_secs: 1, lease_secs: 60 }),
    {
        RetryPolicy { max_retries: 3, base_delay_secs: 1, lease_secs: 60 }
    }
}

/// "Send this newsletter to this recipient."
#[derive(Debug)]
pub struct DeliveryTask {
    pub newsletter_id: u128,
    pub subscriber_id: u128,
    pub recipient_email: String,
    /// The attempts that failed.
    pub attempts: u32,
    pub status: TaskStatus,
    /// How often the task went back to the queue after a transient failure.
    pub n_retries: u32,
    /// The task is not claimed before this time (seconds since the epoch).
    pub available_at: i64,
    /// While the task is executing: when its lease runs out.
    pub leased_until: Option<i64>,
}

/// A delivery task as a mathematical value.
pub struct TaskView {
    pub newsletter_id: u128,
    pub subscriber_id: u128,
    pub recipient_email: Seq<char>,
    pub attempts: u32,
    pub status: TaskStatus,
    pub n_retries: u32,
    pub available_at: i64,
    pub leased_until: Option<i64>,
}

impl View for DeliveryTask {
    type V = TaskView;

    open spec fn view(&self) -> TaskView {
        TaskView {
            newsletter_id: self.newsletter_id,
            subscriber_id: self.subscriber_id,
            recipient_email: self.recipient_email@,
            attempts: self.attempts,
            status: self.status,
            n_retries: self.n_retries,
            available_at: self.available_at,
            leased_until: self.leased_until,
        }
    }
}

impl DeliveryTask {
    /// A copy with the same content.
    pub fn duplicate(&self) -> (r: DeliveryTask)
        ensures
            r@ == self@,
    {
        DeliveryTask {
            newsletter_id: self.newsletter_id,
            subscriber_id: self.subscriber_id,
            recipient_email: self.recipient_email.clone(),
            attempts: self.attempts,
            status: self.status,
            n_retries: self.n_retries,
            available_at: self.available_at,
            leased_until: self.leased_until,
        }
    }
}

/// A claimed task and the ticket under which its outcome is reported: the
/// task's position in the queue, which never changes.
#[derive(Debug)]
pub struct Claim {
    pub ticket: usize,
    pub task: DeliveryTask,
}

/// The views of a run of tasks.
pub open spec fn tasks_of(rows: Seq<DeliveryTask>) -> Seq<TaskView> {
    rows.map_values(|t: DeliveryTask| t@)
}

/// A point in time that does not fit the clock is moved to the clock's end.
pub open spec fn clamp_time(t: int) -> i64 {
    if t > i64::MAX {
        i64::MAX
    } else if t < i64::MIN {
        i64::MIN
    } else {
        t as i64
    }
}

/// Two to the power `n`.
pub open spec fn pow2(n: nat) -> nat
    decreases n,
{
    if n == 0 {
        1
    } else {
        2 * pow2((n - 1) as nat)
    }
}

/// How often the base delay is doubled after the given number of failed
/// attempts: once per attempt after the first, and at most twenty times.
pub open spec fn doublings(attempts: u32) -> nat {
    if attempts <= 1 {
        0
    } else if attempts > 21 {
        20
    } else {
        (attempts - 1) as nat
    }
}

/// The delay before the next attempt without jitter: the base delay,
/// doubled once per earlier retry.
pub open spec fn backoff_floor(policy: RetryPolicy, attempts: u32) -> nat {
    policy.base_delay_secs as nat * pow2(doublings(attempts))
}

/// The delay before the next attempt, in seconds: the exponential delay
/// plus a jitter between zero and that delay, picked by `entropy`.
pub open spec fn backoff(policy: RetryPolicy, attempts: u32, entropy: u128) -> nat {
    backoff_floor(policy, attempts) + (entropy as nat) % (backoff_floor(policy, attempts) + 1)
}

/// The task created for a recipient at publish time.
pub open spec fn fresh_task(
    newsletter_id: u128,
    subscriber_id: u128,
    recipient_email: Seq<char>,
    now: i64,
) -> TaskView {
    TaskView {
        newsletter_id: newsletter_id,
        subscriber_id: subscriber_id,
        recipient_email: recipient_email,
        attempts: 0,
        status: TaskStatus::Queued,
        n_retries: 0,
        available_at: now,
        leased_until: None,
    }
}

/// Whether a status is final.
pub open spec fn is_terminal(status: TaskStatus) -> bool {
    status == TaskStatus::Succeeded || status == TaskStatus::Failed
}

/// Whether a task may be claimed at the given time.
pub open spec fn eligible(t: TaskView, now: i64) -> bool {
    t.status == TaskStatus::Queued && t.available_at <= now
}

/// Whether a task is executing under a lease that has run out: the time
/// until which it was leased has passed.
pub open spec fn lease_expired(t: TaskView, now: i64) -> bool {
    t.status == TaskStatus::Executing && t.leased_until is Some && t.leased_until->0 < now
}

/// The task once claimed: executing, under a lease that starts now.
pub open spec fn claimed(t: TaskView, policy: RetryPolicy, now: i64) -> TaskView {
    TaskView {
        status: TaskStatus::Executing,
        leased_until: Some(clamp_time(now + policy.lease_secs)),
        ..t
    }
}

/// The task once the outcome of its attempt is known. A success ends it. A
/// permanent failure counts as a failed attempt and ends it. A transient
/// failure counts as a failed attempt; the task then goes back to the queue
/// with a delay if it has failed fewer than `max_retries` times, and is given
/// up otherwise.
pub open spec fn task_after_outcome(
    t: TaskView,
    policy: RetryPolicy,
    outcome: Result<(), DeliveryFailure>,
    now: i64,
    entropy: u128,
) -> TaskView {
    match outcome {
        Ok(_) => TaskView { status: TaskStatus::Succeeded, leased_until: None, ..t },
        Err(DeliveryFailure::Permanent) => TaskView {
            status: TaskStatus::Failed,
            attempts: (t.attempts + 1) as u32,
            leased_until: None,
            ..t
        },
        Err(DeliveryFailure::Transient) => if t.attempts + 1 < policy.max_retries {
            TaskView {
                status: TaskStatus::Queued,
                attempts: (t.attempts + 1) as u32,
                n_retries: (t.n_retries + 1) as u32,
                available_at: clamp_time(
                    now + backoff(policy, (t.attempts + 1) as u32, entropy),
                ),
                leased_until: None,
                ..t
            }
        } else {
            TaskView {
                status: TaskStatus::Failed,
                attempts: (t.attempts + 1) as u32,
                leased_until: None,
                ..t
            }
        },
    }
}

/// The task once the reaper has passed: if its lease had run out it is
/// queued again and may be claimed at once; otherwise it is as it was.
pub open spec fn reaped(t: TaskView, now: i64) -> TaskView {
    if lease_expired(t, now) {
        TaskView { status: TaskStatus::Queued, available_at: now, leased_until: None, ..t }
    } else {
        t
    }
}

/// The rule for one task: it was retried no more often than it failed, it
/// holds a lease exactly while it is executing, and while it is not final it
/// has failed fewer than `max_retries` times (or not at all).
pub open spec fn task_wf(t: TaskView, policy: RetryPolicy) -> bool {
    &&& t.n_retries <= t.attempts
    &&& (t.status == TaskStatus::Executing <==> t.leased_until is Some)
    &&& !is_terminal(t.status) ==> t.attempts == 0 || t.attempts < policy.max_retries
}

/// The state of the queue: its tasks in the order of their creation, and
/// the policy it was made with.
pub struct QueueView {
    pub tasks: Seq<TaskView>,
    pub policy: RetryPolicy,
}

/// The queue's rule: every task keeps the rule for one task.
pub open spec fn queue_wf(q: QueueView) -> bool {
    forall|i: int| 0 <= i < q.tasks.len() ==> task_wf(#[trigger] q.tasks[i], q.policy)
}

/// Whether position `k` holds the first task that may be claimed.
pub open spec fn is_first_eligible(ts: Seq<TaskView>, now: i64, k: int) -> bool {
    &&& 0 <= k < ts.len()
    &&& eligible(ts[k], now)
    &&& forall|i: int| 0 <= i < k ==> !eligible(#[trigger] ts[i], now)
}

/// Whether some task may be claimed.
pub open spec fn some_eligible(ts: Seq<TaskView>, now: i64) -> bool {
    exists|k: int| is_first_eligible(ts, now, k)
}

/// The position of the first task that may be claimed, where there is one.
pub open spec fn first_eligible(ts: Seq<TaskView>, now: i64) -> int {
    choose|k: int| is_first_eligible(ts, now, k)
}

/// A claim as one step: the first task that may be claimed becomes
/// executing and is handed out with its position; if there is none, nothing
/// changes and nothing is handed out.
pub open spec fn claim_step(q: QueueView, now: i64) -> (QueueView, Option<(int, TaskView)>) {
    if some_eligible(q.tasks, now) {
        let k = first_eligible(q.tasks, now);
        let t = claimed(q.tasks[k], q.policy, now);
        (QueueView { tasks: q.tasks.update(k, t), policy: q.policy }, Some((k, t)))
    } else {
        (q, None)
    }
}

/// Reporting an outcome as one step: if the ticket names an executing task,
/// the task moves on as `task_after_outcome` says and its new status is
/// answered; otherwise nothing changes and nothing is answered.
pub open spec fn record_step(
    q: QueueView,
    ticket: int,
    outcome: Result<(), DeliveryFailure>,
    now: i64,
    entropy: u128,
) -> (QueueView, Option<TaskStatus>) {
    if 0 <= ticket < q.tasks.len() && q.tasks[ticket].status == TaskStatus::Executing {
        let t = task_after_outcome(q.tasks[ticket], q.policy, outcome, now, entropy);
        (QueueView { tasks: q.tasks.update(ticket, t), policy: q.policy }, Some(t.status))
    } else {
        (q, None)
    }
}

/// The reaper's pass as one step: every task whose lease has run out is
/// queued again.
pub open spec fn reap_step(q: QueueView, now: i64) -> QueueView {
    QueueView {
        tasks: Seq::new(q.tasks.len(), |i: int| reaped(q.tasks[i], now)),
        policy: q.policy,
    }
}

/// The queue after a fresh task was added at its end.
pub open spec fn enqueue_step(
    q: QueueView,
    newsletter_id: u128,
    subscriber_id: u128,
    recipient_email: Seq<char>,
    now: i64,
) -> QueueView {
    QueueView {
        tasks: q.tasks.push(fresh_task(newsletter_id, subscriber_id, recipient_email, now)),
        policy: q.policy,
    }
}

/// What a claim handed out, as a mathematical value.
pub open spec fn claim_view(c: Option<Claim>) -> Option<(int, TaskView)> {
    match c {
        Some(c) => Some((c.ticket as int, c.task@)),
        None => None,
    }
}

/// The first task that may be claimed is determined.
pub proof fn lemma_first_eligible_unique(ts: Seq<TaskView>, now: i64, k: int)
    requires
        is_first_eligible(ts, now, k),
    ensures
        some_eligible(ts, now),
        first_eligible(ts, now) == k,
{
    let c = first_eligible(ts, now);
    assert(is_first_eligible(ts, now, c));
    if c < k {
        assert(!eligible(ts[c], now));
    } else if k < c {
        assert(!eligible(ts[k], now));
    }
}

/// Where a task may be claimed, there is a first such task, at or before it.
pub proof fn lemma_eligible_has_first(ts: Seq<TaskView>, now: i64, j: int)
    requires
        0 <= j < ts.len(),
        eligible(ts[j], now),
    ensures
        some_eligible(ts, now),
        first_eligible(ts, now) <= j,
    decreases j,
{
    if forall|i: int| 0 <= i < j ==> !eligible(#[trigger] ts[i], now) {
        assert(is_first_eligible(ts, now, j));
        lemma_first_eligible_unique(ts, now, j);
    } else {
        let i = choose|i: int| 0 <= i < j && eligible(#[trigger] ts[i], now);
        lemma_eligible_has_first(ts, now, i);
    }
}

/// Doubling at most twenty times stays below 2^20.
pub proof fn lemma_pow2_bound(n: nat)
    requires
        n <= 20,
    ensures
        1 <= pow2(n) <= 1048576,
{
    reveal_with_fuel(pow2, 21);
}

/// The delay before the next attempt, in seconds.
pub fn backoff_secs(policy: &RetryPolicy, attempts: u32, entropy: u128) -> (d: u128)
    ensures
        d == backoff(*policy, attempts, entropy),
{
    let doublings: u32 = if attempts <= 1 {
        0
    } else if attempts > 21 {
        20
    } else {
        attempts - 1
    };
    let mut floor: u128 = policy.base_delay_secs as u128;
    let mut k: u32 = 0;
    proof {
        assert(pow2(0) == 1) by {
            reveal_with_fuel(pow2, 1);
        }
        assert(policy.base_delay_secs as nat * 1 == policy.base_delay_secs as nat);
    }
    while k < doublings
        invariant
            0 <= k <= doublings <= 20,
            floor == policy.base_delay_secs as nat * pow2(k as nat),
            floor <= 0xffff_ffff * 1048576,
        decreases doublings - k,
    {
        proof {
            lemma_pow2_bound((k + 1) as nat);
            assert(pow2((k + 1) as nat) == 2 * pow2(k as nat));
            assert(policy.base_delay_secs as nat * (2 * pow2(k as nat)) == 2 * (
            policy.base_delay_secs as nat * pow2(k as nat))) by (nonlinear_arith);
            assert(policy.base_delay_secs as nat * pow2((k + 1) as nat) <= 0xffff_ffff * 1048576)
                by (nonlinear_arith)
                requires
                    policy.base_delay_secs <= 0xffff_ffff,
                    pow2((k + 1) as nat) <= 1048576,
            ;
        }
        floor = floor * 2;
        k = k + 1;
    }
    floor + entropy % (floor + 1)
}

/// The time `delay` seconds after `now`, moved to the clock's end if it
/// does not fit.
pub fn later(now: i64, delay: u128) -> (t: i64)
    ensures
        t == clamp_time(now + delay),
{
    if delay > 0xffff_ffff_ffff_ffff {
        i64::MAX
    } else {
        let sum: i128 = now as i128 + delay as i128;
        if sum > i64::MAX as i128 {
            i64::MAX
        } else {
            sum as i64
        }
    }
}

/// Whether a task went from `before` to `after` by a legal move: it stayed
/// as it was, it was claimed, or it left the executing state for a final
/// state or for the queue. No move changes what the task is about, and
/// none lowers the count of attempts or of retries.
pub open spec fn moved_legally(before: TaskView, after: TaskView) -> bool {
    &&& after.newsletter_id == before.newsletter_id
    &&& after.subscriber_id == before.subscriber_id
    &&& after.recipient_email == before.recipient_email
    &&& after.attempts >= before.attempts
    &&& after.n_retries >= before.n_retries
    &&& {
        ||| after == before
        ||| before.status == TaskStatus::Queued && after.status == TaskStatus::Executing
        ||| before.status == TaskStatus::Executing && after.status != TaskStatus::Executing
    }
    &&& is_terminal(before.status) ==> after == before
}

/// Every step of the queue keeps its rule and its length and moves each
/// task legally; in particular a final task is never touched again, and
/// the fields that say what a task is about never change.
pub proof fn lemma_steps_move_legally(
    q: QueueView,
    ticket: int,
    outcome: Result<(), DeliveryFailure>,
    now: i64,
    entropy: u128,
    i: int,
)
    requires
        queue_wf(q),
        0 <= i < q.tasks.len(),
    ensures
        queue_wf(claim_step(q, now).0),
        queue_wf(record_step(q, ticket, outcome, now, entropy).0),
        queue_wf(reap_step(q, now)),
        claim_step(q, now).0.tasks.len() == q.tasks.len(),
        record_step(q, ticket, outcome, now, entropy).0.tasks.len() == q.tasks.len(),
        reap_step(q, now).tasks.len() == q.tasks.len(),
        moved_legally(q.tasks[i], claim_step(q, now).0.tasks[i]),
        moved_legally(q.tasks[i], record_step(q, ticket, outcome, now, entropy).0.tasks[i]),
        moved_legally(q.tasks[i], reap_step(q, now).tasks[i]),
{
    assert(task_wf(q.tasks[i], q.policy));
    let c = claim_step(q, now).0;
    if some_eligible(q.tasks, now) {
        let k = first_eligible(q.tasks, now);
        assert(is_first_eligible(q.tasks, now, k));
    }
    assert forall|j: int| 0 <= j < c.tasks.len() implies task_wf(
        #[trigger] c.tasks[j],
        c.policy,
    ) by {
        assert(task_wf(q.tasks[j], q.policy));
    }
    let r = record_step(q, ticket, outcome, now, entropy).0;
    assert forall|j: int| 0 <= j < r.tasks.len() implies task_wf(
        #[trigger] r.tasks[j],
        r.policy,
    ) by {
        assert(task_wf(q.tasks[j], q.policy));
    }
    let p = reap_step(q, now);
    assert forall|j: int| 0 <= j < p.tasks.len() implies task_wf(
        #[trigger] p.tasks[j],
        p.policy,
    ) by {
        assert(task_wf(q.tasks[j], q.policy));
    }
}

/// A permanent failure ends the task at once: it is failed, the failed
/// attempt is counted, and it was not retried.
pub proof fn lemma_permanent_failure_is_final(
    t: TaskView,
    policy: RetryPolicy,
    now: i64,
    entropy: u128,
)
    requires
        task_wf(t, policy),
        t.status == TaskStatus::Executing,
    ensures
        ({
            let after = task_after_outcome(
                t,
                policy,
                Err(DeliveryFailure::Permanent),
                now,
                entropy,
            );
            &&& after.status == TaskStatus::Failed
            &&& after.attempts == t.attempts + 1
            &&& after.n_retries == t.n_retries
            &&& after.available_at == t.available_at
        }),
{
}

/// One round of the retry cycle: when the task was claimed, when its attempt
/// failed, and the random number for the jitter.
pub struct Round {
    pub claimed_at: i64,
    pub failed_at: i64,
    pub entropy: u128,
}

/// The task after a run of rounds in each of which it was claimed and then
/// failed transiently. A round finds nothing to do once the task has left
/// the queue for good.
pub open spec fn after_transient_rounds(t: TaskView, policy: RetryPolicy, rounds: Seq<Round>)
    -> TaskView
    decreases rounds.len(),
{
    if rounds.len() == 0 {
        t
    } else {
        let before = after_transient_rounds(t, policy, rounds.drop_last());
        if before.status == TaskStatus::Queued {
            task_after_outcome(
                claimed(before, policy, rounds.last().claimed_at),
                policy,
                Err(DeliveryFailure::Transient),
                rounds.last().failed_at,
                rounds.last().entropy,
            )
        } else {
            before
        }
    }
}

/// How many more transient failures a queued task survives before it is
/// given up: those that are left up to `max_retries`, and at least one.
pub open spec fn attempts_left(t: TaskView, policy: RetryPolicy) -> nat {
    if t.attempts + 1 >= policy.max_retries {
        1
    } else {
        (policy.max_retries - t.attempts) as nat
    }
}

/// A queued task that fails transiently in every round is retried until its
/// attempts are used up, and is failed from then on: after fewer rounds
/// than it has attempts left it is queued again with one more attempt and
/// one more retry counted per round; after that many rounds or more it is
/// failed, with exactly that many attempts added.
pub proof fn lemma_transient_failures_exhaust(
    t: TaskView,
    policy: RetryPolicy,
    rounds: Seq<Round>,
)
    requires
        task_wf(t, policy),
        t.status == TaskStatus::Queued,
    ensures
        ({
            let after = after_transient_rounds(t, policy, rounds);
            let left = attempts_left(t, policy);
            &&& task_wf(after, policy)
            &&& rounds.len() < left ==> after.status == TaskStatus::Queued && after.attempts
                == t.attempts + rounds.len() && after.n_retries == t.n_retries + rounds.len()
            &&& rounds.len() >= left ==> after.status == TaskStatus::Failed && after.attempts
                == t.attempts + left && after.n_retries == t.n_retries + left - 1
        }),
    decreases rounds.len(),
{
    if rounds.len() > 0 {
        lemma_transient_failures_exhaust(t, policy, rounds.drop_last());
    }
}

/// A task whose lease has run out is recovered: the reaper's pass puts it
/// back in the queue with its attempts as they were, claimable at once, and
/// the next claim hands out a task at or before its position: this very
/// task, if no earlier one is waiting (and after the earlier ones
/// otherwise, as `lemma_waiting_task_is_reached` says).
pub proof fn lemma_expired_lease_is_recovered(q: QueueView, k: int, now: i64)
    requires
        0 <= k < q.tasks.len(),
        lease_expired(q.tasks[k], now),
    ensures
        ({
            let swept = reap_step(q, now);
            let again = claim_step(swept, now);
            &&& swept.tasks[k].status == TaskStatus::Queued
            &&& swept.tasks[k].attempts == q.tasks[k].attempts
            &&& eligible(swept.tasks[k], now)
            &&& again.1 is Some
            &&& again.1.unwrap().0 <= k
            &&& again.0.tasks[again.1.unwrap().0].status == TaskStatus::Executing
            &&& (forall|i: int| 0 <= i < k ==> !eligible(#[trigger] swept.tasks[i], now))
                ==> again.1 == Some((k, claimed(swept.tasks[k], q.policy, now)))
        }),
{
    let swept = reap_step(q, now);
    lemma_eligible_has_first(swept.tasks, now, k);
    let f = first_eligible(swept.tasks, now);
    assert(is_first_eligible(swept.tasks, now, f));
    if forall|i: int| 0 <= i < k ==> !eligible(#[trigger] swept.tasks[i], now) {
        assert(is_first_eligible(swept.tasks, now, k));
        lemma_first_eligible_unique(swept.tasks, now, k);
    }
}

/// The queue after `n` claims in a row at the same time.
pub open spec fn after_claims(q: QueueView, now: i64, n: nat) -> QueueView
    decreases n,
{
    if n == 0 {
        q
    } else {
        after_claims(claim_step(q, now).0, now, (n - 1) as nat)
    }
}

/// A delivery that is waiting and available is reached: after at most as
/// many claims as there are rows before it, the next claim hands it out.
pub proof fn lemma_waiting_task_is_reached(q: QueueView, now: i64, k: int) -> (n: nat)
    requires
        0 <= k < q.tasks.len(),
        eligible(q.tasks[k], now),
    ensures
        n <= k - first_eligible(q.tasks, now),
        n <= k,
        claim_step(after_claims(q, now, n), now).1 == Some(
            (k, claimed(q.tasks[k], q.policy, now)),
        ),
    decreases k - first_eligible(q.tasks, now),
{
    lemma_eligible_has_first(q.tasks, now, k);
    let f = first_eligible(q.tasks, now);
    assert(is_first_eligible(q.tasks, now, f));
    if f == k {
        0
    } else {
        let q1 = claim_step(q, now).0;
        assert(q1.tasks[k] == q.tasks[k]);
        lemma_eligible_has_first(q1.tasks, now, k);
        let f1 = first_eligible(q1.tasks, now);
        assert(is_first_eligible(q1.tasks, now, f1));
        assert(f1 > f) by {
            if f1 < f {
                assert(q1.tasks[f1] == q.tasks[f1]);
                assert(!eligible(q.tasks[f1], now));
            } else if f1 == f {
                assert(!eligible(q1.tasks[f], now));
            }
        }
        let n1 = lemma_waiting_task_is_reached(q1, now, k);
        (n1 + 1) as nat
    }
}

/// A claim holds its task from the time of the claim up to and including
/// the time until which the task is leased: no reaper's pass in that time
/// takes the task back. Where the lease is not zero and the clock has not
/// reached its end, the lease ends after the time of the claim.
pub proof fn lemma_lease_holds_until_it_ends(
    t: TaskView,
    policy: RetryPolicy,
    claimed_at: i64,
    now: i64,
)
    ensures
        claimed(t, policy, claimed_at).leased_until is Some,
        claimed(t, policy, claimed_at).leased_until.unwrap() >= claimed_at,
        now <= claimed(t, policy, claimed_at).leased_until.unwrap() ==> reaped(
            claimed(t, policy, claimed_at),
            now,
        ) == claimed(t, policy, claimed_at),
        policy.lease_secs > 0 && claimed_at < i64::MAX ==> claimed(
            t,
            policy,
            claimed_at,
        ).leased_until.unwrap() > claimed_at,
{
}

/// A task that goes back to the queue after a transient failure waits for
/// its backoff: it is available no earlier than now, and, where the base
/// delay is not zero and the clock has not reached its end, later than now,
/// so that a claim at the time of the failure does not hand it out.
pub proof fn lemma_retry_is_delayed(t: TaskView, policy: RetryPolicy, now: i64, entropy: u128)
    requires
        task_wf(t, policy),
        t.status == TaskStatus::Executing,
        t.attempts + 1 < policy.max_retries,
    ensures
        ({
            let after = task_after_outcome(
                t,
                policy,
                Err(DeliveryFailure::Transient),
                now,
                entropy,
            );
            &&& after.status == TaskStatus::Queued
            &&& after.available_at >= now
            &&& policy.base_delay_secs > 0 && now < i64::MAX ==> after.available_at > now
                && !eligible(after, now)
        }),
{
    let attempts = (t.attempts + 1) as u32;
    lemma_pow2_bound(doublings(attempts));
    if policy.base_delay_secs > 0 {
        assert(policy.base_delay_secs as nat * pow2(doublings(attempts)) >= 1)
            by (nonlinear_arith)
            requires
                policy.base_delay_secs >= 1,
                pow2(doublings(attempts)) >= 1,
        ;
    }
}

/// A claim that is never followed by a report does not hold its task for
/// ever: once the lease that the claim started has run out, the task counts
/// as expired, so that the reaper recovers it.
pub proof fn lemma_abandoned_claim_expires(q: QueueView, claimed_at: i64, now: i64)
    requires
        claim_step(q, claimed_at).1 is Some,
        now > clamp_time(claimed_at + q.policy.lease_secs),
    ensures
        ({
            let step = claim_step(q, claimed_at);
            let k = step.1.unwrap().0;
            &&& 0 <= k < step.0.tasks.len()
            &&& step.0.tasks[k] == step.1.unwrap().1
            &&& lease_expired(step.0.tasks[k], now)
        }),
{
    let k = first_eligible(q.tasks, claimed_at);
    assert(is_first_eligible(q.tasks, claimed_at, k));
}

/// The queue of delivery tasks: a table that only grows, in which every
/// task keeps its position.
pub struct DeliveryQueue {
    tasks: Vec<DeliveryTask>,
    policy: RetryPolicy,
}

impl View for DeliveryQueue {
    type V = QueueView;

    closed spec fn view(&self) -> QueueView {
        QueueView { tasks: tasks_of(self.tasks@), policy: self.policy }
    }
}

impl DeliveryQueue {
    /// The queue's rule holds of its tasks.
    pub open spec fn wf(&self) -> bool {
        queue_wf(self@)
    }

    /// An empty queue under the given policy.
    pub fn new(policy: RetryPolicy) -> (q: DeliveryQueue)
        ensures
            q.wf(),
            q@ == (QueueView { tasks: Seq::<TaskView>::empty(), policy: policy }),
    {
        let q = DeliveryQueue { tasks: Vec::new(), policy: policy };
        assert(q@.tasks =~= Seq::<TaskView>::empty());
        q
    }

    /// The policy the queue was made with.
    pub fn policy(&self) -> (p: RetryPolicy)
        ensures
            p == self@.policy,
    {
        self.policy
    }

    /// The number of tasks, final ones included.
    pub fn len(&self) -> (n: usize)
        ensures
            n == self@.tasks.len(),
    {
        self.tasks.len()
    }

    /// The task at a position.
    pub fn task(&self, i: usize) -> (t: &DeliveryTask)
        requires
            i < self@.tasks.len(),
        ensures
            t@ == self@.tasks[i as int],
    {
        &self.tasks[i]
    }

    /// Adds a fresh task at the end: queued, never tried, claimable from
    /// `now` on.
    pub fn enqueue(
        &mut self,
        newsletter_id: u128,
        subscriber_id: u128,
        recipient_email: String,
        now: i64,
    )
        requires
            old(self).wf(),
        ensures
            final(self).wf(),
            final(self)@ == enqueue_step(
                old(self)@,
                newsletter_id,
                subscriber_id,
                recipient_email@,
                now,
            ),
    {
        let ghost before = self@;
        let task = DeliveryTask {
            newsletter_id: newsletter_id,
            subscriber_id: subscriber_id,
            recipient_email: recipient_email,
            attempts: 0,
            status: TaskStatus::Queued,
            n_retries: 0,
            available_at: now,
            leased_until: None,
        };
        self.tasks.push(task);
        assert(self@.tasks =~= before.tasks.push(task@));
    }

    /// Claims the first task that is queued and available at `now`: marks it
    /// as executing under a lease and hands it out with its ticket. With no
    /// such task nothing changes.
    pub fn claim_at(&mut self, now: i64) -> (c: Option<Claim>)
        requires
            old(self).wf(),
        ensures
            final(self).wf(),
            (final(self)@, claim_view(c)) == claim_step(old(self)@, now),
    {
        let ghost before = self@;
        let mut i: usize = 0;
        while i < self.tasks.len()
            invariant
                0 <= i <= self.tasks@.len(),
                self@ == before,
                before == old(self)@,
                queue_wf(before),
                forall|j: int| 0 <= j < i ==> !eligible(#[trigger] before.tasks[j], now),
            decreases self.tasks@.len() - i,
        {
            assert(before.tasks[i as int] == self.tasks@[i as int]@);
            if self.tasks[i].status == TaskStatus::Queued && self.tasks[i].available_at <= now {
                let mut task = self.tasks[i].duplicate();
                task.status = TaskStatus::Executing;
                task.leased_until = Some(later(now, self.policy.lease_secs as u128));
                let handed = task.duplicate();
                self.tasks.set(i, task);
                proof {
                    assert(is_first_eligible(before.tasks, now, i as int));
                    lemma_first_eligible_unique(before.tasks, now, i as int);
                    assert(handed@ == claimed(before.tasks[i as int], before.policy, now));
                    assert(self@.tasks =~= before.tasks.update(i as int, handed@));
                    assert forall|j: int| 0 <= j < self@.tasks.len() implies task_wf(
                        #[trigger] self@.tasks[j],
                        self@.policy,
                    ) by {
                        assert(task_wf(before.tasks[j], before.policy));
                    }
                }
                return Some(Claim { ticket: i, task: handed });
            }
            i = i + 1;
        }
        proof {
            if some_eligible(before.tasks, now) {
                let k = first_eligible(before.tasks, now);
                assert(is_first_eligible(before.tasks, now, k));
                assert(!eligible(before.tasks[k], now));
            }
        }
        None
    }

    /// Records the outcome of the attempt made under `ticket`, at time `now`
    /// and with `entropy` for the jitter. Answers the task's new status; a
    /// ticket that names no executing task changes nothing.
    pub fn record_with(
        &mut self,
        ticket: usize,
        outcome: Result<(), DeliveryFailure>,
        now: i64,
        entropy: u128,
    ) -> (r: Option<TaskStatus>)
        requires
            old(self).wf(),
        ensures
            final(self).wf(),
            (final(self)@, r) == record_step(old(self)@, ticket as int, outcome, now, entropy),
    {
        let ghost before = self@;
        if ticket >= self.tasks.len() {
            return None;
        }
        if self.tasks[ticket].status != TaskStatus::Executing {
            return None;
        }
        assert(task_wf(before.tasks[ticket as int], before.policy));
        let mut task = self.tasks[ticket].duplicate();
        task.leased_until = None;
        match outcome {
            Ok(()) => {
                task.status = TaskStatus::Succeeded;
            },
            Err(DeliveryFailure::Permanent) => {
                task.status = TaskStatus::Failed;
                task.attempts = task.attempts + 1;
            },
            Err(DeliveryFailure::Transient) => {
                task.attempts = task.attempts + 1;
                if task.attempts < self.policy.max_retries {
                    task.status = TaskStatus::Queued;
                    task.n_retries = task.n_retries + 1;
                    task.available_at = later(
                        now,
                        backoff_secs(&self.policy, task.attempts, entropy),
                    );
                } else {
                    task.status = TaskStatus::Failed;
                }
            },
        }
        let status = task.status;
        let ghost after = task@;
        self.tasks.set(ticket, task);
        proof {
            assert(after == task_after_outcome(
                before.tasks[ticket as int],
                before.policy,
                outcome,
                now,
                entropy,
            ));
            assert(self@.tasks =~= before.tasks.update(ticket as int, after));
            assert forall|j: int| 0 <= j < self@.tasks.len() implies task_wf(
                #[trigger] self@.tasks[j],
                self@.policy,
            ) by {
                assert(task_wf(before.tasks[j], before.policy));
            }
        }
        Some(status)
    }

    /// The reaper's pass at time `now`: every executing task whose lease has
    /// run out goes back to the queue, claimable at once.
    pub fn reap_at(&mut self, now: i64)
        requires
            old(self).wf(),
        ensures
            final(self).wf(),
            final(self)@ == reap_step(old(self)@, now),
    {
        let ghost before = self@;
        let mut i: usize = 0;
        while i < self.tasks.len()
            invariant
                0 <= i <= self.tasks@.len(),
                self@.policy == before.policy,
                self@.tasks.len() == before.tasks.len(),
                queue_wf(before),
                forall|j: int| 0 <= j < i ==> #[trigger] self@.tasks[j] == reaped(
                    before.tasks[j],
                    now,
                ),
                forall|j: int| i <= j < before.tasks.len() ==> #[trigger] self@.tasks[j]
                    == before.tasks[j],
            decreases self.tasks@.len() - i,
        {
            assert(self@.tasks[i as int] == self.tasks@[i as int]@);
            let ghost middle = self@;
            let lease_over = match self.tasks[i].leased_until {
                Some(until) => until < now,
                None => false,
            };
            let expired = self.tasks[i].status == TaskStatus::Executing && lease_over;
            assert(expired == lease_expired(before.tasks[i as int], now));
            if expired {
                let mut task = self.tasks[i].duplicate();
                task.status = TaskStatus::Queued;
                task.available_at = now;
                task.leased_until = None;
                self.tasks.set(i, task);
                assert(self@.tasks =~= middle.tasks.update(i as int, task@));
            }
            i = i + 1;
        }
        proof {
            assert(self@.tasks =~= reap_step(before, now).tasks);
            assert forall|j: int| 0 <= j < self@.tasks.len() implies task_wf(
                #[trigger] self@.tasks[j],
                self@.policy,
            ) by {
                assert(task_wf(before.tasks[j], before.policy));
            }
        }
    }

    /// Records an outcome at time `now` as `record_with` does, with a random
    /// number for the jitter.
    pub fn record(&mut self, ticket: usize, outcome: Result<(), DeliveryFailure>, now: i64) -> (r:
        Option<TaskStatus>)
        requires
            old(self).wf(),
        ensures
            final(self).wf(),
            exists|entropy: u128|
                is_random_uuid(entropy) && (final(self)@, r) == #[trigger] record_step(
                    old(self)@,
                    ticket as int,
                    outcome,
                    now,
                    entropy,
                ),
    {
        let entropy = random_uuid();
        self.record_with(ticket, outcome, now, entropy)
    }
}

} // verus!
