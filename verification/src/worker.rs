//! The delivery worker: it holds at most one claimed task, asks for the
//! message to be sent, and records what became of it.

use vstd::prelude::*;
use crate::confirmation::{EmailMessage, EmailMessageView};
use crate::delivery::{claim_step, reap_step, record_step, TaskStatus};
use crate::errors::DeliveryFailure;
use crate::newsletter::{
    issuer_wf, lemma_queue_steps_keep_wf, newsletter_position, with_queue, IssuerView,
    NewsletterIssuer, NewsletterView,
};
use crate::system::{is_random_uuid, random_uuid};

verus! {

/// What the mail provider, or the wait for it, came to.
#[derive(Clone, Copy, Debug, PartialEq, Eq, Structural)]
pub enum SendReport {
    /// The provider took the message.
    Delivered,
    /// The provider failed in a way that may pass.
    Failed,
    /// The provider gave no answer in time.
    TimedOut,
    /// The provider rejects the recipient or the content.
    Rejected,
}

/// What a report means for the task: a timeout counts as a transient
/// failure.
pub open spec fn outcome_of(report: SendReport) -> Result<(), DeliveryFailure> {
    match report {
        SendReport::Delivered => Ok(()),
        SendReport::Failed => Err(DeliveryFailure::Transient),
        SendReport::TimedOut => Err(DeliveryFailure::Transient),
        SendReport::Rejected => Err(DeliveryFailure::Permanent),
    }
}

/// Reads a report as an outcome.
pub fn classify(report: SendReport) -> (r: Result<(), DeliveryFailure>)
    ensures
        r == outcome_of(report),
{
    match report {
        SendReport::Delivered => Ok(()),
        SendReport::Failed => Err(DeliveryFailure::Transient),
        SendReport::TimedOut => Err(DeliveryFailure::Transient),
        SendReport::Rejected => Err(DeliveryFailure::Permanent),
    }
}

/// What the mail provider's HTTP status means: a status from 200 to 299
/// says that the provider took the message, one from 500 to 599 is a failure
/// that may pass, and any other is a rejection.
pub open spec fn report_of_status(code: u16) -> SendReport {
    if 200 <= code <= 299 {
        SendReport::Delivered
    } else if 500 <= code <= 599 {
        SendReport::Failed
    } else {
        SendReport::Rejected
    }
}

/// Reads the mail provider's HTTP status as a report.
pub fn report_for_status(code: u16) -> (r: SendReport)
    ensures
        r == report_of_status(code),
{
    if 200 <= code && code <= 299 {
        SendReport::Delivered
    } else if 500 <= code && code <= 599 {
        SendReport::Failed
    } else {
        SendReport::Rejected
    }
}

/// What happens to a worker.
#[derive(Clone, Copy, Debug, PartialEq, Eq, Structural)]
pub enum WorkerEvent {
    /// Time to look for work.
    Tick,
    /// The send that the worker asked for has ended.
    Sent(SendReport),
    /// Time to recover tasks whose lease has run out.
    Sweep,
}

/// What a worker asks of its surroundings.
#[derive(Debug)]
pub enum WorkerAction {
    /// Nothing to do for now.
    Wait,
    /// Send this message and come back with `WorkerEvent::Sent`.
    Send(EmailMessage),
    /// The task in hand was settled with this status.
    Settled(TaskStatus),
}

/// A worker's request as a mathematical value.
pub enum ActionView {
    Wait,
    Send(EmailMessageView),
    Settled(TaskStatus),
}

impl View for WorkerAction {
    type V = ActionView;

    open spec fn view(&self) -> ActionView {
        match self {
            WorkerAction::Wait => ActionView::Wait,
            WorkerAction::Send(m) => ActionView::Send(m@),
            WorkerAction::Settled(s) => ActionView::Settled(*s),
        }
    }
}

/// The message that delivers a newsletter to a recipient.
pub open spec fn message_for(n: NewsletterView, recipient: Seq<char>) -> EmailMessageView {
    EmailMessageView {
        recipient: recipient,
        subject: n.title,
        html_body: n.html_body,
        text_body: n.text_body,
    }
}

/// The state after one step of a worker: the ticket it holds, if any, the
/// tables, and what it asks for.
pub struct StepView {
    pub in_hand: Option<int>,
    pub issuer: IssuerView,
    pub action: ActionView,
}

/// One step of a worker.
///
/// On a tick, a worker with nothing in hand claims the first available task
/// and asks for its newsletter to be sent to its recipient; if no task is
/// available, or the worker has a task in hand already, it waits. When a send
/// has ended, the outcome is recorded for the task in hand, which the worker
/// then lets go; if the task is executing no more (its lease ran out and
/// it was recovered), nothing is recorded. On a sweep, every task whose lease
/// has run out goes back to the queue.
pub open spec fn worker_step(
    in_hand: Option<int>,
    s: IssuerView,
    event: WorkerEvent,
    now: i64,
    entropy: u128,
) -> StepView {
    match event {
        WorkerEvent::Tick => match in_hand {
            Some(_) => StepView { in_hand: in_hand, issuer: s, action: ActionView::Wait },
            None => match claim_step(s.queue, now).1 {
                None => StepView { in_hand: None, issuer: s, action: ActionView::Wait },
                Some(claim) => StepView {
                    in_hand: Some(claim.0),
                    issuer: with_queue(s, claim_step(s.queue, now).0),
                    action: ActionView::Send(
                        message_for(
                            s.newsletters[newsletter_position(
                                s.newsletters,
                                claim.1.newsletter_id,
                            )],
                            claim.1.recipient_email,
                        ),
                    ),
                },
            },
        },
        WorkerEvent::Sent(report) => match in_hand {
            None => StepView { in_hand: None, issuer: s, action: ActionView::Wait },
            Some(ticket) => match record_step(
                s.queue,
                ticket,
                outcome_of(report),
                now,
                entropy,
            ).1 {
                None => StepView { in_hand: None, issuer: s, action: ActionView::Wait },
                Some(status) => StepView {
                    in_hand: None,
                    issuer: with_queue(
                        s,
                        record_step(s.queue, ticket, outcome_of(report), now, entropy).0,
                    ),
                    action: ActionView::Settled(status),
                },
            },
        },
        WorkerEvent::Sweep => StepView {
            in_hand: in_hand,
            issuer: with_queue(s, reap_step(s.queue, now)),
            action: ActionView::Wait,
        },
    }
}

/// Every step of a worker keeps the rule of the tables, leaves the
/// newsletters and the saved responses alone, and adds or removes no task.
pub proof fn lemma_worker_keeps_wf(
    in_hand: Option<int>,
    s: IssuerView,
    event: WorkerEvent,
    now: i64,
    entropy: u128,
)
    requires
        issuer_wf(s),
    ensures
        issuer_wf(worker_step(in_hand, s, event, now, entropy).issuer),
        worker_step(in_hand, s, event, now, entropy).issuer.newsletters == s.newsletters,
        worker_step(in_hand, s, event, now, entropy).issuer.records == s.records,
        worker_step(in_hand, s, event, now, entropy).issuer.queue.tasks.len()
            == s.queue.tasks.len(),
{
    let ticket = match in_hand {
        Some(t) => t,
        None => 0,
    };
    let outcome = match event {
        WorkerEvent::Sent(report) => outcome_of(report),
        _ => Ok(()),
    };
    lemma_queue_steps_keep_wf(s, ticket, outcome, now, entropy);
}

/// What a step handed back, as a mathematical value.
pub open spec fn in_hand_view(t: Option<usize>) -> Option<int> {
    match t {
        Some(t) => Some(t as int),
        None => None,
    }
}

/// A delivery worker.
#[derive(Debug)]
pub struct DeliveryWorker {
    in_hand: Option<usize>,
}

impl View for DeliveryWorker {
    type V = Option<int>;

    closed spec fn view(&self) -> Option<int> {
        in_hand_view(self.in_hand)
    }
}

impl DeliveryWorker {
    /// A worker with nothing in hand.
    pub fn new() -> (w: DeliveryWorker)
        ensures
            w@ is None,
    {
        DeliveryWorker { in_hand: None }
    }

    /// The ticket of the task in hand.
    pub fn in_hand(&self) -> (t: Option<usize>)
        ensures
            in_hand_view(t) == self@,
    {
        self.in_hand
    }

    /// Takes one step, at time `now` and with `entropy` for the jitter of a
    /// retry.
    pub fn step_with(
        &mut self,
        issuer: &mut NewsletterIssuer,
        event: WorkerEvent,
        now: i64,
        entropy: u128,
    ) -> (action: WorkerAction)
        requires
            old(issuer).wf(),
        ensures
            final(issuer).wf(),
            (StepView { in_hand: final(self)@, issuer: final(issuer)@, action: action@ })
                == worker_step(old(self)@, old(issuer)@, event, now, entropy),
    {
        let ghost before = issuer@;
        proof {
            lemma_queue_steps_keep_wf(before, 0, Ok(()), now, entropy);
        }
        match event {
            WorkerEvent::Tick => {
                if self.in_hand.is_some() {
                    return WorkerAction::Wait;
                }
                match issuer.claim_at(now) {
                    None => WorkerAction::Wait,
                    Some(claim) => {
                        self.in_hand = Some(claim.ticket);
                        match issuer.newsletters().position(claim.task.newsletter_id) {
                            Some(p) => {
                                let n = issuer.newsletters().row(p);
                                WorkerAction::Send(
                                    EmailMessage {
                                        recipient: claim.task.recipient_email,
                                        subject: n.title.clone(),
                                        html_body: n.html_body.clone(),
                                        text_body: n.text_body.clone(),
                                    },
                                )
                            },
                            None => WorkerAction::Wait,
                        }
                    },
                }
            },
            WorkerEvent::Sent(report) => {
                match self.in_hand {
                    None => WorkerAction::Wait,
                    Some(ticket) => {
                        self.in_hand = None;
                        match issuer.record_with(ticket, classify(report), now, entropy) {
                            None => WorkerAction::Wait,
                            Some(status) => WorkerAction::Settled(status),
                        }
                    },
                }
            },
            WorkerEvent::Sweep => {
                issuer.reap_at(now);
                WorkerAction::Wait
            },
        }
    }

    /// Takes one step at time `now` as `step_with` does, with a random
    /// number for the jitter.
    pub fn step(&mut self, issuer: &mut NewsletterIssuer, event: WorkerEvent, now: i64) -> (action:
        WorkerAction)
        requires
            old(issuer).wf(),
        ensures
            final(issuer).wf(),
            exists|entropy: u128|
                is_random_uuid(entropy) && (StepView {
                    in_hand: final(self)@,
                    issuer: final(issuer)@,
                    action: action@,
                }) == #[trigger] worker_step(old(self)@, old(issuer)@, event, now, entropy),
    {
        let entropy = random_uuid();
        self.step_with(issuer, event, now, entropy)
    }
}

} // verus!
