//! Publishing a newsletter: answered once per owner and idempotency key,
//! with one delivery task per confirmed subscriber, written all together
//! or not at all.

use vstd::prelude::*;
use crate::delivery::{
    claim_step, claim_view, first_eligible, fresh_task, is_first_eligible,
    lemma_steps_move_legally, queue_wf, reap_step, record_step, some_eligible, task_wf, Claim,
    DeliveryQueue, QueueView, RetryPolicy, TaskStatus, TaskView,
};
use crate::domain::ValidationError;
use crate::encoding::{ascii_bytes, hex32, hex_bytes};
use crate::errors::{DeliveryFailure, Error, StoreError};
use crate::idempotency::{
    has_record, lemma_save_then_get, record_for, records_wf, saved_response,
    IdempotencyStore, RecordView, ResponseView, SavedResponse,
};
use crate::subscriber::{confirmed_of, views_of, SubscriberStore, SubscriberView};
use crate::system::{is_random_uuid, random_uuid};

verus! {

/// One issue of the newsletter.
#[derive(Debug)]
pub struct Newsletter {
    pub id: u128,
    pub title: String,
    pub html_body: String,
    pub text_body: String,
    /// Seconds since the Unix epoch.
    pub created_at: i64,
}

/// A newsletter as a mathematical value.
pub struct NewsletterView {
    pub id: u128,
    pub title: Seq<char>,
    pub html_body: Seq<char>,
    pub text_body: Seq<char>,
    pub created_at: i64,
}

impl View for Newsletter {
    type V = NewsletterView;

    open spec fn view(&self) -> NewsletterView {
        NewsletterView {
            id: self.id,
            title: self.title@,
            html_body: self.html_body@,
            text_body: self.text_body@,
            created_at: self.created_at,
        }
    }
}

impl Newsletter {
    /// A copy with the same content.
    pub fn duplicate(&self) -> (r: Newsletter)
        ensures
            r@ == self@,
    {
        Newsletter {
            id: self.id,
            title: self.title.clone(),
            html_body: self.html_body.clone(),
            text_body: self.text_body.clone(),
            created_at: self.created_at,
        }
    }
}

/// A request to publish.
#[derive(Debug)]
pub struct PublishRequest {
    pub owner_id: String,
    pub idempotency_key: String,
    pub title: String,
    pub html_body: String,
    pub text_body: String,
}

/// A publish request as a mathematical value.
pub struct RequestView {
    pub owner_id: Seq<char>,
    pub idempotency_key: Seq<char>,
    pub title: Seq<char>,
    pub html_body: Seq<char>,
    pub text_body: Seq<char>,
}

impl View for PublishRequest {
    type V = RequestView;

    open spec fn view(&self) -> RequestView {
        RequestView {
            owner_id: self.owner_id@,
            idempotency_key: self.idempotency_key@,
            title: self.title@,
            html_body: self.html_body@,
            text_body: self.text_body@,
        }
    }
}

/// Who gets a newsletter.
#[derive(Debug)]
pub struct Recipient {
    pub subscriber_id: u128,
    pub email: String,
}

/// A recipient as a mathematical value.
pub struct RecipientView {
    pub subscriber_id: u128,
    pub email: Seq<char>,
}

impl View for Recipient {
    type V = RecipientView;

    open spec fn view(&self) -> RecipientView {
        RecipientView { subscriber_id: self.subscriber_id, email: self.email@ }
    }
}

/// All that one publish request writes: the newsletter, its recipients,
/// and the response to save under the owner and key.
#[derive(Debug)]
pub struct PublishBatch {
    pub newsletter: Newsletter,
    pub recipients: Vec<Recipient>,
    pub owner_id: String,
    pub idempotency_key: String,
    pub response: SavedResponse,
}

/// A batch as a mathematical value.
pub struct BatchView {
    pub newsletter: NewsletterView,
    pub recipients: Seq<RecipientView>,
    pub owner_id: Seq<char>,
    pub idempotency_key: Seq<char>,
    pub response: ResponseView,
}

/// The views of a run of recipients.
pub open spec fn recipients_view(rows: Seq<Recipient>) -> Seq<RecipientView> {
    rows.map_values(|r: Recipient| r@)
}

impl View for PublishBatch {
    type V = BatchView;

    open spec fn view(&self) -> BatchView {
        BatchView {
            newsletter: self.newsletter@,
            recipients: recipients_view(self.recipients@),
            owner_id: self.owner_id@,
            idempotency_key: self.idempotency_key@,
            response: self.response@,
        }
    }
}

/// What the read phase of a publish request found.
#[derive(Debug)]
pub enum Prepared {
    /// The request was answered before: this is the answer.
    Replay(SavedResponse),
    /// The request is new: this is what remains to be written.
    Batch(PublishBatch),
}

/// The result of the read phase as a mathematical value.
pub enum PreparedView {
    Replay(ResponseView),
    Batch(BatchView),
}

impl View for Prepared {
    type V = PreparedView;

    open spec fn view(&self) -> PreparedView {
        match self {
            Prepared::Replay(r) => PreparedView::Replay(r@),
            Prepared::Batch(b) => PreparedView::Batch(b@),
        }
    }
}

/// The views of a run of newsletters.
pub open spec fn newsletters_of(rows: Seq<Newsletter>) -> Seq<NewsletterView> {
    rows.map_values(|n: Newsletter| n@)
}

/// Whether a newsletter with the identifier is stored.
pub open spec fn has_newsletter(ns: Seq<NewsletterView>, id: u128) -> bool {
    exists|i: int| 0 <= i < ns.len() && (#[trigger] ns[i]).id == id
}

/// The table's rule: no identifier occurs in two rows.
pub open spec fn newsletters_wf(ns: Seq<NewsletterView>) -> bool {
    forall|i: int, j: int| 0 <= i < j < ns.len() ==> (#[trigger] ns[i]).id != (#[trigger] ns[j]).id
}

/// The position of the newsletter with the identifier, where it is stored.
pub open spec fn newsletter_position(ns: Seq<NewsletterView>, id: u128) -> int {
    choose|i: int| 0 <= i < ns.len() && (#[trigger] ns[i]).id == id
}

/// Storing a newsletter as one step: refused, with nothing changed, where
/// the identifier is stored already; otherwise the new row stands last.
pub open spec fn store_step(ns: Seq<NewsletterView>, n: NewsletterView) -> (
    Seq<NewsletterView>,
    Result<(), StoreError>,
) {
    if has_newsletter(ns, n.id) {
        (ns, Err(StoreError::DuplicateNewsletterId))
    } else {
        (ns.push(n), Ok(()))
    }
}

/// The table of newsletters, in the order in which they were published.
pub struct NewsletterStore {
    rows: Vec<Newsletter>,
}

impl View for NewsletterStore {
    type V = Seq<NewsletterView>;

    closed spec fn view(&self) -> Seq<NewsletterView> {
        newsletters_of(self.rows@)
    }
}

impl NewsletterStore {
    /// The table's rule holds of its rows.
    pub open spec fn wf(&self) -> bool {
        newsletters_wf(self@)
    }

    /// An empty table.
    pub fn new() -> (s: NewsletterStore)
        ensures
            s.wf(),
            s@ == Seq::<NewsletterView>::empty(),
    {
        let s = NewsletterStore { rows: Vec::new() };
        assert(s@ =~= Seq::<NewsletterView>::empty());
        s
    }

    /// The number of newsletters.
    pub fn len(&self) -> (n: usize)
        ensures
            n == self@.len(),
    {
        self.rows.len()
    }

    /// The position of the newsletter with the identifier.
    pub fn position(&self, id: u128) -> (r: Option<usize>)
        ensures
            r is Some <==> has_newsletter(self@, id),
            r matches Some(i) ==> i < self@.len() && self@[i as int].id == id,
            r matches Some(i) ==> self.wf() ==> i == newsletter_position(self@, id),
    {
        let mut i: usize = 0;
        while i < self.rows.len()
            invariant
                0 <= i <= self.rows@.len(),
                forall|j: int| 0 <= j < i ==> (#[trigger] self@[j]).id != id,
            decreases self.rows@.len() - i,
        {
            if self.rows[i].id == id {
                assert(self@[i as int].id == id);
                return Some(i);
            }
            i = i + 1;
        }
        None
    }

    /// The newsletter at a position.
    pub fn row(&self, i: usize) -> (n: &Newsletter)
        requires
            i < self@.len(),
        ensures
            n@ == self@[i as int],
    {
        &self.rows[i]
    }

    /// Stores a newsletter, unless its identifier is stored already.
    pub fn insert(&mut self, n: Newsletter) -> (r: Result<(), StoreError>)
        requires
            old(self).wf(),
        ensures
            final(self).wf(),
            (final(self)@, r) == store_step(old(self)@, n@),
    {
        if self.position(n.id).is_some() {
            return Err(StoreError::DuplicateNewsletterId);
        }
        let ghost before = self@;
        self.rows.push(n);
        proof {
            assert(self@ =~= before.push(n@));
            assert forall|i: int, j: int| 0 <= i < j < self@.len() implies (#[trigger] self@[i]).id
                != (#[trigger] self@[j]).id by {
                if j == before.len() {
                    assert(before[i].id != n@.id);
                } else {
                    assert(before[i].id != before[j].id);
                }
            }
        }
        Ok(())
    }
}

/// The verdict on a publish request: the title and the two bodies must each
/// be non-empty, judged in this order. The owner and the key are opaque:
/// any text is a key, the empty text too.
pub open spec fn request_verdict(req: RequestView) -> Result<(), ValidationError> {
    if req.title.len() == 0 {
        Err(ValidationError::EmptyTitle)
    } else if req.html_body.len() == 0 {
        Err(ValidationError::EmptyHtmlBody)
    } else if req.text_body.len() == 0 {
        Err(ValidationError::EmptyTextBody)
    } else {
        Ok(())
    }
}

/// The response to a publish request that was carried out: status 202 and,
/// as the body, the newsletter's identifier in 32 hexadecimal digits.
pub open spec fn accepted_response(newsletter_id: u128) -> ResponseView {
    ResponseView { status: 202, body: ascii_bytes(hex32(newsletter_id)) }
}

/// The recipient that a subscriber makes.
pub open spec fn recipient_of(s: SubscriberView) -> RecipientView {
    RecipientView { subscriber_id: s.id, email: s.email }
}

/// The recipients of a newsletter: the confirmed subscribers, in the order
/// of the subscriber table.
pub open spec fn recipients_among(subscribers: Seq<SubscriberView>) -> Seq<RecipientView> {
    confirmed_of(subscribers).map_values(|s: SubscriberView| recipient_of(s))
}

/// The batch that a new, valid publish request asks to write.
pub open spec fn batch_for(
    subscribers: Seq<SubscriberView>,
    req: RequestView,
    newsletter_id: u128,
    now: i64,
) -> BatchView {
    BatchView {
        newsletter: NewsletterView {
            id: newsletter_id,
            title: req.title,
            html_body: req.html_body,
            text_body: req.text_body,
            created_at: now,
        },
        recipients: recipients_among(subscribers),
        owner_id: req.owner_id,
        idempotency_key: req.idempotency_key,
        response: accepted_response(newsletter_id),
    }
}

/// The tasks that a batch adds to the queue: one per recipient, in order.
pub open spec fn batch_tasks(b: BatchView) -> Seq<TaskView> {
    b.recipients.map_values(
        |r: RecipientView|
            fresh_task(b.newsletter.id, r.subscriber_id, r.email, b.newsletter.created_at),
    )
}

/// All that publishing reads and writes: the newsletters, the saved
/// responses, and the delivery queue.
pub struct IssuerView {
    pub newsletters: Seq<NewsletterView>,
    pub records: Seq<RecordView>,
    pub queue: QueueView,
}

/// Each of the three tables keeps its own rule, and every task in the
/// queue is about a stored newsletter.
pub open spec fn issuer_wf(s: IssuerView) -> bool {
    &&& newsletters_wf(s.newsletters)
    &&& records_wf(s.records)
    &&& queue_wf(s.queue)
    &&& forall|i: int|
        0 <= i < s.queue.tasks.len() ==> has_newsletter(
            s.newsletters,
            (#[trigger] s.queue.tasks[i]).newsletter_id,
        )
}

/// The tables with another queue in place of theirs.
pub open spec fn with_queue(s: IssuerView, q: QueueView) -> IssuerView {
    IssuerView { newsletters: s.newsletters, records: s.records, queue: q }
}

/// Claiming, recording and reaping keep the rule of the tables: they add
/// and remove no task, and none of them changes which newsletter a task is
/// about.
pub proof fn lemma_queue_steps_keep_wf(
    s: IssuerView,
    ticket: int,
    outcome: Result<(), DeliveryFailure>,
    now: i64,
    entropy: u128,
)
    requires
        issuer_wf(s),
    ensures
        issuer_wf(with_queue(s, claim_step(s.queue, now).0)),
        issuer_wf(with_queue(s, record_step(s.queue, ticket, outcome, now, entropy).0)),
        issuer_wf(with_queue(s, reap_step(s.queue, now))),
        claim_step(s.queue, now).1 matches Some(c) ==> 0 <= c.0 < s.queue.tasks.len()
            && has_newsletter(s.newsletters, c.1.newsletter_id),
{
    let c = claim_step(s.queue, now).0;
    let r = record_step(s.queue, ticket, outcome, now, entropy).0;
    let p = reap_step(s.queue, now);
    if some_eligible(s.queue.tasks, now) {
        let k = first_eligible(s.queue.tasks, now);
        assert(is_first_eligible(s.queue.tasks, now, k));
        assert(has_newsletter(s.newsletters, s.queue.tasks[k].newsletter_id));
    }
    assert forall|i: int| 0 <= i < s.queue.tasks.len() implies c.tasks.len() == s.queue.tasks.len()
        && r.tasks.len() == s.queue.tasks.len() && p.tasks.len() == s.queue.tasks.len()
        && queue_wf(c) && queue_wf(r) && queue_wf(p) && (#[trigger] c.tasks[i]).newsletter_id
        == s.queue.tasks[i].newsletter_id && (#[trigger] r.tasks[i]).newsletter_id
        == s.queue.tasks[i].newsletter_id && (#[trigger] p.tasks[i]).newsletter_id
        == s.queue.tasks[i].newsletter_id by {
        lemma_steps_move_legally(s.queue, ticket, outcome, now, entropy, i);
    }
    if s.queue.tasks.len() > 0 {
        lemma_steps_move_legally(s.queue, ticket, outcome, now, entropy, 0);
    }
    assert forall|i: int| 0 <= i < c.tasks.len() implies has_newsletter(
        s.newsletters,
        (#[trigger] c.tasks[i]).newsletter_id,
    ) by {
        assert(has_newsletter(s.newsletters, s.queue.tasks[i].newsletter_id));
    }
    assert forall|i: int| 0 <= i < r.tasks.len() implies has_newsletter(
        s.newsletters,
        (#[trigger] r.tasks[i]).newsletter_id,
    ) by {
        assert(has_newsletter(s.newsletters, s.queue.tasks[i].newsletter_id));
    }
    assert forall|i: int| 0 <= i < p.tasks.len() implies has_newsletter(
        s.newsletters,
        (#[trigger] p.tasks[i]).newsletter_id,
    ) by {
        assert(has_newsletter(s.newsletters, s.queue.tasks[i].newsletter_id));
    }
}

/// A newsletter that is stored stays stored when another is added.
pub proof fn lemma_push_keeps_newsletters(ns: Seq<NewsletterView>, n: NewsletterView, id: u128)
    ensures
        has_newsletter(ns, id) ==> has_newsletter(ns.push(n), id),
        has_newsletter(ns.push(n), n.id),
{
    if has_newsletter(ns, id) {
        let i = choose|i: int| 0 <= i < ns.len() && (#[trigger] ns[i]).id == id;
        assert(ns.push(n)[i].id == id);
    }
    assert(ns.push(n)[ns.len() as int].id == n.id);
}

/// The read phase of a publish request. A response saved for the owner and
/// key is replayed, whatever else the request holds. Otherwise the request
/// is judged, and a valid one yields the batch to write.
pub open spec fn prepare_step(
    s: IssuerView,
    subscribers: Seq<SubscriberView>,
    req: RequestView,
    newsletter_id: u128,
    now: i64,
) -> Result<PreparedView, Error> {
    match saved_response(s.records, req.owner_id, req.idempotency_key) {
        Some(r) => Ok(PreparedView::Replay(r)),
        None => match request_verdict(req) {
            Err(e) => Err(Error::Validation(e)),
            Ok(_) => Ok(PreparedView::Batch(batch_for(subscribers, req, newsletter_id, now))),
        },
    }
}

/// Whether a batch is written: not if its owner and key have a saved
/// response by now, and not if its newsletter's identifier is taken.
pub open spec fn commit_verdict(s: IssuerView, b: BatchView) -> Result<(), Error> {
    if has_record(s.records, b.owner_id, b.idempotency_key) {
        Err(Error::DuplicateIdempotencyKey)
    } else if has_newsletter(s.newsletters, b.newsletter.id) {
        Err(Error::Persistence(StoreError::DuplicateNewsletterId))
    } else {
        Ok(())
    }
}

/// The state after a batch was written: the newsletter, one queued task per
/// recipient, and the saved response, all of them added.
pub open spec fn after_commit(s: IssuerView, b: BatchView) -> IssuerView {
    IssuerView {
        newsletters: s.newsletters.push(b.newsletter),
        records: s.records.push(
            record_for(b.owner_id, b.idempotency_key, b.response, b.newsletter.created_at),
        ),
        queue: QueueView { tasks: s.queue.tasks + batch_tasks(b), policy: s.queue.policy },
    }
}

/// The write phase as one step: all of the batch or nothing.
pub open spec fn commit_step(s: IssuerView, b: BatchView) -> (
    IssuerView,
    Result<ResponseView, Error>,
) {
    match commit_verdict(s, b) {
        Ok(_) => (after_commit(s, b), Ok(b.response)),
        Err(e) => (s, Err(e)),
    }
}

/// The write phase for a request that rather replays than fails: where the
/// batch's owner and key have a saved response by now, that response is the
/// answer, and nothing is written.
pub open spec fn commit_or_replay_step(s: IssuerView, b: BatchView) -> (
    IssuerView,
    Result<ResponseView, Error>,
) {
    match saved_response(s.records, b.owner_id, b.idempotency_key) {
        Some(r) => (s, Ok(r)),
        None => commit_step(s, b),
    }
}

/// A publish request as one step: the read phase, and for a new request
/// the write phase right after it.
pub open spec fn publish_step(
    s: IssuerView,
    subscribers: Seq<SubscriberView>,
    req: RequestView,
    newsletter_id: u128,
    now: i64,
) -> (IssuerView, Result<ResponseView, Error>) {
    match prepare_step(s, subscribers, req, newsletter_id, now) {
        Err(e) => (s, Err(e)),
        Ok(PreparedView::Replay(r)) => (s, Ok(r)),
        Ok(PreparedView::Batch(b)) => commit_step(s, b),
    }
}

/// What the read phase handed back, as a mathematical value.
pub open spec fn prepared_view(r: Result<Prepared, Error>) -> Result<PreparedView, Error> {
    match r {
        Ok(p) => Ok(p@),
        Err(e) => Err(e),
    }
}

/// What a publish request handed back, as a mathematical value.
pub open spec fn published_view(r: Result<SavedResponse, Error>) -> Result<ResponseView, Error> {
    match r {
        Ok(p) => Ok(p@),
        Err(e) => Err(e),
    }
}

/// A batch that is written keeps the rule of each table, and from then on
/// the batch's response is the one saved for its owner and key.
pub proof fn lemma_commit_keeps_wf(s: IssuerView, b: BatchView)
    requires
        issuer_wf(s),
    ensures
        issuer_wf(commit_step(s, b).0),
        commit_step(s, b).1 is Ok ==> saved_response(
            commit_step(s, b).0.records,
            b.owner_id,
            b.idempotency_key,
        ) == Some(b.response),
{
    if commit_verdict(s, b) is Ok {
        let after = after_commit(s, b);
        lemma_save_then_get(
            s.records,
            b.owner_id,
            b.idempotency_key,
            b.response,
            b.newsletter.created_at,
        );
        assert forall|i: int, j: int| 0 <= i < j < after.newsletters.len() implies (
        #[trigger] after.newsletters[i]).id != (#[trigger] after.newsletters[j]).id by {
            if j == s.newsletters.len() {
                assert(s.newsletters[i].id != b.newsletter.id);
            } else {
                assert(s.newsletters[i].id != s.newsletters[j].id);
            }
        }
        assert forall|i: int| 0 <= i < after.queue.tasks.len() implies task_wf(
            #[trigger] after.queue.tasks[i],
            after.queue.policy,
        ) && has_newsletter(after.newsletters, after.queue.tasks[i].newsletter_id) by {
            lemma_push_keeps_newsletters(
                s.newsletters,
                b.newsletter,
                after.queue.tasks[i].newsletter_id,
            );
            if i < s.queue.tasks.len() {
                assert(task_wf(s.queue.tasks[i], s.queue.policy));
            }
        }
    }
}

/// A publish request keeps the rule of each table. One that fails changes
/// nothing; one that succeeds leaves its response saved for its owner and
/// key.
pub proof fn lemma_publish_keeps_wf(
    s: IssuerView,
    subscribers: Seq<SubscriberView>,
    req: RequestView,
    newsletter_id: u128,
    now: i64,
)
    requires
        issuer_wf(s),
    ensures
        issuer_wf(publish_step(s, subscribers, req, newsletter_id, now).0),
        publish_step(s, subscribers, req, newsletter_id, now).1 is Err ==> publish_step(
            s,
            subscribers,
            req,
            newsletter_id,
            now,
        ).0 == s,
        publish_step(s, subscribers, req, newsletter_id, now).1 matches Ok(r) ==> saved_response(
            publish_step(s, subscribers, req, newsletter_id, now).0.records,
            req.owner_id,
            req.idempotency_key,
        ) == Some(r),
{
    lemma_commit_keeps_wf(s, batch_for(subscribers, req, newsletter_id, now));
}

/// A new, valid publish request writes exactly one newsletter, exactly one
/// task per confirmed subscriber, each queued and untried, and exactly one
/// saved response.
pub proof fn lemma_publish_writes_one_batch(
    s: IssuerView,
    subscribers: Seq<SubscriberView>,
    req: RequestView,
    newsletter_id: u128,
    now: i64,
)
    requires
        issuer_wf(s),
        saved_response(s.records, req.owner_id, req.idempotency_key) is None,
        publish_step(s, subscribers, req, newsletter_id, now).1 is Ok,
    ensures
        ({
            let after = publish_step(s, subscribers, req, newsletter_id, now).0;
            let recipients = confirmed_of(subscribers);
            &&& after.newsletters.len() == s.newsletters.len() + 1
            &&& after.newsletters.last().id == newsletter_id
            &&& after.records.len() == s.records.len() + 1
            &&& after.queue.tasks.len() == s.queue.tasks.len() + recipients.len()
            &&& forall|i: int|
                0 <= i < s.queue.tasks.len() ==> #[trigger] after.queue.tasks[i] == s.queue.tasks[i]
            &&& forall|i: int|
                0 <= i < recipients.len() ==> #[trigger] after.queue.tasks[s.queue.tasks.len() + i]
                    == fresh_task(newsletter_id, recipients[i].id, recipients[i].email, now)
        }),
{
}

/// Once a publish request has succeeded, every later request with the same
/// owner and key is answered with the same response and writes nothing:
/// whatever the subscribers are by then, and whatever identifier and time
/// the later request would have given a newsletter.
pub proof fn lemma_publish_replays(
    s: IssuerView,
    subscribers: Seq<SubscriberView>,
    req: RequestView,
    newsletter_id: u128,
    now: i64,
    later_subscribers: Seq<SubscriberView>,
    later_req: RequestView,
    later_id: u128,
    later_now: i64,
)
    requires
        issuer_wf(s),
        publish_step(s, subscribers, req, newsletter_id, now).1 is Ok,
        later_req.owner_id == req.owner_id,
        later_req.idempotency_key == req.idempotency_key,
    ensures
        ({
            let first = publish_step(s, subscribers, req, newsletter_id, now);
            publish_step(first.0, later_subscribers, later_req, later_id, later_now) == first
        }),
{
    lemma_publish_keeps_wf(s, subscribers, req, newsletter_id, now);
}

/// What one of several calls of publish finds and draws: the subscribers
/// at that time, and the identifier and time for a new newsletter.
pub struct PublishCall {
    pub subscribers: Seq<SubscriberView>,
    pub newsletter_id: u128,
    pub now: i64,
}

/// The state after the same request was published once per call, in
/// order, and the responses in that order.
pub open spec fn publish_repeatedly(s: IssuerView, req: RequestView, calls: Seq<PublishCall>) -> (
    IssuerView,
    Seq<Result<ResponseView, Error>>,
)
    decreases calls.len(),
{
    if calls.len() == 0 {
        (s, Seq::empty())
    } else {
        let before = publish_repeatedly(s, req, calls.drop_last());
        let step = publish_step(
            before.0,
            calls.last().subscribers,
            req,
            calls.last().newsletter_id,
            calls.last().now,
        );
        (step.0, before.1.push(step.1))
    }
}

/// Publishing is idempotent: if the first of any number of calls with the
/// same request succeeds, the state after all of them is the state after
/// the first (so one newsletter, one batch of tasks and one saved response
/// were written), and every call is answered with the first call's response.
pub proof fn lemma_publish_is_idempotent(s: IssuerView, req: RequestView, calls: Seq<PublishCall>)
    requires
        issuer_wf(s),
        calls.len() >= 1,
        publish_step(s, calls[0].subscribers, req, calls[0].newsletter_id, calls[0].now).1 is Ok,
    ensures
        ({
            let first = publish_step(
                s,
                calls[0].subscribers,
                req,
                calls[0].newsletter_id,
                calls[0].now,
            );
            let all = publish_repeatedly(s, req, calls);
            &&& all.0 == first.0
            &&& all.1.len() == calls.len()
            &&& forall|i: int| 0 <= i < calls.len() ==> #[trigger] all.1[i] == first.1
        }),
    decreases calls.len(),
{
    let first = publish_step(s, calls[0].subscribers, req, calls[0].newsletter_id, calls[0].now);
    if calls.len() == 1 {
        assert(calls.drop_last().len() == 0);
        assert(publish_repeatedly(s, req, calls.drop_last()).0 == s);
        assert(calls.last() == calls[0]);
    } else {
        let earlier = calls.drop_last();
        assert(earlier[0] == calls[0]);
        lemma_publish_is_idempotent(s, req, earlier);
        lemma_publish_replays(
            s,
            calls[0].subscribers,
            req,
            calls[0].newsletter_id,
            calls[0].now,
            calls.last().subscribers,
            req,
            calls.last().newsletter_id,
            calls.last().now,
        );
    }
}

/// Two batches for the same owner and key never both get written. Once one
/// of them is written, the attempt to write the other fails as a duplicate
/// and changes nothing; written with `commit_or_replay` it is answered with
/// the winner's response instead, and so is every later publish request
/// with that owner and key.
pub proof fn lemma_racing_commits_have_one_winner(
    s: IssuerView,
    winner: BatchView,
    loser: BatchView,
    retry_subscribers: Seq<SubscriberView>,
    retry: RequestView,
    retry_id: u128,
    retry_now: i64,
)
    requires
        issuer_wf(s),
        loser.owner_id == winner.owner_id,
        loser.idempotency_key == winner.idempotency_key,
        retry.owner_id == winner.owner_id,
        retry.idempotency_key == winner.idempotency_key,
        commit_step(s, winner).1 is Ok,
    ensures
        ({
            let won = commit_step(s, winner).0;
            &&& issuer_wf(won)
            &&& commit_step(won, loser) == (
                won,
                Err::<ResponseView, Error>(Error::DuplicateIdempotencyKey),
            )
            &&& commit_or_replay_step(won, loser) == (
                won,
                Ok::<ResponseView, Error>(winner.response),
            )
            &&& publish_step(won, retry_subscribers, retry, retry_id, retry_now) == (
                won,
                Ok::<ResponseView, Error>(winner.response),
            )
        }),
{
    lemma_commit_keeps_wf(s, winner);
}

/// Judges a publish request.
pub fn check_request(req: &PublishRequest) -> (r: Result<(), ValidationError>)
    ensures
        r == request_verdict(req@),
{
    if req.title.as_str().is_empty() {
        Err(ValidationError::EmptyTitle)
    } else if req.html_body.as_str().is_empty() {
        Err(ValidationError::EmptyHtmlBody)
    } else if req.text_body.as_str().is_empty() {
        Err(ValidationError::EmptyTextBody)
    } else {
        Ok(())
    }
}

/// The recipients of a newsletter: the confirmed subscribers.
pub fn recipients_from(subscribers: &SubscriberStore) -> (out: Vec<Recipient>)
    ensures
        recipients_view(out@) == recipients_among(subscribers@),
{
    let confirmed = subscribers.list_confirmed();
    let mut out: Vec<Recipient> = Vec::new();
    let mut i: usize = 0;
    while i < confirmed.len()
        invariant
            0 <= i <= confirmed@.len(),
            views_of(confirmed@) == confirmed_of(subscribers@),
            out@.len() == i,
            forall|j: int| 0 <= j < i ==> (#[trigger] out@[j])@ == recipient_of(confirmed@[j]@),
        decreases confirmed@.len() - i,
    {
        out.push(
            Recipient { subscriber_id: confirmed[i].id, email: confirmed[i].email.clone() },
        );
        i = i + 1;
    }
    proof {
        assert forall|j: int| 0 <= j < out@.len() implies recipients_view(out@)[j]
            == recipients_among(subscribers@)[j] by {
            assert(views_of(confirmed@)[j] == confirmed@[j]@);
        }
        assert(recipients_view(out@) =~= recipients_among(subscribers@));
    }
    out
}

/// The newsletters, the saved responses and the delivery queue, and the
/// requests that write to all three at once.
pub struct NewsletterIssuer {
    newsletters: NewsletterStore,
    idempotency: IdempotencyStore,
    queue: DeliveryQueue,
}

impl View for NewsletterIssuer {
    type V = IssuerView;

    closed spec fn view(&self) -> IssuerView {
        IssuerView {
            newsletters: self.newsletters@,
            records: self.idempotency@,
            queue: self.queue@,
        }
    }
}

impl NewsletterIssuer {
    /// Each of the three tables keeps its rule.
    pub open spec fn wf(&self) -> bool {
        issuer_wf(self@)
    }

    /// Nothing published yet; the queue works under `policy`.
    pub fn new(policy: RetryPolicy) -> (s: NewsletterIssuer)
        ensures
            s.wf(),
            s@ == (IssuerView {
                newsletters: Seq::<NewsletterView>::empty(),
                records: Seq::<RecordView>::empty(),
                queue: QueueView { tasks: Seq::<TaskView>::empty(), policy: policy },
            }),
    {
        NewsletterIssuer {
            newsletters: NewsletterStore::new(),
            idempotency: IdempotencyStore::new(),
            queue: DeliveryQueue::new(policy),
        }
    }

    /// The newsletters, to read.
    pub fn newsletters(&self) -> (n: &NewsletterStore)
        ensures
            n@ == self@.newsletters,
            self.wf() ==> n.wf(),
    {
        &self.newsletters
    }

    /// The saved responses, to read.
    pub fn idempotency(&self) -> (r: &IdempotencyStore)
        ensures
            r@ == self@.records,
            self.wf() ==> r.wf(),
    {
        &self.idempotency
    }

    /// The delivery queue, to read.
    pub fn queue(&self) -> (q: &DeliveryQueue)
        ensures
            q@ == self@.queue,
            self.wf() ==> q.wf(),
    {
        &self.queue
    }

    /// Claims the first available task of the queue at time `now`, as
    /// `DeliveryQueue::claim_at` does.
    pub fn claim_at(&mut self, now: i64) -> (c: Option<Claim>)
        requires
            old(self).wf(),
        ensures
            final(self).wf(),
            final(self)@ == with_queue(old(self)@, claim_step(old(self)@.queue, now).0),
            claim_view(c) == claim_step(old(self)@.queue, now).1,
    {
        proof {
            lemma_queue_steps_keep_wf(self@, 0, Ok(()), now, 0);
        }
        self.queue.claim_at(now)
    }

    /// Records the outcome of the attempt made under `ticket`, as
    /// `DeliveryQueue::record_with` does.
    pub fn record_with(
        &mut self,
        ticket: usize,
        outcome: Result<(), DeliveryFailure>,
        now: i64,
        entropy: u128,
    ) -> (r: Option<TaskStatus>)
        requires
            old(self).wf(),
        ensures
            final(self).wf(),
            final(self)@ == with_queue(
                old(self)@,
                record_step(old(self)@.queue, ticket as int, outcome, now, entropy).0,
            ),
            r == record_step(old(self)@.queue, ticket as int, outcome, now, entropy).1,
    {
        proof {
            lemma_queue_steps_keep_wf(self@, ticket as int, outcome, now, entropy);
        }
        self.queue.record_with(ticket, outcome, now, entropy)
    }

    /// Puts every task whose lease has run out at time `now` back in the
    /// queue, as `DeliveryQueue::reap_at` does.
    pub fn reap_at(&mut self, now: i64)
        requires
            old(self).wf(),
        ensures
            final(self).wf(),
            final(self)@ == with_queue(old(self)@, reap_step(old(self)@.queue, now)),
    {
        proof {
            lemma_queue_steps_keep_wf(self@, 0, Ok(()), now, 0);
        }
        self.queue.reap_at(now)
    }

    /// The read phase of a publish request, with the identifier and the
    /// time that a new newsletter would get. Nothing changes.
    pub fn prepare(
        &self,
        subscribers: &SubscriberStore,
        req: &PublishRequest,
        newsletter_id: u128,
        now: i64,
    ) -> (r: Result<Prepared, Error>)
        requires
            self.wf(),
        ensures
            prepared_view(r) == prepare_step(self@, subscribers@, req@, newsletter_id, now),
    {
        match self.idempotency.get(req.owner_id.as_str(), req.idempotency_key.as_str()) {
            Some(saved) => Ok(Prepared::Replay(saved)),
            None => match check_request(req) {
                Err(e) => Err(Error::Validation(e)),
                Ok(()) => Ok(
                    Prepared::Batch(
                        PublishBatch {
                            newsletter: Newsletter {
                                id: newsletter_id,
                                title: req.title.clone(),
                                html_body: req.html_body.clone(),
                                text_body: req.text_body.clone(),
                                created_at: now,
                            },
                            recipients: recipients_from(subscribers),
                            owner_id: req.owner_id.clone(),
                            idempotency_key: req.idempotency_key.clone(),
                            response: SavedResponse { status: 202, body: hex_bytes(newsletter_id) },
                        },
                    ),
                ),
            },
        }
    }

    /// The write phase: stores the newsletter, queues one task per
    /// recipient and saves the response, all together. Where the owner and
    /// key have a saved response by now, or the newsletter's identifier is
    /// taken, nothing at all is written.
    pub fn commit(&mut self, batch: PublishBatch) -> (r: Result<SavedResponse, Error>)
        requires
            old(self).wf(),
        ensures
            final(self).wf(),
            (final(self)@, published_view(r)) == commit_step(old(self)@, batch@),
    {
        if self.idempotency.contains(batch.owner_id.as_str(), batch.idempotency_key.as_str()) {
            return Err(Error::DuplicateIdempotencyKey);
        }
        if self.newsletters.position(batch.newsletter.id).is_some() {
            return Err(Error::Persistence(StoreError::DuplicateNewsletterId));
        }
        let ghost before = self@;
        let ghost b = batch@;
        let PublishBatch { newsletter, recipients, owner_id, idempotency_key, response } = batch;
        let newsletter_id = newsletter.id;
        let created_at = newsletter.created_at;
        proof {
            lemma_commit_keeps_wf(before, b);
        }
        let stored = self.newsletters.insert(newsletter);
        let mut i: usize = 0;
        assert(self.queue@.tasks =~= before.queue.tasks + batch_tasks(b).take(0));
        while i < recipients.len()
            invariant
                0 <= i <= recipients@.len(),
                recipients_view(recipients@) == b.recipients,
                b.newsletter.id == newsletter_id,
                b.newsletter.created_at == created_at,
                self.queue.wf(),
                self.queue@.policy == before.queue.policy,
                self.queue@.tasks == before.queue.tasks + batch_tasks(b).take(i as int),
                self.newsletters@ == before.newsletters.push(b.newsletter),
                self.newsletters.wf(),
                self.idempotency@ == before.records,
                self.idempotency.wf(),
            decreases recipients@.len() - i,
        {
            let ghost so_far = self.queue@.tasks;
            assert(recipients_view(recipients@)[i as int] == recipients@[i as int]@);
            self.queue.enqueue(
                newsletter_id,
                recipients[i].subscriber_id,
                recipients[i].email.clone(),
                created_at,
            );
            proof {
                assert(batch_tasks(b).take(i + 1) =~= batch_tasks(b).take(i as int).push(
                    batch_tasks(b)[i as int],
                ));
                assert(self.queue@.tasks =~= before.queue.tasks + batch_tasks(b).take(i + 1));
            }
            i = i + 1;
        }
        assert(batch_tasks(b).take(i as int) =~= batch_tasks(b));
        let saved = self.idempotency.save_at(owner_id, idempotency_key, &response, created_at);
        assert(self@ == after_commit(before, b));
        Ok(response)
    }

    /// The write phase for a request that lost a race: where another request
    /// with the same owner and key has committed since the read phase, its
    /// saved response is replayed; otherwise the batch is written as `commit`
    /// writes it.
    pub fn commit_or_replay(&mut self, batch: PublishBatch) -> (r: Result<SavedResponse, Error>)
        requires
            old(self).wf(),
        ensures
            final(self).wf(),
            (final(self)@, published_view(r)) == commit_or_replay_step(old(self)@, batch@),
    {
        match self.idempotency.get(batch.owner_id.as_str(), batch.idempotency_key.as_str()) {
            Some(saved) => Ok(saved),
            None => self.commit(batch),
        }
    }

    /// Carries out a publish request with a given identifier and time for
    /// the newsletter: replays the saved response if the owner and key have
    /// one, and otherwise judges the request and writes its batch.
    pub fn publish_with(
        &mut self,
        subscribers: &SubscriberStore,
        req: &PublishRequest,
        newsletter_id: u128,
        now: i64,
    ) -> (r: Result<SavedResponse, Error>)
        requires
            old(self).wf(),
        ensures
            final(self).wf(),
            (final(self)@, published_view(r)) == publish_step(
                old(self)@,
                subscribers@,
                req@,
                newsletter_id,
                now,
            ),
    {
        match self.prepare(subscribers, req, newsletter_id, now) {
            Err(e) => Err(e),
            Ok(Prepared::Replay(saved)) => Ok(saved),
            Ok(Prepared::Batch(batch)) => self.commit(batch),
        }
    }

    /// Carries out a publish request at time `now` (seconds since the Unix
    /// epoch): draws a random identifier for the newsletter and proceeds as
    /// `publish_with` does.
    pub fn publish(&mut self, subscribers: &SubscriberStore, req: &PublishRequest, now: i64) -> (r:
        Result<SavedResponse, Error>)
        requires
            old(self).wf(),
        ensures
            final(self).wf(),
            exists|newsletter_id: u128|
                is_random_uuid(newsletter_id) && (final(self)@, published_view(r))
                    == #[trigger] publish_step(old(self)@, subscribers@, req@, newsletter_id, now),
    {
        let newsletter_id = random_uuid();
        self.publish_with(subscribers, req, newsletter_id, now)
    }
}

} // verus!
