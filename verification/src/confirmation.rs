//! Subscribing and confirming: a subscriber is stored as pending together
//! with a one-time token, and redeeming the token confirms the subscriber.

use vstd::prelude::*;
use crate::domain::{check_email, check_name, is_email, name_verdict, ValidationError};
use crate::errors::{DeliveryFailure, Error, StoreError};
use crate::subscriber::{
    has_email, has_id, insert_verdict, lemma_with_status_keeps_keys, position_of, rows_wf,
    status_of, with_status, Subscriber, SubscriberStatus, SubscriberStore, SubscriberView,
};
use crate::system::{is_random_uuid, random_uuid};
use crate::token::{
    after_redeem, has_binding, has_token, issue_verdict, lemma_push_binding, lemma_remove_binding,
    owner_of, redeem_verdict, token_from, token_position, token_text, tokens_wf,
    ConfirmationToken, TokenService, TokenView,
};

verus! {

/// What a visitor submits to subscribe.
#[derive(Debug)]
pub struct FormData {
    pub email: String,
    pub name: String,
}

/// A subscribe form as a mathematical value.
pub struct FormView {
    pub email: Seq<char>,
    pub name: Seq<char>,
}

impl View for FormData {
    type V = FormView;

    open spec fn view(&self) -> FormView {
        FormView { email: self.email@, name: self.name@ }
    }
}

/// A message for the mail provider.
#[derive(Debug)]
pub struct EmailMessage {
    pub recipient: String,
    pub subject: String,
    pub html_body: String,
    pub text_body: String,
}

/// A message as a mathematical value.
pub struct EmailMessageView {
    pub recipient: Seq<char>,
    pub subject: Seq<char>,
    pub html_body: Seq<char>,
    pub text_body: Seq<char>,
}

impl View for EmailMessage {
    type V = EmailMessageView;

    open spec fn view(&self) -> EmailMessageView {
        EmailMessageView {
            recipient: self.recipient@,
            subject: self.subject@,
            html_body: self.html_body@,
            text_body: self.text_body@,
        }
    }
}

/// What a successful subscribe hands back: the new subscriber, the token
/// issued to them, and the confirmation message that is to be sent.
#[derive(Debug)]
pub struct Subscription {
    pub subscriber_id: u128,
    pub token: String,
    pub confirmation: EmailMessage,
}

/// A subscription as a mathematical value.
pub struct SubscriptionView {
    pub subscriber_id: u128,
    pub token: Seq<char>,
    pub confirmation: EmailMessageView,
}

impl View for Subscription {
    type V = SubscriptionView;

    open spec fn view(&self) -> SubscriptionView {
        SubscriptionView {
            subscriber_id: self.subscriber_id,
            token: self.token@,
            confirmation: self.confirmation@,
        }
    }
}

/// What is to be stored and sent for an accepted form: the pending
/// subscriber, the token bound to them, and the confirmation message.
#[derive(Debug)]
pub struct Draft {
    pub subscriber: Subscriber,
    pub token: ConfirmationToken,
    pub confirmation: EmailMessage,
}

/// A draft as a mathematical value.
pub struct DraftView {
    pub subscriber: SubscriberView,
    pub token: TokenView,
    pub confirmation: EmailMessageView,
}

impl View for Draft {
    type V = DraftView;

    open spec fn view(&self) -> DraftView {
        DraftView {
            subscriber: self.subscriber@,
            token: self.token@,
            confirmation: self.confirmation@,
        }
    }
}

/// The state of the workflow: the subscribers, the live tokens, and the
/// address under which the application is reached.
pub struct WorkflowView {
    pub subscribers: Seq<SubscriberView>,
    pub tokens: Seq<TokenView>,
    pub base_url: Seq<char>,
}

/// The rule that ties the two tables together: both keep their own rule,
/// every live token belongs to a stored, pending subscriber, and every
/// pending subscriber has a live token (exactly one, by the token table's
/// rule).
pub open spec fn workflow_wf(w: WorkflowView) -> bool {
    &&& rows_wf(w.subscribers)
    &&& tokens_wf(w.tokens)
    &&& forall|i: int|
        0 <= i < w.tokens.len() ==> has_id(w.subscribers, (#[trigger] w.tokens[i]).subscriber_id)
    &&& forall|i: int, j: int|
        0 <= i < w.tokens.len() && 0 <= j < w.subscribers.len() && (
        #[trigger] w.tokens[i]).subscriber_id == (#[trigger] w.subscribers[j]).id
            ==> w.subscribers[j].status == SubscriberStatus::Pending
    &&& forall|j: int|
        0 <= j < w.subscribers.len() && (#[trigger] w.subscribers[j]).status
            == SubscriberStatus::Pending ==> has_binding(w.tokens, w.subscribers[j].id)
}

/// The verdict on a form: the name is judged first, then the address.
pub open spec fn form_verdict(form: FormView) -> Result<(), ValidationError> {
    if name_verdict(form.name) is Err {
        name_verdict(form.name)
    } else if !is_email(form.email) {
        Err(ValidationError::MalformedEmail)
    } else {
        Ok(())
    }
}

/// The row stored for an accepted form.
pub open spec fn new_subscriber(form: FormView, id: u128, now: i64) -> SubscriberView {
    SubscriberView {
        id: id,
        email: form.email,
        name: form.name,
        status: SubscriberStatus::Pending,
        subscribed_at: now,
    }
}

/// Whether a subscribe request is carried out: the form must be valid, the
/// identifier and the address new to the subscriber table, and the token
/// new to the token table, judged in this order.
pub open spec fn subscribe_verdict(w: WorkflowView, form: FormView, id: u128, token: Seq<char>)
    -> Result<(), Error> {
    match form_verdict(form) {
        Err(e) => Err(Error::Validation(e)),
        Ok(_) => match insert_verdict(w.subscribers, new_subscriber(form, id, 0)) {
            Err(e) => Err(Error::Persistence(e)),
            Ok(_) => match issue_verdict(w.tokens, token) {
                Err(e) => Err(Error::Persistence(e)),
                Ok(_) => Ok(()),
            },
        },
    }
}

/// The state after a subscribe request was carried out.
pub open spec fn after_subscribe(
    w: WorkflowView,
    form: FormView,
    id: u128,
    token: Seq<char>,
    now: i64,
) -> WorkflowView {
    WorkflowView {
        subscribers: w.subscribers.push(new_subscriber(form, id, now)),
        tokens: w.tokens.push(TokenView { token: token, subscriber_id: id }),
        base_url: w.base_url,
    }
}

/// The link that confirms a subscription.
pub open spec fn confirmation_link(base_url: Seq<char>, token: Seq<char>) -> Seq<char> {
    base_url + "/subscriptions/confirm?subscription_token="@ + token
}

/// The message that asks a new subscriber to confirm.
pub open spec fn confirmation_message(base_url: Seq<char>, email: Seq<char>, token: Seq<char>)
    -> EmailMessageView {
    EmailMessageView {
        recipient: email,
        subject: "Welcome!"@,
        html_body: "Welcome to our newsletter!<br />Click <a href=\""@ + confirmation_link(
            base_url,
            token,
        ) + "\">here</a> to confirm your subscription."@,
        text_body: "Welcome to our newsletter!\nVisit "@ + confirmation_link(base_url, token)
            + " to confirm your subscription."@,
    }
}

/// What a subscribe request that was carried out hands back.
pub open spec fn subscription_of(w: WorkflowView, form: FormView, id: u128, token: Seq<char>)
    -> SubscriptionView {
    SubscriptionView {
        subscriber_id: id,
        token: token,
        confirmation: confirmation_message(w.base_url, form.email, token),
    }
}

/// What is drafted for a form: nothing for one that is not valid, and for a
/// valid one the pending subscriber, the token and the message.
pub open spec fn draft_for(
    base_url: Seq<char>,
    form: FormView,
    id: u128,
    token: Seq<char>,
    now: i64,
) -> Result<DraftView, ValidationError> {
    match form_verdict(form) {
        Err(e) => Err(e),
        Ok(_) => Ok(
            DraftView {
                subscriber: new_subscriber(form, id, now),
                token: TokenView { token: token, subscriber_id: id },
                confirmation: confirmation_message(base_url, form.email, token),
            },
        ),
    }
}

/// What drafting handed back, as a mathematical value.
pub open spec fn drafted_view(r: Result<Draft, ValidationError>) -> Result<
    DraftView,
    ValidationError,
> {
    match r {
        Ok(d) => Ok(d@),
        Err(e) => Err(e),
    }
}

/// A subscribe request as one step: the state after it and what it hands
/// back. A refused request leaves the state as it was.
pub open spec fn subscribe_step(
    w: WorkflowView,
    form: FormView,
    id: u128,
    token: Seq<char>,
    now: i64,
) -> (WorkflowView, Result<SubscriptionView, Error>) {
    match subscribe_verdict(w, form, id, token) {
        Ok(_) => (
            after_subscribe(w, form, id, token, now),
            Ok(subscription_of(w, form, id, token)),
        ),
        Err(e) => (w, Err(e)),
    }
}

/// What a subscribe request handed back, as a mathematical value.
pub open spec fn subscribed_view(r: Result<Subscription, Error>) -> Result<
    SubscriptionView,
    Error,
> {
    match r {
        Ok(s) => Ok(s@),
        Err(e) => Err(e),
    }
}

/// What a confirm request answers: the confirmed subscriber, or that the
/// token is not live.
pub open spec fn confirm_verdict(w: WorkflowView, token: Seq<char>) -> Result<u128, Error> {
    redeem_verdict(w.tokens, token)
}

/// The state after a confirm request: where the token was live it is gone
/// and its subscriber is confirmed; otherwise nothing changed.
pub open spec fn after_confirm(w: WorkflowView, token: Seq<char>) -> WorkflowView {
    if has_token(w.tokens, token) {
        WorkflowView {
            subscribers: with_status(
                w.subscribers,
                owner_of(w.tokens, token),
                SubscriberStatus::Confirmed,
            ),
            tokens: after_redeem(w.tokens, token),
            base_url: w.base_url,
        }
    } else {
        w
    }
}

/// Under the table's rule the status found for an identifier is that of
/// the one row that carries it.
pub proof fn lemma_status_of_row(rows: Seq<SubscriberView>, j: int)
    requires
        rows_wf(rows),
        0 <= j < rows.len(),
    ensures
        has_id(rows, rows[j].id),
        position_of(rows, rows[j].id) == j,
        status_of(rows, rows[j].id) == Some(rows[j].status),
{
    assert(rows[j].id == rows[j].id);
    let p = position_of(rows, rows[j].id);
    if p < j {
        assert(rows[p].id != rows[j].id);
    } else if j < p {
        assert(rows[j].id != rows[p].id);
    }
}

/// A subscribe request that is carried out keeps the workflow's rule.
pub proof fn lemma_subscribe_keeps_wf(
    w: WorkflowView,
    form: FormView,
    id: u128,
    token: Seq<char>,
    now: i64,
)
    requires
        workflow_wf(w),
        subscribe_verdict(w, form, id, token) is Ok,
    ensures
        workflow_wf(after_subscribe(w, form, id, token, now)),
        !has_binding(w.tokens, id),
{
    let w1 = after_subscribe(w, form, id, token, now);
    let row = new_subscriber(form, id, now);
    let binding = TokenView { token: token, subscriber_id: id };
    assert(!has_id(w.subscribers, id));
    assert(!has_email(w.subscribers, form.email));
    if has_binding(w.tokens, id) {
        let i = choose|i: int| 0 <= i < w.tokens.len() && (#[trigger] w.tokens[i]).subscriber_id
            == id;
        assert(has_id(w.subscribers, w.tokens[i].subscriber_id));
    }
    lemma_push_binding(w.tokens, binding);
    assert forall|i: int, j: int| 0 <= i < j < w1.subscribers.len() implies (
    #[trigger] w1.subscribers[i]).id != (#[trigger] w1.subscribers[j]).id
        && w1.subscribers[i].email != w1.subscribers[j].email by {
        if j == w.subscribers.len() {
            assert(w.subscribers[i].id != id);
            assert(w.subscribers[i].email != form.email);
        } else {
            assert(w.subscribers[i].id != w.subscribers[j].id);
        }
    }
    assert forall|i: int| 0 <= i < w1.tokens.len() implies has_id(
        w1.subscribers,
        (#[trigger] w1.tokens[i]).subscriber_id,
    ) by {
        if i == w.tokens.len() {
            assert(w1.subscribers[w.subscribers.len() as int].id == id);
        } else {
            assert(has_id(w.subscribers, w.tokens[i].subscriber_id));
            let j = choose|j: int|
                0 <= j < w.subscribers.len() && (#[trigger] w.subscribers[j]).id
                    == w.tokens[i].subscriber_id;
            assert(w1.subscribers[j].id == w.tokens[i].subscriber_id);
        }
    }
    assert forall|i: int, j: int|
        0 <= i < w1.tokens.len() && 0 <= j < w1.subscribers.len() && (
        #[trigger] w1.tokens[i]).subscriber_id == (
        #[trigger] w1.subscribers[j]).id implies w1.subscribers[j].status
        == SubscriberStatus::Pending by {
        if j < w.subscribers.len() {
            if i < w.tokens.len() {
                assert(w.tokens[i].subscriber_id == w.subscribers[j].id);
            } else {
                assert(w.subscribers[j].id == id);
            }
        }
    }
    assert forall|j: int|
        0 <= j < w1.subscribers.len() && (#[trigger] w1.subscribers[j]).status
            == SubscriberStatus::Pending implies has_binding(w1.tokens, w1.subscribers[j].id) by {
        if j == w.subscribers.len() {
            assert(w1.tokens[w.tokens.len() as int].subscriber_id == id);
        } else {
            assert(w.subscribers[j].status == SubscriberStatus::Pending);
            let i = choose|i: int|
                0 <= i < w.tokens.len() && (#[trigger] w.tokens[i]).subscriber_id
                    == w.subscribers[j].id;
            assert(w1.tokens[i].subscriber_id == w.subscribers[j].id);
        }
    }
}

/// A confirm request keeps the workflow's rule; where the token was live,
/// its subscriber went from pending to confirmed, the token is live no more,
/// and every other subscriber has the status it had.
pub proof fn lemma_confirm_keeps_wf(w: WorkflowView, token: Seq<char>)
    requires
        workflow_wf(w),
    ensures
        workflow_wf(after_confirm(w, token)),
        !has_token(after_confirm(w, token).tokens, token),
        has_token(w.tokens, token) ==> status_of(w.subscribers, owner_of(w.tokens, token)) == Some(
            SubscriberStatus::Pending,
        ) && status_of(after_confirm(w, token).subscribers, owner_of(w.tokens, token)) == Some(
            SubscriberStatus::Confirmed,
        ),
        forall|id: u128|
            has_token(w.tokens, token) && id != owner_of(w.tokens, token) ==> status_of(
                after_confirm(w, token).subscribers,
                id,
            ) == status_of(w.subscribers, id),
{
    if has_token(w.tokens, token) {
        let k = token_position(w.tokens, token);
        let owner = owner_of(w.tokens, token);
        let w2 = after_confirm(w, token);
        lemma_remove_binding(w.tokens, k);
        lemma_with_status_keeps_keys(w.subscribers, owner, SubscriberStatus::Confirmed);
        assert(has_id(w.subscribers, w.tokens[k].subscriber_id));
        let jo = position_of(w.subscribers, owner);
        lemma_status_of_row(w.subscribers, jo);
        assert(w.tokens[k].subscriber_id == w.subscribers[jo].id);
        assert(w2.subscribers[jo].id == owner);
        lemma_status_of_row(w2.subscribers, jo);
        assert forall|i: int| 0 <= i < w2.tokens.len() implies #[trigger] w2.tokens[i]
            == w.tokens[if i < k {
            i
        } else {
            i + 1
        }] by {}
        assert forall|i: int| 0 <= i < w2.tokens.len() implies has_id(
            w2.subscribers,
            (#[trigger] w2.tokens[i]).subscriber_id,
        ) by {
            let a = if i < k { i } else { i + 1 };
            assert(has_id(w.subscribers, w.tokens[a].subscriber_id));
        }
        assert forall|i: int, j: int|
            0 <= i < w2.tokens.len() && 0 <= j < w2.subscribers.len() && (
            #[trigger] w2.tokens[i]).subscriber_id == (
            #[trigger] w2.subscribers[j]).id implies w2.subscribers[j].status
            == SubscriberStatus::Pending by {
            let a = if i < k { i } else { i + 1 };
            assert(w.tokens[a].subscriber_id == w.subscribers[j].id);
            if a < k {
                assert(w.tokens[a].subscriber_id != w.tokens[k].subscriber_id);
            } else {
                assert(w.tokens[k].subscriber_id != w.tokens[a].subscriber_id);
            }
        }
        assert forall|j: int|
            0 <= j < w2.subscribers.len() && (#[trigger] w2.subscribers[j]).status
                == SubscriberStatus::Pending implies has_binding(
            w2.tokens,
            w2.subscribers[j].id,
        ) by {
            assert(w.subscribers[j].id != owner);
            assert(w.subscribers[j].status == SubscriberStatus::Pending);
            assert(has_binding(w.tokens, w.subscribers[j].id));
        }
        assert forall|id: u128| id != owner implies status_of(w2.subscribers, id) == status_of(
            w.subscribers,
            id,
        ) by {
            if has_id(w.subscribers, id) {
                let j = position_of(w.subscribers, id);
                lemma_status_of_row(w.subscribers, j);
                assert(w2.subscribers[j].id == id);
                lemma_status_of_row(w2.subscribers, j);
            }
        }
    }
}

/// Once a subscribe request was carried out, the issued token confirms the
/// new subscriber exactly once: the subscriber is pending until the first
/// confirm, which answers with the subscriber and leaves them confirmed;
/// a second confirm with the same token finds no token and changes nothing.
pub proof fn lemma_token_confirms_once(
    w: WorkflowView,
    form: FormView,
    id: u128,
    token: Seq<char>,
    now: i64,
)
    requires
        workflow_wf(w),
        subscribe_verdict(w, form, id, token) is Ok,
    ensures
        ({
            let w1 = after_subscribe(w, form, id, token, now);
            let w2 = after_confirm(w1, token);
            &&& workflow_wf(w1)
            &&& status_of(w1.subscribers, id) == Some(SubscriberStatus::Pending)
            &&& confirm_verdict(w1, token) == Ok::<u128, Error>(id)
            &&& workflow_wf(w2)
            &&& status_of(w2.subscribers, id) == Some(SubscriberStatus::Confirmed)
            &&& confirm_verdict(w2, token) == Err::<u128, Error>(Error::TokenNotFound)
            &&& after_confirm(w2, token) == w2
        }),
{
    let w1 = after_subscribe(w, form, id, token, now);
    lemma_subscribe_keeps_wf(w, form, id, token, now);
    lemma_push_binding(w.tokens, TokenView { token: token, subscriber_id: id });
    lemma_status_of_row(w1.subscribers, w.subscribers.len() as int);
    lemma_confirm_keeps_wf(w1, token);
}

/// No request takes a confirmed subscriber back to pending: whoever is
/// confirmed stays so after a subscribe and after a confirm.
pub proof fn lemma_confirmed_is_final(
    w: WorkflowView,
    form: FormView,
    id: u128,
    token: Seq<char>,
    now: i64,
    who: u128,
)
    requires
        workflow_wf(w),
        status_of(w.subscribers, who) == Some(SubscriberStatus::Confirmed),
    ensures
        subscribe_verdict(w, form, id, token) is Ok ==> status_of(
            after_subscribe(w, form, id, token, now).subscribers,
            who,
        ) == Some(SubscriberStatus::Confirmed),
        status_of(after_confirm(w, token).subscribers, who) == Some(SubscriberStatus::Confirmed),
{
    let j = position_of(w.subscribers, who);
    lemma_status_of_row(w.subscribers, j);
    if subscribe_verdict(w, form, id, token) is Ok {
        let w1 = after_subscribe(w, form, id, token, now);
        lemma_subscribe_keeps_wf(w, form, id, token, now);
        assert(w1.subscribers[j].id == who);
        lemma_status_of_row(w1.subscribers, j);
    }
    lemma_confirm_keeps_wf(w, token);
}

/// Judges a form: the name first, then the address.
pub fn check_form(form: &FormData) -> (r: Result<(), ValidationError>)
    ensures
        r == form_verdict(form@),
{
    match check_name(form.name.as_str()) {
        Err(e) => Err(e),
        Ok(()) => if check_email(form.email.as_str()) {
            Ok(())
        } else {
            Err(ValidationError::MalformedEmail)
        },
    }
}

/// Writes the message that asks a new subscriber to confirm.
pub fn write_confirmation(base_url: &str, email: &str, token: &str) -> (m: EmailMessage)
    ensures
        m@ == confirmation_message(base_url@, email@, token@),
{
    let link = String::from_str(base_url).concat(
        "/subscriptions/confirm?subscription_token=",
    ).concat(token);
    let html = String::from_str("Welcome to our newsletter!<br />Click <a href=\"").concat(
        link.as_str(),
    ).concat("\">here</a> to confirm your subscription.");
    let text = String::from_str("Welcome to our newsletter!\nVisit ").concat(
        link.as_str(),
    ).concat(" to confirm your subscription.");
    EmailMessage {
        recipient: String::from_str(email),
        subject: String::from_str("Welcome!"),
        html_body: html,
        text_body: text,
    }
}

/// Drafts what is to be stored and sent for a form, with a given
/// identifier, token and time. Nothing is stored.
pub fn draft_with(base_url: &str, form: &FormData, id: u128, token: String, now: i64) -> (r: Result<
    Draft,
    ValidationError,
>)
    ensures
        drafted_view(r) == draft_for(base_url@, form@, id, token@, now),
{
    match check_form(form) {
        Err(e) => Err(e),
        Ok(()) => {
            let message = write_confirmation(base_url, form.email.as_str(), token.as_str());
            Ok(
                Draft {
                    subscriber: Subscriber {
                        id: id,
                        email: form.email.clone(),
                        name: form.name.clone(),
                        status: SubscriberStatus::Pending,
                        subscribed_at: now,
                    },
                    token: ConfirmationToken { token: token, subscriber_id: id },
                    confirmation: message,
                },
            )
        },
    }
}

/// Drafts what is to be stored and sent for a form at time `now` (seconds
/// since the Unix epoch): draws a random identifier and a random token and
/// proceeds as `draft_with` does with these.
pub fn draft(base_url: &str, form: &FormData, now: i64) -> (r: Result<Draft, ValidationError>)
    ensures
        exists|id: u128, hi: u128, lo: u128|
            is_random_uuid(id) && is_random_uuid(hi) && is_random_uuid(lo) && drafted_view(r)
                == #[trigger] draft_for(base_url@, form@, id, token_text(hi, lo), now),
{
    let id = random_uuid();
    let hi = random_uuid();
    let lo = random_uuid();
    draft_with(base_url, form, id, token_from(hi, lo), now)
}

/// What the caller of subscribe is told once the confirmation message was
/// handed to the mail provider: the subscriber, or the provider's failure.
/// The registration stands either way.
pub fn subscription_outcome(subscriber_id: u128, sent: Result<(), DeliveryFailure>) -> (r: Result<
    u128,
    Error,
>)
    ensures
        r == match sent {
            Ok(_) => Ok::<u128, Error>(subscriber_id),
            Err(f) => Err::<u128, Error>(Error::Delivery(f)),
        },
{
    match sent {
        Ok(()) => Ok(subscriber_id),
        Err(f) => Err(Error::Delivery(f)),
    }
}

/// The subscribers, their tokens, and the two requests that change them.
pub struct ConfirmationWorkflow {
    subscribers: SubscriberStore,
    tokens: TokenService,
    base_url: String,
}

impl View for ConfirmationWorkflow {
    type V = WorkflowView;

    closed spec fn view(&self) -> WorkflowView {
        WorkflowView {
            subscribers: self.subscribers@,
            tokens: self.tokens@,
            base_url: self.base_url@,
        }
    }
}

impl ConfirmationWorkflow {
    /// The workflow's rule holds of its state.
    pub open spec fn wf(&self) -> bool {
        workflow_wf(self@)
    }

    /// The state of a workflow without subscribers.
    pub open spec fn new_view(base_url: Seq<char>) -> WorkflowView {
        WorkflowView {
            subscribers: Seq::<SubscriberView>::empty(),
            tokens: Seq::<TokenView>::empty(),
            base_url: base_url,
        }
    }

    /// A workflow without subscribers, reached under `base_url`.
    pub fn new(base_url: String) -> (w: ConfirmationWorkflow)
        ensures
            w.wf(),
            w@ == Self::new_view(base_url@),
    {
        ConfirmationWorkflow {
            subscribers: SubscriberStore::new(),
            tokens: TokenService::new(),
            base_url: base_url,
        }
    }

    /// The subscriber table, to read.
    pub fn subscribers(&self) -> (s: &SubscriberStore)
        ensures
            s@ == self@.subscribers,
            self.wf() ==> s.wf(),
    {
        &self.subscribers
    }

    /// The token table, to read.
    pub fn tokens(&self) -> (t: &TokenService)
        ensures
            t@ == self@.tokens,
            self.wf() ==> t.wf(),
    {
        &self.tokens
    }

    /// The subscriber whom a live token would confirm. Nothing changes.
    pub fn find_by_token(&self, token: &str) -> (r: Option<Subscriber>)
        requires
            self.wf(),
        ensures
            r is Some <==> has_token(self@.tokens, token@),
            r matches Some(s) ==> s@ == self@.subscribers[position_of(
                self@.subscribers,
                owner_of(self@.tokens, token@),
            )] && s@.id == owner_of(self@.tokens, token@),
    {
        match self.tokens.find(token) {
            None => None,
            Some(id) => {
                proof {
                    let k = token_position(self@.tokens, token@);
                    assert(has_id(self@.subscribers, self@.tokens[k].subscriber_id));
                }
                match self.subscribers.find_by_id(id) {
                    Some(j) => Some(self.subscribers.row(j).duplicate()),
                    None => None,
                }
            },
        }
    }

    /// Carries out a subscribe request with a given identifier, token and
    /// time. The form is judged, then the identifier, the address and the
    /// token are checked against the tables; only if all pass are the
    /// pending subscriber and the token stored, together. A refused request
    /// changes nothing.
    pub fn subscribe_with(&mut self, form: &FormData, id: u128, token: String, now: i64) -> (r:
        Result<Subscription, Error>)
        requires
            old(self).wf(),
        ensures
            final(self).wf(),
            (final(self)@, subscribed_view(r)) == subscribe_step(
                old(self)@,
                form@,
                id,
                token@,
                now,
            ),
    {
        let drafted = match draft_with(self.base_url.as_str(), form, id, token, now) {
            Err(e) => {
                return Err(Error::Validation(e));
            },
            Ok(d) => d,
        };
        if self.subscribers.find_by_id(id).is_some() {
            return Err(Error::Persistence(StoreError::DuplicateSubscriberId));
        }
        if self.subscribers.find_by_email(form.email.as_str()).is_some() {
            return Err(Error::Persistence(StoreError::DuplicateEmail));
        }
        if self.tokens.find(drafted.token.token.as_str()).is_some() {
            return Err(Error::Persistence(StoreError::DuplicateToken));
        }
        let ghost before = self@;
        proof {
            lemma_subscribe_keeps_wf(before, form@, id, token@, now);
        }
        let Draft { subscriber, token: binding, confirmation } = drafted;
        let kept = binding.token.clone();
        let stored = self.subscribers.insert(subscriber);
        let issued = self.tokens.issue_with(id, binding.token);
        assert(stored is Ok && issued is Ok);
        assert(self@ == after_subscribe(before, form@, id, kept@, now));
        Ok(Subscription { subscriber_id: id, token: kept, confirmation: confirmation })
    }

    /// Carries out a subscribe request at time `now` (seconds since the Unix
    /// epoch): draws a random identifier and a random token and proceeds as
    /// `subscribe_with` does with these.
    pub fn subscribe(&mut self, form: &FormData, now: i64) -> (r: Result<Subscription, Error>)
        requires
            old(self).wf(),
        ensures
            final(self).wf(),
            exists|id: u128, hi: u128, lo: u128|
                is_random_uuid(id) && is_random_uuid(hi) && is_random_uuid(lo) && (
                    final(self)@,
                    subscribed_view(r),
                ) == #[trigger] subscribe_step(old(self)@, form@, id, token_text(hi, lo), now),
    {
        let id = random_uuid();
        let hi = random_uuid();
        let lo = random_uuid();
        let token = token_from(hi, lo);
        self.subscribe_with(form, id, token, now)
    }

    /// Carries out a confirm request: redeems the token and, in the same
    /// step, marks its subscriber as confirmed. An unknown or used token is
    /// answered with `TokenNotFound` and changes nothing.
    pub fn confirm(&mut self, token: &str) -> (r: Result<u128, Error>)
        requires
            old(self).wf(),
        ensures
            final(self).wf(),
            r == confirm_verdict(old(self)@, token@),
            final(self)@ == after_confirm(old(self)@, token@),
    {
        let ghost before = self@;
        proof {
            lemma_confirm_keeps_wf(before, token@);
        }
        match self.tokens.redeem(token) {
            Ok(id) => {
                let found = self.subscribers.set_status(id, SubscriberStatus::Confirmed);
                Ok(id)
            },
            Err(e) => Err(e),
        }
    }
}

} // verus!
