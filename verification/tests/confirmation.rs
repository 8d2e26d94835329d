use zero2prod::confirmation::{
    check_form, draft, draft_with, subscription_outcome, write_confirmation,
    ConfirmationWorkflow, FormData,
};
use zero2prod::domain::ValidationError;
use zero2prod::errors::{http_status, response_status, DeliveryFailure, Error, StoreError};
use zero2prod::subscriber::SubscriberStatus;
use zero2prod::token::token_from;

fn form(email: &str, name: &str) -> FormData {
    FormData { email: email.to_string(), name: name.to_string() }
}

fn workflow() -> ConfirmationWorkflow {
    ConfirmationWorkflow::new("http://127.0.0.1".to_string())
}

#[test]
fn subscribe_stores_valid_form_data_and_answers_200() {
    let mut w = workflow();
    let r = w.subscribe(&form("ursula_le_guin@gmail.com", "le guin"), 1_700_000_000);
    assert_eq!(200, response_status(&r));
    assert_eq!(w.subscribers().len(), 1);
    let saved = w.subscribers().row(0);
    assert_eq!(saved.email, "ursula_le_guin@gmail.com");
    assert_eq!(saved.name, "le guin");
    assert_eq!(saved.status, SubscriberStatus::Pending);
}

#[test]
fn subscribe_answers_400_when_a_field_is_empty_or_malformed() {
    let cases = vec![
        (form("", "le guin"), ValidationError::MalformedEmail),
        (form("ursula_le_guin@gmail.com", ""), ValidationError::EmptyName),
        (form("", ""), ValidationError::EmptyName),
        (form("definitely-not-an-email", "le guin"), ValidationError::MalformedEmail),
        (form("ursula_le_guin@gmail.com", "le\u{7}guin"), ValidationError::ControlCharacterInName),
    ];
    for (f, expected) in cases {
        let mut w = workflow();
        let r = w.subscribe(&f, 1_700_000_000);
        assert_eq!(400, response_status(&r));
        assert_eq!(r.err(), Some(Error::Validation(expected)));
        assert_eq!(w.subscribers().len(), 0);
        assert_eq!(w.tokens().len(), 0);
    }
}

#[test]
fn check_form_judges_the_name_before_the_address() {
    assert_eq!(check_form(&form("nope", "")), Err(ValidationError::EmptyName));
    assert_eq!(check_form(&form("nope", "A")), Err(ValidationError::MalformedEmail));
    assert_eq!(check_form(&form("a@x.com", "A")), Ok(()));
}

#[test]
fn subscribe_with_stores_a_pending_subscriber_and_its_token() {
    let mut w = workflow();
    let token = token_from(1, 2);
    let s = w.subscribe_with(&form("a@x.com", "A"), 7, token.clone(), 1_700_000_000).unwrap();
    assert_eq!(s.subscriber_id, 7);
    assert_eq!(s.token, token);
    assert_eq!(s.confirmation.recipient, "a@x.com");
    assert_eq!(s.confirmation.subject, "Welcome!");
    let link = format!("http://127.0.0.1/subscriptions/confirm?subscription_token={}", token);
    assert_eq!(
        s.confirmation.html_body,
        format!(
            "Welcome to our newsletter!<br />Click <a href=\"{}\">here</a> to confirm your subscription.",
            link
        )
    );
    assert_eq!(
        s.confirmation.text_body,
        format!("Welcome to our newsletter!\nVisit {} to confirm your subscription.", link)
    );
    let row = w.subscribers().row(0);
    assert_eq!(row.id, 7);
    assert_eq!(row.email, "a@x.com");
    assert_eq!(row.name, "A");
    assert_eq!(row.status, SubscriberStatus::Pending);
    assert_eq!(row.subscribed_at, 1_700_000_000);
    assert_eq!(w.tokens().find(&token), Some(7));
    assert_eq!(w.find_by_token(&token).map(|s| s.id), Some(7));
}

#[test]
fn write_confirmation_embeds_the_token_in_the_link() {
    let m = write_confirmation("https://news.example", "a@x.com", "tok");
    assert_eq!(m.recipient, "a@x.com");
    assert_eq!(
        m.text_body,
        "Welcome to our newsletter!\nVisit https://news.example/subscriptions/confirm?subscription_token=tok to confirm your subscription."
    );
}

#[test]
fn subscribe_refuses_duplicates_and_changes_nothing() {
    let mut w = workflow();
    w.subscribe_with(&form("a@x.com", "A"), 7, token_from(1, 2), 10).unwrap();
    let same_id = w.subscribe_with(&form("b@x.com", "B"), 7, token_from(3, 4), 11);
    assert_eq!(same_id.err(), Some(Error::Persistence(StoreError::DuplicateSubscriberId)));
    let same_email = w.subscribe_with(&form("a@x.com", "B"), 8, token_from(3, 4), 11);
    assert_eq!(same_email.err(), Some(Error::Persistence(StoreError::DuplicateEmail)));
    let same_token = w.subscribe_with(&form("b@x.com", "B"), 8, token_from(1, 2), 11);
    assert_eq!(same_token.err(), Some(Error::Persistence(StoreError::DuplicateToken)));
    assert_eq!(500, http_status(Error::Persistence(StoreError::DuplicateToken)));
    assert_eq!(w.subscribers().len(), 1);
    assert_eq!(w.tokens().len(), 1);
    // the identifier is judged before the address, and the address before the token
    let all = w.subscribe_with(&form("a@x.com", "B"), 7, token_from(1, 2), 11);
    assert_eq!(all.err(), Some(Error::Persistence(StoreError::DuplicateSubscriberId)));
}

#[test]
fn a_token_confirms_exactly_once() {
    let mut w = workflow();
    let s = w.subscribe(&form("a@x.com", "A"), 1_700_000_000).unwrap();
    assert_eq!(w.subscribers().row(0).status, SubscriberStatus::Pending);
    assert_eq!(w.confirm(&s.token), Ok(s.subscriber_id));
    assert_eq!(w.subscribers().row(0).status, SubscriberStatus::Confirmed);
    assert_eq!(w.tokens().len(), 0);
    let again = w.confirm(&s.token);
    assert_eq!(again, Err(Error::TokenNotFound));
    assert_eq!(404, response_status(&again));
    assert_eq!(w.subscribers().row(0).status, SubscriberStatus::Confirmed);
}

#[test]
fn an_unknown_token_confirms_nobody() {
    let mut w = workflow();
    w.subscribe_with(&form("a@x.com", "A"), 7, token_from(1, 2), 10).unwrap();
    assert_eq!(w.confirm("not-a-token"), Err(Error::TokenNotFound));
    assert_eq!(w.subscribers().row(0).status, SubscriberStatus::Pending);
    assert_eq!(w.tokens().len(), 1);
    assert!(w.find_by_token("not-a-token").is_none());
}

#[test]
fn confirming_one_subscriber_leaves_the_others_pending() {
    let mut w = workflow();
    w.subscribe_with(&form("a@x.com", "A"), 1, token_from(1, 1), 10).unwrap();
    w.subscribe_with(&form("b@x.com", "B"), 2, token_from(2, 2), 11).unwrap();
    w.subscribe_with(&form("c@x.com", "C"), 3, token_from(3, 3), 12).unwrap();
    assert_eq!(w.confirm(&token_from(2, 2)), Ok(2));
    assert_eq!(w.subscribers().row(0).status, SubscriberStatus::Pending);
    assert_eq!(w.subscribers().row(1).status, SubscriberStatus::Confirmed);
    assert_eq!(w.subscribers().row(2).status, SubscriberStatus::Pending);
    assert_eq!(w.tokens().find(&token_from(1, 1)), Some(1));
    assert_eq!(w.tokens().find(&token_from(3, 3)), Some(3));
    let confirmed = w.subscribers().list_confirmed();
    assert_eq!(confirmed.len(), 1);
    assert_eq!(confirmed[0].email, "b@x.com");
}

#[test]
fn a_failed_confirmation_mail_leaves_the_registration_in_place() {
    let mut w = workflow();
    let s = w.subscribe(&form("a@x.com", "A"), 1_700_000_000).unwrap();
    let told = subscription_outcome(s.subscriber_id, Err(DeliveryFailure::Transient));
    assert_eq!(told, Err(Error::Delivery(DeliveryFailure::Transient)));
    assert_eq!(500, response_status(&told));
    assert_eq!(w.subscribers().len(), 1);
    assert_eq!(w.subscribers().row(0).status, SubscriberStatus::Pending);
    assert_eq!(w.confirm(&s.token), Ok(s.subscriber_id));
    assert_eq!(subscription_outcome(9, Ok(())), Ok(9));
}

#[test]
fn subscribe_draws_random_version_four_identifiers_and_fresh_tokens() {
    let mut w = workflow();
    let a = w.subscribe(&form("a@x.com", "A"), 1_700_000_000).unwrap();
    let b = w.subscribe(&form("b@x.com", "B"), -5).unwrap();
    let mask: u128 = 0x0000_0000_0000_f000_c000_0000_0000_0000;
    let v4: u128 = 0x0000_0000_0000_4000_8000_0000_0000_0000;
    assert_eq!(a.subscriber_id & mask, v4);
    assert_eq!(b.subscriber_id & mask, v4);
    assert_ne!(a.subscriber_id, b.subscriber_id);
    assert_ne!(a.token, b.token);
    assert_eq!(a.token.len(), 64);
    assert!(a.token.chars().all(|c| c.is_ascii_hexdigit() && !c.is_ascii_uppercase()));
    let hi = u128::from_str_radix(&a.token[..32], 16).unwrap();
    let lo = u128::from_str_radix(&a.token[32..], 16).unwrap();
    assert_eq!(hi & mask, v4);
    assert_eq!(lo & mask, v4);
    assert_eq!(w.subscribers().row(0).subscribed_at, 1_700_000_000);
    assert_eq!(w.subscribers().row(1).subscribed_at, -5);
}

#[test]
fn draft_stores_nothing_and_says_what_is_to_be_stored_and_sent() {
    let d = draft("http://h", &form("a@x.com", "A"), 42).unwrap();
    assert_eq!(d.subscriber.email, "a@x.com");
    assert_eq!(d.subscriber.name, "A");
    assert_eq!(d.subscriber.status, SubscriberStatus::Pending);
    assert_eq!(d.subscriber.subscribed_at, 42);
    assert_eq!(d.token.subscriber_id, d.subscriber.id);
    assert_eq!(d.token.token.len(), 64);
    assert_eq!(d.confirmation.recipient, "a@x.com");
    assert!(d.confirmation.text_body.contains(&d.token.token));
    assert_eq!(draft("http://h", &form("a@x.com", ""), 42).err(), Some(ValidationError::EmptyName));
    let fixed = draft_with("http://h", &form("a@x.com", "A"), 7, "tok".to_string(), 42).unwrap();
    assert_eq!(fixed.subscriber.id, 7);
    assert_eq!(fixed.token.token, "tok");
    assert_eq!(
        fixed.confirmation.text_body,
        "Welcome to our newsletter!\nVisit http://h/subscriptions/confirm?subscription_token=tok to confirm your subscription."
    );
}
