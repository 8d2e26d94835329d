use zero2prod::domain::{
    chars_of, check_email, check_name, has_no_control, SubscriberEmail, SubscriberName,
    ValidationError,
};
use zero2prod::subscriber::{Subscriber, SubscriberStatus, SubscriberStore};
use zero2prod::errors::StoreError;

#[test]
fn names_must_be_non_empty_and_free_of_control_characters() {
    assert_eq!(check_name("le guin"), Ok(()));
    assert_eq!(check_name("Ursula K. Le Guin"), Ok(()));
    assert_eq!(check_name(" "), Ok(()));
    assert_eq!(check_name("Ünïcödé 名前"), Ok(()));
    assert_eq!(check_name(""), Err(ValidationError::EmptyName));
    assert_eq!(check_name("a\nb"), Err(ValidationError::ControlCharacterInName));
    assert_eq!(check_name("\u{0}"), Err(ValidationError::ControlCharacterInName));
    assert_eq!(check_name("a\u{1f}"), Err(ValidationError::ControlCharacterInName));
    assert_eq!(check_name("a\u{7f}"), Err(ValidationError::ControlCharacterInName));
    assert_eq!(check_name("a\u{9f}"), Err(ValidationError::ControlCharacterInName));
    assert_eq!(check_name("a\u{a0}"), Ok(()));
    assert_eq!(check_name("a\u{20}~"), Ok(()));
}

#[test]
fn control_characters_are_those_that_std_calls_control() {
    for n in 0u32..0x300 {
        let c = char::from_u32(n).unwrap();
        let s = format!("x{}y", c);
        assert_eq!(has_no_control(&s), !c.is_control(), "U+{:04X}", n);
    }
    assert!(has_no_control(""));
}

#[test]
fn chars_of_lists_every_character() {
    assert_eq!(chars_of("aé名"), vec!['a', 'é', '名']);
    assert_eq!(chars_of(""), Vec::<char>::new());
}

#[test]
fn addresses_follow_the_grammar() {
    for good in [
        "ursula_le_guin@gmail.com",
        "a@x.com",
        "a@b",
        "first.last+tag@sub.example-domain.org",
        "!#$%&'*+/=?^_`{|}~-@example.com",
        "A1@B2.C3",
    ] {
        assert!(check_email(good), "{}", good);
    }
    for bad in [
        "",
        "ursuladomain.com",
        "@domain.com",
        "a@",
        "a@@b.com",
        "a@b@c.com",
        "a b@x.com",
        "a@x .com",
        "a@.com",
        "a@com.",
        "a@x..com",
        "a@-x.com",
        "a@x-.com",
        "a@x.-com",
        "a@x-.y",
        "a@x_y.com",
        "\"quoted\"@x.com",
        "ü@x.com",
        "a@ü.com",
        "a(b)@x.com",
    ] {
        assert!(!check_email(bad), "{}", bad);
    }
}

#[test]
fn the_parts_of_an_address_are_bounded() {
    let local64 = "a".repeat(64);
    let local65 = "a".repeat(65);
    assert!(check_email(&format!("{}@x.com", local64)));
    assert!(!check_email(&format!("{}@x.com", local65)));
    let domain255 = format!("{}.com", "a".repeat(251));
    let domain256 = format!("{}.com", "a".repeat(252));
    assert!(check_email(&format!("a@{}", domain255)));
    assert!(!check_email(&format!("a@{}", domain256)));
}

#[test]
fn parse_keeps_the_text_or_says_why_not() {
    let e = SubscriberEmail::parse("ursula_le_guin@gmail.com".to_string()).unwrap();
    assert_eq!(e.as_str(), "ursula_le_guin@gmail.com");
    assert_eq!(e.into_string(), "ursula_le_guin@gmail.com");
    assert_eq!(
        SubscriberEmail::parse("nope".to_string()).err(),
        Some("nope is not a valid subscriber email.".to_string())
    );
    let n = SubscriberName::parse("le guin".to_string()).unwrap();
    assert_eq!(n.as_str(), "le guin");
    assert_eq!(n.into_string(), "le guin");
    assert_eq!(SubscriberName::parse(String::new()).err(), Some(ValidationError::EmptyName));
    assert_eq!(
        SubscriberName::parse("a\tb".to_string()).err(),
        Some(ValidationError::ControlCharacterInName)
    );
}

fn subscriber(id: u128, email: &str, status: SubscriberStatus) -> Subscriber {
    Subscriber {
        id,
        email: email.to_string(),
        name: "N".to_string(),
        status,
        subscribed_at: 0,
    }
}

#[test]
fn the_subscriber_table_keeps_identifiers_and_addresses_unique() {
    let mut s = SubscriberStore::new();
    assert_eq!(s.insert(subscriber(1, "a@x.com", SubscriberStatus::Pending)), Ok(()));
    assert_eq!(
        s.insert(subscriber(1, "b@x.com", SubscriberStatus::Pending)),
        Err(StoreError::DuplicateSubscriberId)
    );
    assert_eq!(
        s.insert(subscriber(2, "a@x.com", SubscriberStatus::Pending)),
        Err(StoreError::DuplicateEmail)
    );
    assert_eq!(s.insert(subscriber(2, "b@x.com", SubscriberStatus::Confirmed)), Ok(()));
    assert_eq!(s.len(), 2);
    assert_eq!(s.find_by_id(2), Some(1));
    assert_eq!(s.find_by_id(3), None);
    assert_eq!(s.find_by_email("a@x.com"), Some(0));
    assert_eq!(s.find_by_email("c@x.com"), None);
}

#[test]
fn set_status_changes_one_row_and_nothing_else() {
    let mut s = SubscriberStore::new();
    s.insert(subscriber(1, "a@x.com", SubscriberStatus::Pending)).unwrap();
    s.insert(subscriber(2, "b@x.com", SubscriberStatus::Pending)).unwrap();
    assert!(s.set_status(2, SubscriberStatus::Confirmed));
    assert!(!s.set_status(9, SubscriberStatus::Confirmed));
    assert_eq!(s.row(0).status, SubscriberStatus::Pending);
    assert_eq!(s.row(1).status, SubscriberStatus::Confirmed);
    assert_eq!(s.row(1).email, "b@x.com");
    assert_eq!(s.row(1).duplicate().id, 2);
    let confirmed = s.list_confirmed();
    assert_eq!(confirmed.len(), 1);
    assert_eq!(confirmed[0].id, 2);
    assert_eq!(s.next_confirmed(0), Some(1));
    assert_eq!(s.next_confirmed(1), Some(1));
    assert_eq!(s.next_confirmed(2), None);
    assert_eq!(s.next_confirmed(usize::MAX), None);
}
