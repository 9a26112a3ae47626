use zero2prod::configuration::{EmailClientSettings, Environment};
use zero2prod::domain::newsletter_issue::NewsletterIssue;
use zero2prod::domain::subscriber_email::SubscriberEmail;
use zero2prod::domain::subscriber_name::SubscriberName;
use zero2prod::domain::subscription_token::SubscriptionToken;
use zero2prod::idempotency::IdempotencyKey;
use zero2prod::subscriptions::{confirmation_link, confirmation_plain_body, NewSubscriber};

#[test]
fn subscriber_email_empty_string_is_rejected() {
    let email = "";
    assert!(SubscriberEmail::from_str(email).is_err());
}

#[test]
fn email_missing_at_symbol_is_rejected() {
    let email = "ursuladomain.com";
    assert!(SubscriberEmail::from_str(email).is_err());
}

#[test]
fn email_missing_subject_is_rejected() {
    let email = "@domain.com";
    assert!(SubscriberEmail::from_str(email).is_err());
}

#[test]
fn a_valid_email_is_parsed_successfully() {
    let email = SubscriberEmail::from_str("ursula_le_guin@gmail.com").unwrap();
    assert_eq!(email.as_ref(), "ursula_le_guin@gmail.com");
}

#[test]
fn blank_email_reports_emptiness() {
    match SubscriberEmail::from_str("   ") {
        Err(m) => assert_eq!(m, "Subscriber email can't be empty."),
        Ok(_) => panic!("a blank e-mail was accepted"),
    }
}

#[test]
fn invalid_email_names_itself_in_the_error() {
    match SubscriberEmail::from_str("definitely-not-an-email") {
        Err(m) => assert_eq!(m, "definitely-not-an-email is not a valid subscriber email."),
        Ok(_) => panic!("an invalid e-mail was accepted"),
    }
}

#[test]
fn a_256_grapheme_long_name_is_valid() {
    let name = "a".repeat(256);
    assert!(SubscriberName::from_str(&name).is_ok());
}

#[test]
fn a_name_longer_than_256_graphemes_is_rejected() {
    let name = "a".repeat(257);
    assert!(SubscriberName::from_str(&name).is_err());
}

#[test]
fn whitespace_only_names_are_rejected() {
    let name = " ";
    assert!(SubscriberName::from_str(name).is_err());
}

#[test]
fn subscriber_name_empty_string_is_rejected() {
    let name = "";
    assert!(SubscriberName::from_str(name).is_err());
}

#[test]
fn names_containing_invalid_chars_are_rejected() {
    for name in &['/', '(', ')', '"', '<', '>', '\\', '{', '}'] {
        let name = name.to_string();
        assert!(SubscriberName::from_str(&name).is_err());
    }
}

#[test]
fn a_valid_name_is_parsed_successfully() {
    let name = "Ursula Le Guin";
    assert!(SubscriberName::from_str(name).is_ok());
}

#[test]
fn combining_marks_count_as_one_grapheme() {
    let name = "e\u{301}".repeat(256);
    assert!(SubscriberName::from_str(&name).is_ok());
    let longer = "e\u{301}".repeat(257);
    match SubscriberName::from_str(&longer) {
        Err(m) => assert_eq!(m, format!("{} is not a valid subscriber name.", longer)),
        Ok(_) => panic!("a long name was accepted"),
    }
}

#[test]
fn new_subscriber_checks_the_name_first() {
    match NewSubscriber::try_from("not-an-email", "") {
        Err(m) => assert_eq!(m, "Subscriber name can't be empty."),
        Ok(_) => panic!("an empty name was accepted"),
    }
    let s = NewSubscriber::try_from("ursula_le_guin@gmail.com", "le guin").unwrap();
    assert_eq!(s.email.as_ref(), "ursula_le_guin@gmail.com");
    assert_eq!(s.name.as_ref(), "le guin");
}

#[test]
fn empty_issue_parts_are_rejected_in_order() {
    let e = NewsletterIssue::try_new(String::new(), String::new(), String::new());
    assert_eq!(e.err().unwrap(), "Title can't be empty.");
    let e = NewsletterIssue::try_new("t".to_string(), String::new(), String::new());
    assert_eq!(e.err().unwrap(), "Text content can't be empty.");
    let e = NewsletterIssue::try_new("t".to_string(), "x".to_string(), String::new());
    assert_eq!(e.err().unwrap(), "Html content can't be empty.");
}

#[test]
fn a_complete_issue_keeps_its_parts() {
    let issue = NewsletterIssue::try_new(
        "Newsletter title".to_string(),
        "Newsletter body as plain text".to_string(),
        "<p>Newsletter body as HTML</p>".to_string(),
    )
    .unwrap();
    assert_eq!(issue.title(), "Newsletter title");
    assert_eq!(issue.text_content(), "Newsletter body as plain text");
    assert_eq!(issue.html_content(), "<p>Newsletter body as HTML</p>");
}

#[test]
fn fresh_tokens_are_25_alphanumeric_characters() {
    let a = SubscriptionToken::new();
    let b = SubscriptionToken::new();
    assert_eq!(a.as_ref().chars().count(), 25);
    assert!(a.as_ref().chars().all(|c| c.is_ascii_alphanumeric()));
    assert_ne!(a.as_ref(), b.as_ref());
}

#[test]
fn tokens_of_the_wrong_length_are_rejected() {
    assert!(SubscriptionToken::from_str("aaaaaaaaaaaaaaaaaaaaaaaaa").is_ok());
    match SubscriptionToken::from_str("123") {
        Err(m) => assert_eq!(m, "Token \"123\" is not in a valid format."),
        Ok(_) => panic!("a short token was accepted"),
    }
}

#[test]
fn confirmation_link_carries_the_token() {
    let token = SubscriptionToken::from_str("aaaaaaaaaaaaaaaaaaaaaaaaa").unwrap();
    let link = confirmation_link("http://127.0.0.1", &token);
    assert_eq!(
        link,
        "http://127.0.0.1/subscriptions/confirm?subscription_token=aaaaaaaaaaaaaaaaaaaaaaaaa"
    );
    assert_eq!(
        confirmation_plain_body(&link),
        format!("Welcome to our newsletter!\nVisit {} to confirm your subscription.", link)
    );
}

#[test]
fn environment_names_are_case_insensitive() {
    assert_eq!(Environment::try_from("LoCaL".to_string()), Ok(Environment::Local));
    assert_eq!(Environment::try_from("PRODUCTION".to_string()), Ok(Environment::Production));
    assert_eq!(Environment::Local.as_str(), "local");
    assert_eq!(Environment::Production.as_str(), "production");
    assert_eq!(
        Environment::try_from("Staging".to_string()),
        Err("staging is not a supported environment. Use either `local` or `production`.".to_string())
    );
}

#[test]
fn sender_is_parsed_and_timeout_kept() {
    let settings = EmailClientSettings {
        base_url: "http://localhost".to_string(),
        sender_email: "sender@example.com".to_string(),
        authorization_token: "SECRET-REDACTED".to_string(),
        timeout_milliseconds: 180,
    };
    assert_eq!(settings.sender().unwrap().as_ref(), "sender@example.com");
    assert_eq!(settings.timeout(), std::time::Duration::from_millis(180));
    let bad = EmailClientSettings { sender_email: "nope".to_string(), ..settings };
    assert!(bad.sender().is_err());
}

#[test]
fn idempotency_keys_must_be_short_and_present() {
    assert!(IdempotencyKey::try_from(String::new()).is_err());
    assert!(IdempotencyKey::try_from("k".repeat(50)).is_err());
    let key = IdempotencyKey::try_from("k".repeat(49)).unwrap();
    assert_eq!(key.as_str(), "k".repeat(49));
}

#[test]
fn token_length_is_counted_in_bytes() {
    let accented = "\u{e9}".repeat(25);
    assert!(SubscriptionToken::from_str(&accented).is_err());
    let thirteen = "\u{e9}".repeat(12) + "a";
    assert!(SubscriptionToken::from_str(&thirteen).is_ok());
}

#[test]
fn token_errors_quote_the_input_escaped() {
    match SubscriptionToken::from_str("a\"b") {
        Err(m) => assert_eq!(m, "Token \"a\\\"b\" is not in a valid format."),
        Ok(_) => panic!("a short token was accepted"),
    }
}

#[test]
fn new_subscriber_reports_a_bad_email_after_a_good_name() {
    match NewSubscriber::try_from("definitely-not-an-email", "Ursula") {
        Err(m) => assert_eq!(m, "definitely-not-an-email is not a valid subscriber email."),
        Ok(_) => panic!("an invalid e-mail was accepted"),
    }
}
