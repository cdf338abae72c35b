use dkim_backend::otp::otp_from_subject;
use dkim_backend::registry::Registry;
use dkim_backend::text::text_contains;
use dkim_backend::verification::{DkimStatus, DkimVerification};

const T0: u64 = 1_700_000_000_000_000_000;
const FIVE_MINUTES: u64 = 300_000_000_000;

fn verification(status: DkimStatus, to: &str, subject: &str) -> DkimVerification {
    DkimVerification { status, to: to.to_string(), subject: subject.to_string() }
}

#[test]
fn otp_from_quoted_subject() {
    assert_eq!(otp_from_subject("\" 123\""), Some(123));
    assert_eq!(otp_from_subject("\"1 2 3\""), Some(123));
    assert_eq!(otp_from_subject("\"+42\""), Some(42));
    assert_eq!(otp_from_subject("\"0065535\""), Some(65535));
}

#[test]
fn otp_refused_subjects() {
    assert_eq!(otp_from_subject("\"\""), None);
    assert_eq!(otp_from_subject("\"+\""), None);
    assert_eq!(otp_from_subject("\"-1\""), None);
    assert_eq!(otp_from_subject("\"65536\""), None);
    assert_eq!(otp_from_subject("\"12a\""), None);
    assert_eq!(otp_from_subject("\"ABC\""), None);
}

#[test]
fn contains_finds_substrings() {
    assert!(text_contains("\" you <you@example.com>\"", "you@example.com"));
    assert!(text_contains("abc", ""));
    assert!(!text_contains("abc", "abcd"));
    assert!(!text_contains("you@example.org", "you@example.com"));
}

#[test]
fn register_issues_code_in_range() {
    let mut r = Registry::new();
    let code = r.register_email("a@x.org".to_string(), T0).unwrap();
    assert!((10000..=65535).contains(&code));
}

#[test]
fn register_with_code_then_finalize_then_retrieve() {
    let mut r = Registry::new();
    assert_eq!(r.register_email_with_code("a@x.org".to_string(), 321, T0), Ok(321));
    let v = verification(DkimStatus::Success, "\" Alice <a@x.org>\"", "\" 321\"");
    assert_eq!(r.finalize_secret(&v, "seed words".to_string(), T0), Ok(()));
    assert!(r.is_email_registered(&"a@x.org".to_string()));
    assert_eq!(r.retrieve_secret(&v, T0), Ok("seed words".to_string()));
}

#[test]
fn registered_email_is_refused() {
    let mut r = Registry::new();
    r.register_email_with_code("a@x.org".to_string(), 200, T0).unwrap();
    let v = verification(DkimStatus::Success, "\"a@x.org\"", "\"200\"");
    r.finalize_secret(&v, "s".to_string(), T0).unwrap();
    assert_eq!(r.register_email("a@x.org".to_string(), T0), Err("Email already registered".to_string()));
    assert_eq!(r.register_email_with_code("a@x.org".to_string(), 300, T0), Err("Email already registered".to_string()));
}

#[test]
fn otp_for_unregistered_email_is_refused() {
    let mut r = Registry::new();
    assert_eq!(r.get_otp("b@x.org".to_string(), T0), Err("Email not registered".to_string()));
    r.register_email_with_code("b@x.org".to_string(), 150, T0).unwrap();
    assert_eq!(r.get_otp_with_code("b@x.org".to_string(), 151, T0), Err("Email not registered".to_string()));
}

#[test]
fn otp_for_registered_email_retrieves_secret() {
    let mut r = Registry::new();
    r.register_email_with_code("c@x.org".to_string(), 500, T0).unwrap();
    r.finalize_secret(&verification(DkimStatus::Success, "\"c@x.org\"", "\"500\""), "k".to_string(), T0).unwrap();
    let code = r.get_otp("c@x.org".to_string(), T0).unwrap();
    assert!((10000..=65535).contains(&code));
    assert_eq!(r.get_otp_with_code("c@x.org".to_string(), 777, T0), Ok(777));
    let v = verification(DkimStatus::Success, "\"c@x.org\"", "\"777\"");
    assert_eq!(r.retrieve_secret(&v, T0), Ok("k".to_string()));
}

#[test]
fn failed_signature_is_refused() {
    let mut r = Registry::new();
    r.register_email_with_code("a@x.org".to_string(), 321, T0).unwrap();
    let v = verification(DkimStatus::Failure, "\"a@x.org\"", "\"321\"");
    assert_eq!(r.finalize_secret(&v, "s".to_string(), T0), Err("Email verification failed".to_string()));
    assert!(!r.is_email_registered(&"a@x.org".to_string()));
    assert_eq!(r.retrieve_secret(&v, T0), Err("Email verification failed".to_string()));
}

#[test]
fn unknown_code_or_other_recipient_is_refused() {
    let mut r = Registry::new();
    r.register_email_with_code("a@x.org".to_string(), 321, T0).unwrap();
    let unknown = verification(DkimStatus::Success, "\"a@x.org\"", "\"322\"");
    assert_eq!(r.finalize_secret(&unknown, "s".to_string(), T0), Err("Email verification failed".to_string()));
    let other = verification(DkimStatus::Success, "\"b@x.org\"", "\"321\"");
    assert_eq!(r.finalize_secret(&other, "s".to_string(), T0), Err("Email verification failed".to_string()));
    assert_eq!(r.verified_address(&unknown, T0), None);
}

#[test]
fn later_secret_overrides_earlier() {
    let mut r = Registry::new();
    r.register_email_with_code("a@x.org".to_string(), 111, T0).unwrap();
    r.register_email_with_code("a@x.org".to_string(), 112, T0).unwrap();
    let v1 = verification(DkimStatus::Success, "\"a@x.org\"", "\"111\"");
    let v2 = verification(DkimStatus::Success, "\"a@x.org\"", "\"112\"");
    r.finalize_secret(&v1, "first".to_string(), T0).unwrap();
    r.finalize_secret(&v2, "second".to_string(), T0).unwrap();
    assert_eq!(r.retrieve_secret(&v1, T0), Ok("second".to_string()));
    assert_eq!(r.secret_of(&"a@x.org".to_string()), Some("second".to_string()));
}

#[test]
fn code_is_accepted_until_five_minutes_pass() {
    let mut r = Registry::new();
    r.register_email_with_code("a@x.org".to_string(), 12345, T0).unwrap();
    let v = verification(DkimStatus::Success, "\"a@x.org\"", "\"12345\"");
    assert!(r.verified_address(&v, T0 + FIVE_MINUTES).is_some());
    assert_eq!(r.verified_address(&v, T0 + FIVE_MINUTES + 1), None);
    assert_eq!(
        r.finalize_secret(&v, "s".to_string(), T0 + FIVE_MINUTES + 1),
        Err("Email verification failed".to_string())
    );
    assert!(!r.is_email_registered(&"a@x.org".to_string()));
    assert_eq!(r.finalize_secret(&v, "s".to_string(), T0 + FIVE_MINUTES), Ok(()));
}

#[test]
fn expired_recovery_code_is_refused() {
    let mut r = Registry::new();
    r.register_email_with_code("a@x.org".to_string(), 20000, T0).unwrap();
    let v = verification(DkimStatus::Success, "\"a@x.org\"", "\"20000\"");
    r.finalize_secret(&v, "seed".to_string(), T0 + 1).unwrap();
    let later = T0 + 10 * FIVE_MINUTES;
    assert_eq!(r.get_otp_with_code("a@x.org".to_string(), 30000, later), Ok(30000));
    let w = verification(DkimStatus::Success, "\"a@x.org\"", "\"30000\"");
    assert_eq!(r.retrieve_secret(&w, later + FIVE_MINUTES), Ok("seed".to_string()));
    assert_eq!(r.retrieve_secret(&w, later + FIVE_MINUTES + 1), Err("Email verification failed".to_string()));
    assert_eq!(r.retrieve_secret(&v, later), Err("Email verification failed".to_string()));
}
