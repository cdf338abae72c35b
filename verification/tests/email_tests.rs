use dkim_backend::email::{normalize_line_endings, parse_message};
use dkim_backend::verification::{verification_from_fields, DkimStatus};

fn text(chars: Vec<char>) -> String {
    chars.into_iter().collect()
}

#[test]
fn normalize_empty_message_is_one_crlf() {
    assert_eq!(text(normalize_line_endings("")), "\r\n");
}

#[test]
fn normalize_lone_newline() {
    assert_eq!(text(normalize_line_endings("\n")), "\r\n");
}

#[test]
fn normalize_mixed_line_endings() {
    assert_eq!(text(normalize_line_endings("a\nb\r\nc")), "a\r\nb\r\nc\r\n");
    assert_eq!(text(normalize_line_endings("a\n\nb\n")), "a\r\n\r\nb\r\n");
}

#[test]
fn normalize_keeps_bare_carriage_return() {
    assert_eq!(text(normalize_line_endings("a\r")), "a\r\r\n");
    assert_eq!(text(normalize_line_endings("a\rb\n")), "a\rb\r\n");
}

#[test]
fn parse_message_splits_header_and_body() {
    let m = parse_message("From: me\nTo: you\nSubject: 123\n\nHello\nthere\n").unwrap();
    assert_eq!(m.header_string, "From: me\r\nTo: you\r\nSubject: 123\r\n");
    assert_eq!(m.body_string, "Hello\r\nthere\r\n");
    assert_eq!(m.header_fields.as_ref().len(), 3);
}

#[test]
fn parse_message_with_crlf_and_empty_body() {
    let m = parse_message("From: me\r\n\r\n").unwrap();
    assert_eq!(m.header_string, "From: me\r\n");
    assert_eq!(m.body_string, "");
}

#[test]
fn parse_message_splits_at_first_blank_line() {
    let m = parse_message("A: 1\n\nbody\n\nmore").unwrap();
    assert_eq!(m.header_string, "A: 1\r\n");
    assert_eq!(m.body_string, "body\r\n\r\nmore\r\n");
}

#[test]
fn parse_message_without_blank_line_is_ill_formed() {
    let e = parse_message("From: me\nTo: you\n").unwrap_err();
    assert_eq!(e, "ill-formed input message");
}

#[test]
fn parse_message_with_bad_header_is_ill_formed() {
    let e = parse_message("not a header line\n\nbody\n").unwrap_err();
    assert_eq!(e, "ill-formed input message");
    let e = parse_message(" continued: first\n\nbody\n").unwrap_err();
    assert_eq!(e, "ill-formed input message");
}

#[test]
fn verification_renders_bodies_with_debug() {
    let m = parse_message("To: you <you@example.com>\nSubject: \"123\"\tx\n\nx\n").unwrap();
    let v = verification_from_fields(&m.header_fields, true).unwrap();
    assert_eq!(v.subject, "\" you <you@example.com>\"");
    assert_eq!(v.to, "\" \\\"123\\\"\\tx\"");
}

#[test]
fn verification_takes_first_selected_as_subject() {
    let m = parse_message("From: a\nTo: you@example.com\nSubject: 456\n\nx\n").unwrap();
    let v = verification_from_fields(&m.header_fields, true).unwrap();
    assert_eq!(v.status, DkimStatus::Success);
    assert_eq!(v.subject, "\" you@example.com\"");
    assert_eq!(v.to, "\" 456\"");
}

#[test]
fn verification_with_subject_first() {
    let m = parse_message("Subject: 456\nFrom: a\nTo: you@example.com\n\nx\n").unwrap();
    let v = verification_from_fields(&m.header_fields, false).unwrap();
    assert_eq!(v.status, DkimStatus::Failure);
    assert_eq!(v.subject, "\" 456\"");
    assert_eq!(v.to, "\" you@example.com\"");
}

#[test]
fn verification_needs_two_selected_fields() {
    let m = parse_message("Subject: 456\nFrom: a\n\nx\n").unwrap();
    assert!(verification_from_fields(&m.header_fields, true).is_none());
    let m = parse_message("subject: 456\nto: a\n\nx\n").unwrap();
    assert!(verification_from_fields(&m.header_fields, true).is_none());
}
