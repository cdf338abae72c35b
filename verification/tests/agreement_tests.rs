use dkim_backend::canister::timestamp_seconds;
use dkim_backend::email::normalize_line_endings;
use dkim_backend::otp::otp_from_subject;
use dkim_backend::text::text_contains;

const SAMPLES: [&str; 16] = [
    "", "\n", "\r", "\r\n", "a", "a\n", "a\r", "a\r\n", "a\n\n", "a\r\r\n", "\n\r\n\n",
    "x\ry\nz", "foo\nbar\n\r\nbaz\r", "h: v\n\nbody", "é\n中\r\n", "\r\r\r",
];

#[test]
fn normalization_agrees_with_lines_join() {
    for s in SAMPLES {
        let expected = s.lines().collect::<Vec<_>>().join("\r\n") + "\r\n";
        let got: String = normalize_line_endings(s).into_iter().collect();
        assert_eq!(got, expected, "input {:?}", s);
    }
}

#[test]
fn code_reading_agrees_with_std_parse() {
    let subjects = [
        "\"123\"", "\" 1 2 3 \"", "\"+7\"", "\"+\"", "\"\"", "\"-5\"", "\"65535\"", "\"65536\"",
        "\"0000000000042\"", "\"99999999999\"", "\"12x\"", "\"ABC\"", "\"\\\"9\\\"\"", "\"٣\"",
    ];
    for s in subjects {
        let expected = s.to_ascii_lowercase().replace(" ", "").replace("\"", "").parse::<u16>().ok();
        assert_eq!(otp_from_subject(s), expected, "subject {:?}", s);
    }
}

#[test]
fn containment_agrees_with_str_contains() {
    let pairs = [
        ("", ""), ("abc", ""), ("", "a"), ("abc", "bc"), ("abc", "abcd"), ("aab", "ab"),
        ("\" <me@x.org>\"", "me@x.org"), ("me@x.or", "me@x.org"), ("中文abc", "文a"),
    ];
    for (hay, needle) in pairs {
        assert_eq!(text_contains(hay, needle), hay.contains(needle), "{:?} in {:?}", needle, hay);
    }
}

#[test]
fn timestamp_agrees_with_string_slicing() {
    for nanos in [1_000_000_000u64, 1_700_000_000_123_456_789, 18_446_744_073_709_551_615, 98_765_432_109] {
        let expected: u64 = nanos.to_string()[..10].parse().unwrap();
        assert_eq!(timestamp_seconds(nanos), expected);
    }
}

#[test]
fn normalizing_twice_changes_nothing() {
    for s in SAMPLES {
        let once: String = normalize_line_endings(s).into_iter().collect();
        let twice: String = normalize_line_endings(&once).into_iter().collect();
        assert_eq!(twice, once, "input {:?}", s);
    }
}

#[test]
fn normalized_line_feeds_follow_carriage_returns() {
    for s in SAMPLES {
        let msg = normalize_line_endings(s);
        assert!(msg.ends_with(&['\r', '\n']));
        for i in 0..msg.len() {
            if msg[i] == '\n' {
                assert!(i > 0 && msg[i - 1] == '\r', "input {:?}", s);
            }
        }
    }
}

#[test]
fn header_crlf_and_body_give_back_the_message() {
    let raw = "From: me\nTo: you\n\nline one\n\nline two";
    let m = dkim_backend::email::parse_message(raw).unwrap();
    let msg: String = normalize_line_endings(raw).into_iter().collect();
    assert_eq!(format!("{}\r\n{}", m.header_string, m.body_string), msg);
    assert!(m.header_string.ends_with("\r\n"));
}

fn parts(s: &str) -> Option<(String, String, usize)> {
    dkim_backend::email::parse_message(s)
        .ok()
        .map(|m| (m.header_string, m.body_string, m.header_fields.as_ref().len()))
}

#[test]
fn crlf_line_endings_parse_alike() {
    for s in ["From: a\nTo: b\n\nbody\nmore", "From: a\n", "x\n\ny", "Subject: 1\n\n"] {
        assert_eq!(parts(&s.replace('\n', "\r\n")), parts(s), "input {:?}", s);
    }
}

#[test]
fn final_newline_parses_alike() {
    for s in ["From: a\nTo: b\n\nbody", "", "From: a", "A: 1\n\n\n x"] {
        assert_eq!(parts(&format!("{s}\n")), parts(s), "input {:?}", s);
    }
}
