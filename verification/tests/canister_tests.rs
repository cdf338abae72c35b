use dkim_backend::canister::{greet, timestamp_seconds};
use dkim_backend::dns::{dns_query_url, txt_lookup_records, DnsAnswer, DnsQueryResponse};
use dkim_backend::resolver::Resolver;

#[test]
fn greet_world() {
    assert_eq!(greet("World"), "Hello, World!");
    assert_eq!(greet(""), "Hello, !");
}

#[test]
fn timestamp_takes_first_ten_digits() {
    assert_eq!(timestamp_seconds(1_700_000_000_123_456_789), 1_700_000_000);
    assert_eq!(timestamp_seconds(1_000_000_000), 1_000_000_000);
    assert_eq!(timestamp_seconds(9_999_999_999), 9_999_999_999);
    assert_eq!(timestamp_seconds(12_345_678_901), 1_234_567_890);
}

#[test]
fn dns_url_for_name() {
    assert_eq!(
        dns_query_url("sel._domainkey.example.com"),
        "https://dns.google.com/resolve?name=sel._domainkey.example.com&type=TXT"
    );
}

#[test]
fn txt_record_is_first_answer() {
    let response = DnsQueryResponse {
        status: 0,
        tc: false,
        rd: true,
        ra: true,
        ad: false,
        cd: false,
        question: vec![],
        answer: vec![
            DnsAnswer { name: "a".to_string(), type_: 16, ttl: 300, data: "v=DKIM1; p=abc".to_string() },
            DnsAnswer { name: "a".to_string(), type_: 16, ttl: 300, data: "other".to_string() },
        ],
        comment: None,
    };
    assert_eq!(txt_lookup_records(&response), vec![b"v=DKIM1; p=abc".to_vec()]);
}

#[test]
fn resolver_calls_its_lookup() {
    let resolver = Resolver::new(|name: &str| format!("txt of {}", name));
    assert_eq!(resolver.lookup_txt("example.com"), "txt of example.com");
    let copy = resolver.clone();
    assert_eq!(copy.lookup_txt("x"), "txt of x");
}
