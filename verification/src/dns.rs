use vstd::prelude::*;
use vstd::string::StrSliceExecFns;

verus! {

/// A question of a DNS-over-HTTPS JSON reply.
pub struct DnsQuestion {
    pub name: String,
    pub type_: i32,
}

/// An answer record of a DNS-over-HTTPS JSON reply.
pub struct DnsAnswer {
    pub name: String,
    pub type_: i32,
    pub ttl: i32,
    pub data: String,
}

/// A DNS-over-HTTPS JSON reply (the format of `dns.google.com/resolve`).
pub struct DnsQueryResponse {
    pub status: i32,
    pub tc: bool,
    pub rd: bool,
    pub ra: bool,
    pub ad: bool,
    pub cd: bool,
    pub question: Vec<DnsQuestion>,
    pub answer: Vec<DnsAnswer>,
    pub comment: Option<String>,
}

/// The address that asks the DNS-over-HTTPS service for the TXT records of `name`.
pub open spec fn dns_query_url_of(name: Seq<char>) -> Seq<char> {
    "https://dns.google.com/resolve?name="@ + name + "&type=TXT"@
}

/// Builds the address that asks the DNS-over-HTTPS service for the TXT records of `name`.
/// The name is put in as it is.
pub fn dns_query_url(name: &str) -> (url: String)
    ensures
        url@ == dns_query_url_of(name@),
{
    let mut url = String::from_str("https://dns.google.com/resolve?name=");
    url.append(name);
    url.append("&type=TXT");
    url
}

/// The TXT lookup result that a reply gives: one record, the UTF-8 bytes of the data of
/// its first answer.
pub fn txt_lookup_records(response: &DnsQueryResponse) -> (records: Vec<Vec<u8>>)
    requires
        response.answer@.len() > 0,
    ensures
        records@.len() == 1,
        records@[0]@ == vstd::utf8::encode_utf8(response.answer@[0].data@),
{
    let data = response.answer[0].data.as_str().as_bytes_vec();
    let mut records: Vec<Vec<u8>> = Vec::new();
    records.push(data);
    records
}

} // verus!
