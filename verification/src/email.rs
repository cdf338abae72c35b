use vstd::prelude::*;
use crate::text::{crlf, chars_of, string_from_chars};
use viadkim::header::{HeaderFieldError, HeaderFields};

verus! {

/// Removes one carriage return at the end of a line, if there is one.
pub open spec fn strip_cr(line: Seq<char>) -> Seq<char> {
    if line.len() > 0 && line.last() == '\r' {
        line.drop_last()
    } else {
        line
    }
}

/// The lines of `rest`, where `cur` is the part of the current line read so far.
/// A line ends at `'\n'`, and a `'\r'` just before that `'\n'` belongs to the line ending;
/// a last line without `'\n'` counts only when it is not empty.
pub open spec fn lines_from(rest: Seq<char>, cur: Seq<char>) -> Seq<Seq<char>>
    decreases rest.len(),
{
    if rest.len() == 0 {
        if cur.len() == 0 {
            seq![]
        } else {
            seq![cur]
        }
    } else if rest[0] == '\n' {
        seq![strip_cr(cur)] + lines_from(rest.drop_first(), seq![])
    } else {
        lines_from(rest.drop_first(), cur.push(rest[0]))
    }
}

/// The lines of a text, as `str::lines` yields them.
pub open spec fn text_lines(s: Seq<char>) -> Seq<Seq<char>> {
    lines_from(s, seq![])
}

/// The lines joined with CRLF between them.
pub open spec fn join_crlf(lines: Seq<Seq<char>>) -> Seq<char>
    decreases lines.len(),
{
    if lines.len() == 0 {
        seq![]
    } else if lines.len() == 1 {
        lines[0]
    } else {
        join_crlf(lines.drop_last()) + crlf() + lines.last()
    }
}

/// A message with every line ending made CRLF: its lines joined with CRLF, then a final CRLF.
pub open spec fn normalized_message(s: Seq<char>) -> Seq<char> {
    join_crlf(text_lines(s)) + crlf()
}

proof fn lemma_join_push(done: Seq<Seq<char>>, line: Seq<char>)
    ensures
        join_crlf(done.push(line)) == if done.len() == 0 {
            line
        } else {
            join_crlf(done) + crlf() + line
        },
{
    assert(done.push(line).drop_last() =~= done);
}

fn append_chars(out: &mut Vec<char>, line: &Vec<char>)
    ensures
        final(out)@ == old(out)@ + line@,
{
    let mut i: usize = 0;
    while i < line.len()
        invariant
            i <= line@.len(),
            out@ == old(out)@ + line@.take(i as int),
        decreases line.len() - i,
    {
        out.push(line[i]);
        i += 1;
        assert(out@ =~= old(out)@ + line@.take(i as int));
    }
    assert(line@.take(line@.len() as int) =~= line@);
}

/// Rewrites the line endings of a message to CRLF, ending it with a CRLF.
pub fn normalize_line_endings(s: &str) -> (msg: Vec<char>)
    ensures
        msg@ == normalized_message(s@),
{
    let chars = chars_of(s);
    let mut out: Vec<char> = Vec::new();
    let mut cur: Vec<char> = Vec::new();
    let mut pending_cr = false;
    let mut any_line = false;
    let ghost mut done: Seq<Seq<char>> = seq![];
    let mut i: usize = 0;
    assert(chars@.skip(0) =~= chars@);
    while i < chars.len()
        invariant
            i <= chars@.len(),
            chars@ == s@,
            text_lines(s@) == done + lines_from(chars@.skip(i as int),
                if pending_cr { cur@.push('\r') } else { cur@ }),
            !pending_cr ==> (cur@.len() == 0 || cur@.last() != '\r'),
            out@ == join_crlf(done),
            any_line == (done.len() > 0),
        decreases chars.len() - i,
    {
        let c = chars[i];
        let ghost rest = chars@.skip(i as int);
        let ghost full = if pending_cr { cur@.push('\r') } else { cur@ };
        assert(rest.drop_first() =~= chars@.skip(i + 1));
        if c == '\n' {
            assert(strip_cr(full) == cur@) by {
                if pending_cr {
                    assert(cur@.push('\r').drop_last() =~= cur@);
                }
            }
            proof {
                lemma_join_push(done, cur@);
                assert(done + lines_from(rest, full) =~= done.push(cur@) + lines_from(rest.drop_first(), seq![]));
            }
            if any_line {
                out.push('\r');
                out.push('\n');
            }
            append_chars(&mut out, &cur);
            proof {
                if done.len() > 0 {
                    assert(out@ =~= join_crlf(done) + crlf() + cur@);
                }
                done = done.push(cur@);
            }
            cur = Vec::new();
            pending_cr = false;
            any_line = true;
        } else {
            if pending_cr {
                cur.push('\r');
            }
            if c == '\r' {
                pending_cr = true;
            } else {
                cur.push(c);
                pending_cr = false;
            }
            proof {
                let nfull = if pending_cr { cur@.push('\r') } else { cur@ };
                assert(nfull =~= full.push(c));
            }
        }
        i += 1;
    }
    assert(chars@.skip(i as int) =~= Seq::<char>::empty());
    if pending_cr {
        cur.push('\r');
    }
    if cur.len() > 0 {
        proof {
            lemma_join_push(done, cur@);
        }
        if any_line {
            out.push('\r');
            out.push('\n');
        }
        append_chars(&mut out, &cur);
        proof {
            if done.len() > 0 {
                assert(out@ =~= join_crlf(done) + crlf() + cur@);
            }
            assert(text_lines(s@) =~= done.push(cur@));
        }
    } else {
        assert(text_lines(s@) =~= done);
    }
    out.push('\r');
    out.push('\n');
    assert(out@ =~= normalized_message(s@));
    out
}


/// Whether an empty line (CRLF CRLF) starts at index `i` of `msg`.
pub open spec fn blank_line_at(msg: Seq<char>, i: int) -> bool {
    &&& 0 <= i
    &&& i + 4 <= msg.len()
    &&& msg[i] == '\r'
    &&& msg[i + 1] == '\n'
    &&& msg[i + 2] == '\r'
    &&& msg[i + 3] == '\n'
}

/// `i` is the first index of `msg` at which an empty line starts.
pub open spec fn first_blank_line(msg: Seq<char>, i: int) -> bool {
    &&& blank_line_at(msg, i)
    &&& forall|j: int| 0 <= j < i ==> !#[trigger] blank_line_at(msg, j)
}

/// The header section (with the CRLF of its last line) and the body of a normalized message:
/// they are split at the first empty line, which belongs to neither.
pub open spec fn split_header_body(msg: Seq<char>) -> Option<(Seq<char>, Seq<char>)> {
    if exists|i: int| first_blank_line(msg, i) {
        let i = choose|i: int| first_blank_line(msg, i);
        Some((msg.take(i + 2), msg.skip(i + 4)))
    } else {
        None
    }
}

proof fn lemma_first_blank_line_unique(msg: Seq<char>, i: int, k: int)
    requires
        first_blank_line(msg, i),
        first_blank_line(msg, k),
    ensures
        i == k,
{
    if i < k {
        assert(!blank_line_at(msg, i));
    } else if k < i {
        assert(!blank_line_at(msg, k));
    }
}

/// Finds the first empty line of a message and returns the index where it starts.
pub fn find_blank_line(msg: &Vec<char>) -> (res: Option<usize>)
    ensures
        match res {
            Some(i) => first_blank_line(msg@, i as int),
            None => forall|j: int| !#[trigger] blank_line_at(msg@, j),
        },
{
    let n = msg.len();
    if n < 4 {
        return None;
    }
    let mut i: usize = 0;
    while i <= n - 4
        invariant
            n == msg@.len(),
            4 <= n,
            i <= n - 3,
            forall|j: int| 0 <= j < i ==> !#[trigger] blank_line_at(msg@, j),
        decreases n - i,
    {
        if msg[i] == '\r' && msg[i + 1] == '\n' && msg[i + 2] == '\r' && msg[i + 3] == '\n' {
            return Some(i);
        }
        i += 1;
    }
    None
}

/// Splits a normalized message into its header section and its body.
pub fn split_message(msg: &Vec<char>) -> (res: Option<(String, String)>)
    ensures
        match res {
            Some((header, body)) => split_header_body(msg@) == Some((header@, body@)),
            None => split_header_body(msg@) is None,
        },
{
    match find_blank_line(msg) {
        Some(i) => {
            let n = msg.len();
            assert(blank_line_at(msg@, i as int));
            let header = string_from_chars(msg, 0, i + 2);
            let body = string_from_chars(msg, i + 4, n);
            proof {
                let k = choose|k: int| first_blank_line(msg@, k);
                lemma_first_blank_line_unique(msg@, i as int, k);
                assert(header@ =~= msg@.take(i + 2));
                assert(body@ =~= msg@.skip(i + 4));
            }
            Some((header, body))
        },
        None => {
            assert(!exists|i: int| first_blank_line(msg@, i));
            None
        },
    }
}

/// Viadkim's `HeaderFields`, a collection of header fields; opaque here.
#[verifier::external_type_specification]
#[verifier::external_body]
pub struct ExHeaderFields(HeaderFields);

/// Viadkim's `HeaderFieldError`, the error of parsing header fields.
#[verifier::external_type_specification]
#[verifier::external_body]
pub struct ExHeaderFieldError(HeaderFieldError);

/// What a collection of header fields holds, in order: for each field, its name as written
/// and the `Debug` rendering of its body (a quoted, escaped string).
pub uninterp spec fn header_field_entries(fields: HeaderFields) -> Seq<(Seq<char>, Seq<char>)>;

/// What viadkim's `HeaderFields::from_str` makes of a header section: the entries of the
/// collection it returns, or `None` where it returns an error.
pub uninterp spec fn parsed_header_fields(header: Seq<char>) -> Option<Seq<(Seq<char>, Seq<char>)>>;

/// Parses a header section with viadkim's `HeaderFields::from_str` (through `str::parse`).
/// Trusted: the result is the named `parsed_header_fields` of the input, and a collection
/// it returns holds at least one field (`HeaderFields::new` refuses an empty one).
#[verifier::external_body]
fn parse_header_fields(header: &str) -> (res: Result<HeaderFields, HeaderFieldError>)
    ensures
        match res {
            Ok(fields) => {
                &&& parsed_header_fields(header@) == Some(header_field_entries(fields))
                &&& header_field_entries(fields).len() > 0
            },
            Err(_) => parsed_header_fields(header@) is None,
        },
{
    header.parse()
}

/// Hands out the fields of a collection: each name through its `Display` (`to_string`), each
/// body through its `Debug` (`format!("{:?}", ..)`).
/// Trusted: the result is the named `header_field_entries` of the collection.
#[verifier::external_body]
pub(crate) fn header_field_texts(fields: &HeaderFields) -> (res: Vec<(String, String)>)
    ensures
        res@.len() == header_field_entries(*fields).len(),
        forall|k: int|
            0 <= k < res@.len() ==> (#[trigger] res@[k]).0@ == header_field_entries(*fields)[k].0
                && res@[k].1@ == header_field_entries(*fields)[k].1,
{
    fields.as_ref().iter().map(|(name, body)| (name.to_string(), format!("{:?}", body))).collect()
}

/// An email message: its header section as text, its body as text, and its header fields.
#[derive(Debug)]
pub struct EmailMessage {
    pub header_string: String,
    pub body_string: String,
    pub header_fields: HeaderFields,
}

/// The error text of a message that cannot be parsed.
pub open spec fn ill_formed_message() -> Seq<char> {
    "ill-formed input message"@
}

/// What parsing a message yields: its header section, its body, and the entries of its header
/// fields; `None` where it has no empty line or its header section does not parse.
pub open spec fn message_parts(s: Seq<char>) -> Option<(Seq<char>, Seq<char>, Seq<(Seq<char>, Seq<char>)>)> {
    match split_header_body(normalized_message(s)) {
        Some((header, body)) => match parsed_header_fields(header) {
            Some(entries) => Some((header, body, entries)),
            None => None,
        },
        None => None,
    }
}

/// Parses an email message, given as UTF-8 text with LF or CRLF line endings.
/// The message is normalized to CRLF line endings (with a final CRLF), split at its first
/// empty line into the header section (which keeps the CRLF of its last line) and the body,
/// and the header section is parsed into header fields.
pub fn parse_message(s: &str) -> (res: Result<EmailMessage, String>)
    ensures
        match res {
            Ok(m) => message_parts(s@) == Some((m.header_string@, m.body_string@, header_field_entries(m.header_fields))),
            Err(_) => message_parts(s@) is None,
        },
        match res {
            Ok(m) => {
                &&& split_header_body(normalized_message(s@)) == Some((m.header_string@, m.body_string@))
                &&& parsed_header_fields(m.header_string@) == Some(header_field_entries(m.header_fields))
            },
            Err(e) => {
                &&& e@ == ill_formed_message()
                &&& match split_header_body(normalized_message(s@)) {
                    Some((header, _)) => parsed_header_fields(header) is None,
                    None => true,
                }
            },
        },
{
    let msg = normalize_line_endings(s);
    match split_message(&msg) {
        Some((header, body)) => match parse_header_fields(header.as_str()) {
            Ok(fields) => Ok(EmailMessage { header_string: header, body_string: body, header_fields: fields }),
            Err(_) => Err(ill_formed_error()),
        },
        None => Err(ill_formed_error()),
    }
}

fn ill_formed_error() -> (e: String)
    ensures
        e@ == ill_formed_message(),
{
    String::from_str("ill-formed input message")
}

} // verus!
