use vstd::prelude::*;
use crate::email::{
    message_parts, parsed_header_fields,
    blank_line_at, first_blank_line, join_crlf, lines_from, normalized_message, split_header_body,
    strip_cr, text_lines,
};
use crate::otp::{all_digits, ascii_lower, code_text, decimal_value, is_digit, otp_code};
use crate::canister::{decimal_text, lemma_decimal_text};
use crate::registry::{
    is_registered, otp_readable, registrations_match_secrets, verified_email, with_code,
    with_secret, RegistryState, CODE_LIFETIME_NANOS,
};
use crate::text::{contains_text, crlf};
use crate::verification::{
    status_of, to_and_subject_fields, verification_from, DkimStatus, DkimVerification,
};

verus! {

/// A secret that was stored through a verification is what that verification, and any other
/// that proves the same email, retrieves afterwards; the email is then registered; and storing
/// a secret changes what no verification proves, at any time.
pub proof fn law_retrieve_after_finalize(
    st: RegistryState,
    v: DkimVerification,
    now: u64,
    secret: Seq<char>,
    w: DkimVerification,
    later: u64,
)
    requires
        otp_readable(v),
        verified_email(st, v, now) is Some,
    ensures
        ({
            let e = verified_email(st, v, now)->0;
            let after = with_secret(st, e, secret);
            &&& verified_email(after, w, later) == verified_email(st, w, later)
            &&& verified_email(after, v, now) == Some(e)
            &&& (verified_email(after, w, later) == Some(e) ==> after.secrets.contains_key(e)
                && after.secrets[e] == secret)
            &&& is_registered(after, e)
        }),
{
    let e = verified_email(st, v, now)->0;
    let after = with_secret(st, e, secret);
    assert(after.emails[after.emails.len() - 1] == e);
}

/// An email whose signature verified, whose subject carries the code issued to an address, and
/// whose recipient contains that address, proves that address up to five minutes after the
/// code was issued.
pub proof fn law_issued_code_proves_email(
    st: RegistryState,
    code: u16,
    email: Seq<char>,
    issued: u64,
    v: DkimVerification,
    now: u64,
)
    requires
        v.status == DkimStatus::Success,
        otp_code(v.subject@) == Some(code),
        contains_text(v.to@, email),
        now <= issued + CODE_LIFETIME_NANOS,
    ensures
        verified_email(with_code(st, code, email, issued), v, now) == Some(email),
{
}

/// A code issued more than five minutes ago proves nothing: neither storing nor retrieving a
/// secret accepts it.
pub proof fn law_expired_code_proves_nothing(st: RegistryState, v: DkimVerification, now: u64)
    requires
        otp_code(v.subject@) matches Some(code) && st.otps.contains_key(code)
            && now > st.otps[code].1 + CODE_LIFETIME_NANOS,
    ensures
        verified_email(st, v, now) is None,
{
}

/// Issuing a code changes neither which emails are registered nor any stored secret.
pub proof fn law_issuing_code_keeps_secrets(st: RegistryState, code: u16, email: Seq<char>, now: u64, other: Seq<char>)
    ensures
        is_registered(with_code(st, code, email, now), other) == is_registered(st, other),
        with_code(st, code, email, now).secrets == st.secrets,
{
}

/// The registered emails and the emails with a stored secret are the same set: so in the
/// empty registry, and every change the registry makes (issuing a code, storing a secret)
/// keeps it so.
pub proof fn law_registrations_match_secrets(st: RegistryState, code: u16, email: Seq<char>, now: u64, secret: Seq<char>)
    requires
        registrations_match_secrets(st),
    ensures
        registrations_match_secrets(with_code(st, code, email, now)),
        registrations_match_secrets(with_secret(st, email, secret)),
        registrations_match_secrets(RegistryState {
            emails: Seq::empty(),
            otps: Map::empty(),
            secrets: Map::empty(),
        }),
{
    let after = with_secret(st, email, secret);
    assert forall|e: Seq<char>| #[trigger] after.emails.contains(e) <==> after.secrets.contains_key(e) by {
        if e == email {
            assert(after.emails[after.emails.len() - 1] == e);
        } else {
            if after.emails.contains(e) {
                let j = choose|j: int| 0 <= j < after.emails.len() && after.emails[j] == e;
                assert(st.emails[j] == e);
            }
            if st.emails.contains(e) {
                let j = choose|j: int| 0 <= j < st.emails.len() && st.emails[j] == e;
                assert(after.emails[j] == e);
            }
        }
    }
    let empty = RegistryState { emails: Seq::empty(), otps: Map::empty(), secrets: Map::empty() };
    assert forall|e: Seq<char>| #[trigger] empty.emails.contains(e) <==> empty.secrets.contains_key(e) by {}
}

/// A verification whose signature failed proves no email.
pub proof fn law_failed_signature_proves_nothing(st: RegistryState, v: DkimVerification, now: u64)
    requires
        v.status == DkimStatus::Failure,
    ensures
        verified_email(st, v, now) is None,
{
}

proof fn lemma_lines_have_no_lf(rest: Seq<char>, cur: Seq<char>)
    requires
        !cur.contains('\n'),
    ensures
        forall|k: int| 0 <= k < lines_from(rest, cur).len() ==> !(#[trigger] lines_from(rest, cur)[k]).contains('\n'),
    decreases rest.len(),
{
    if rest.len() == 0 {
        if cur.len() > 0 {
            assert(lines_from(rest, cur) =~= seq![cur]);
            assert(lines_from(rest, cur)[0] == cur);
        }
    } else if rest[0] == '\n' {
        lemma_lines_have_no_lf(rest.drop_first(), seq![]);
        assert(!strip_cr(cur).contains('\n')) by {
            if strip_cr(cur).contains('\n') {
                let j = choose|j: int| 0 <= j < strip_cr(cur).len() && strip_cr(cur)[j] == '\n';
                assert(cur[j] == '\n');
            }
        }
        let tail = lines_from(rest.drop_first(), seq![]);
        assert forall|k: int| 0 <= k < lines_from(rest, cur).len() implies !(#[trigger] lines_from(rest, cur)[k]).contains('\n') by {
            assert(lines_from(rest, cur) == seq![strip_cr(cur)] + tail);
            if k > 0 {
                assert(lines_from(rest, cur)[k] == tail[k - 1]);
            } else {
                assert(lines_from(rest, cur)[k] == strip_cr(cur));
            }
        }
    } else {
        assert(!cur.push(rest[0]).contains('\n')) by {
            if cur.push(rest[0]).contains('\n') {
                let j = choose|j: int| 0 <= j < cur.push(rest[0]).len() && cur.push(rest[0])[j] == '\n';
                if j < cur.len() {
                    assert(cur[j] == '\n');
                }
            }
        }
        lemma_lines_have_no_lf(rest.drop_first(), cur.push(rest[0]));
        assert(lines_from(rest, cur) == lines_from(rest.drop_first(), cur.push(rest[0])));
    }
}

/// Every line feed of a joined text is preceded by a carriage return, when no line holds one.
proof fn lemma_join_lf_after_cr(lines: Seq<Seq<char>>)
    requires
        forall|k: int| 0 <= k < lines.len() ==> !(#[trigger] lines[k]).contains('\n'),
    ensures
        forall|i: int| 0 <= i < join_crlf(lines).len() && #[trigger] join_crlf(lines)[i] == '\n' ==> i > 0 && join_crlf(lines)[i - 1] == '\r',
    decreases lines.len(),
{
    if lines.len() == 0 {
    } else if lines.len() == 1 {
        assert forall|i: int| 0 <= i < join_crlf(lines).len() && #[trigger] join_crlf(lines)[i] == '\n' implies i > 0 && join_crlf(lines)[i - 1] == '\r' by {
            assert(lines[0].contains('\n')) by {
                assert(lines[0][i] == '\n');
            }
        }
    } else {
        let front = lines.drop_last();
        assert forall|k: int| 0 <= k < front.len() implies !(#[trigger] front[k]).contains('\n') by {
            assert(front[k] == lines[k]);
        }
        lemma_join_lf_after_cr(front);
        let a = join_crlf(front);
        let j = a + crlf() + lines.last();
        assert(join_crlf(lines) == j);
        assert(!lines[lines.len() - 1].contains('\n'));
        assert forall|i: int| 0 <= i < j.len() && #[trigger] j[i] == '\n' implies i > 0 && j[i - 1] == '\r' by {
            if i < a.len() {
                assert(j[i] == a[i]);
                assert(j[i - 1] == a[i - 1]);
            } else if i == a.len() {
                assert(j[i] == '\r');
            } else if i == a.len() + 1 {
                assert(j[i - 1] == '\r');
            } else {
                assert(j[i] == lines.last()[i - a.len() - 2]);
                assert(lines.last().contains('\n'));
            }
        }
    }
}

/// A normalized message ends with CRLF, and every line feed in it ends a CRLF pair.
pub proof fn law_normalized_line_endings(s: Seq<char>)
    ensures
        ({
            let msg = normalized_message(s);
            &&& msg.len() >= 2
            &&& msg[msg.len() - 2] == '\r'
            &&& msg[msg.len() - 1] == '\n'
            &&& forall|i: int| 0 <= i < msg.len() && #[trigger] msg[i] == '\n' ==> i > 0 && msg[i - 1] == '\r'
        }),
{
    lemma_lines_have_no_lf(s, seq![]);
    let lines = text_lines(s);
    lemma_join_lf_after_cr(lines);
    let a = join_crlf(lines);
    let msg = normalized_message(s);
    assert(msg == a + crlf());
    assert forall|i: int| 0 <= i < msg.len() && #[trigger] msg[i] == '\n' implies i > 0 && msg[i - 1] == '\r' by {
        if i < a.len() {
            assert(msg[i] == a[i]);
            assert(msg[i - 1] == a[i - 1]);
        }
    }
}

/// A message splits at its first empty line: the header section ends with the CRLF of its last
/// line, no empty line starts before the split, and the header section, a CRLF and the body
/// put back together give the message.
pub proof fn law_split_reassembles(msg: Seq<char>)
    requires
        split_header_body(msg) is Some,
    ensures
        ({
            let (header, body) = split_header_body(msg)->0;
            &&& header + crlf() + body == msg
            &&& header.len() >= 2
            &&& header[header.len() - 2] == '\r'
            &&& header[header.len() - 1] == '\n'
            &&& forall|j: int| 0 <= j < header.len() - 2 ==> !blank_line_at(msg, j)
        }),
{
    let i = choose|i: int| first_blank_line(msg, i);
    let (header, body) = split_header_body(msg)->0;
    assert(header + crlf() + body =~= msg);
}

/// The recovery protocol: an address that is not registered is issued a code; an email that
/// carries that code, verifies, and is sent to that address, within five minutes, stores the
/// secret and registers the address; later, the address is issued another code, and an email
/// that carries that code, verifies, and is sent to the address, within five minutes,
/// retrieves the same secret.
pub proof fn law_recovery_protocol(
    st: RegistryState,
    email: Seq<char>,
    secret: Seq<char>,
    code: u16,
    issued: u64,
    v: DkimVerification,
    stored_at: u64,
    later_code: u16,
    reissued_at: u64,
    w: DkimVerification,
    retrieved_at: u64,
)
    requires
        !is_registered(st, email),
        v.status == DkimStatus::Success,
        otp_code(v.subject@) == Some(code),
        contains_text(v.to@, email),
        stored_at <= issued + CODE_LIFETIME_NANOS,
        w.status == DkimStatus::Success,
        otp_code(w.subject@) == Some(later_code),
        contains_text(w.to@, email),
        retrieved_at <= reissued_at + CODE_LIFETIME_NANOS,
    ensures
        ({
            let with_first = with_code(st, code, email, issued);
            let stored = with_secret(with_first, email, secret);
            let with_later = with_code(stored, later_code, email, reissued_at);
            &&& verified_email(with_first, v, stored_at) == Some(email)
            &&& is_registered(stored, email)
            &&& verified_email(with_later, w, retrieved_at) == Some(email)
            &&& with_later.secrets.contains_key(email)
            &&& with_later.secrets[email] == secret
        }),
{
    let with_first = with_code(st, code, email, issued);
    law_issued_code_proves_email(st, code, email, issued, v, stored_at);
    law_retrieve_after_finalize(with_first, v, stored_at, secret, v, stored_at);
    let stored = with_secret(with_first, email, secret);
    law_issued_code_proves_email(stored, later_code, email, reissued_at, w, retrieved_at);
}

/// The lines, each followed by CRLF, one after another.
spec fn crlf_terminated(lines: Seq<Seq<char>>) -> Seq<char>
    decreases lines.len(),
{
    if lines.len() == 0 {
        seq![]
    } else {
        lines[0] + crlf() + crlf_terminated(lines.drop_first())
    }
}

proof fn lemma_crlf_terminated_last(lines: Seq<Seq<char>>)
    requires
        lines.len() >= 1,
    ensures
        crlf_terminated(lines) == crlf_terminated(lines.drop_last()) + lines.last() + crlf(),
    decreases lines.len(),
{
    if lines.len() == 1 {
        assert(lines.drop_first() =~= Seq::<Seq<char>>::empty());
        assert(lines.drop_last() =~= Seq::<Seq<char>>::empty());
        assert(crlf_terminated(lines.drop_first()) == Seq::<char>::empty());
        assert(crlf_terminated(lines.drop_last()) == Seq::<char>::empty());
        assert(crlf_terminated(lines) =~= lines[0] + crlf());
        assert(crlf_terminated(lines.drop_last()) + lines.last() + crlf() =~= lines[0] + crlf());
    } else {
        lemma_crlf_terminated_last(lines.drop_first());
        assert(lines.drop_first().drop_last() =~= lines.drop_last().drop_first());
        assert(lines.drop_last()[0] == lines[0]);
        assert(crlf_terminated(lines) =~= crlf_terminated(lines.drop_last()) + lines.last() + crlf());
    }
}

proof fn lemma_join_then_crlf(lines: Seq<Seq<char>>)
    requires
        lines.len() >= 1,
    ensures
        join_crlf(lines) + crlf() == crlf_terminated(lines),
    decreases lines.len(),
{
    lemma_crlf_terminated_last(lines);
    if lines.len() == 1 {
        assert(lines.drop_last() =~= Seq::<Seq<char>>::empty());
        assert(crlf_terminated(lines.drop_last()) =~= Seq::<char>::empty());
        assert(join_crlf(lines) + crlf() =~= crlf_terminated(lines));
    } else {
        lemma_join_then_crlf(lines.drop_last());
        assert(join_crlf(lines) + crlf() =~= crlf_terminated(lines));
    }
}

proof fn lemma_lines_of_terminated_line(line: Seq<char>, rest: Seq<char>, cur: Seq<char>)
    requires
        !line.contains('\n'),
    ensures
        lines_from(line + crlf() + rest, cur) == seq![cur + line] + lines_from(rest, seq![]),
    decreases line.len(),
{
    let text = line + crlf() + rest;
    if line.len() == 0 {
        assert(text =~= crlf() + rest);
        assert(text.drop_first() =~= seq!['\n'] + rest);
        assert((seq!['\n'] + rest).drop_first() =~= rest);
        assert(strip_cr(cur.push('\r')) =~= cur);
        assert(cur + line =~= cur);
        assert(text[0] == '\r');
        assert(lines_from(text, cur) == lines_from(text.drop_first(), cur.push('\r')));
        assert(text.drop_first()[0] == '\n');
        assert(lines_from(text.drop_first(), cur.push('\r'))
            == seq![strip_cr(cur.push('\r'))] + lines_from(text.drop_first().drop_first(), seq![]));
    } else {
        assert(line[0] != '\n') by {
            if line[0] == '\n' {
                assert(line.contains('\n'));
            }
        }
        let tail = line.drop_first();
        assert(!tail.contains('\n')) by {
            if tail.contains('\n') {
                let j = choose|j: int| 0 <= j < tail.len() && tail[j] == '\n';
                assert(line[j + 1] == '\n');
            }
        }
        assert(text.drop_first() =~= tail + crlf() + rest);
        assert(text[0] == line[0]);
        assert(lines_from(text, cur) == lines_from(text.drop_first(), cur.push(line[0])));
        lemma_lines_of_terminated_line(tail, rest, cur.push(line[0]));
        assert(cur.push(line[0]) + tail =~= cur + line);
    }
}

proof fn lemma_lines_of_terminated(lines: Seq<Seq<char>>)
    requires
        forall|k: int| 0 <= k < lines.len() ==> !(#[trigger] lines[k]).contains('\n'),
    ensures
        lines_from(crlf_terminated(lines), seq![]) == lines,
    decreases lines.len(),
{
    if lines.len() > 0 {
        let rest = lines.drop_first();
        assert forall|k: int| 0 <= k < rest.len() implies !(#[trigger] rest[k]).contains('\n') by {
            assert(rest[k] == lines[k + 1]);
        }
        lemma_lines_of_terminated(rest);
        assert(!lines[0].contains('\n'));
        lemma_lines_of_terminated_line(lines[0], crlf_terminated(rest), seq![]);
        assert(Seq::<char>::empty() + lines[0] =~= lines[0]);
        assert(seq![lines[0]] + rest =~= lines);
    }
}

/// Normalizing a message whose line endings are normalized already changes nothing.
pub proof fn law_normalization_idempotent(s: Seq<char>)
    ensures
        normalized_message(normalized_message(s)) == normalized_message(s),
{
    lemma_lines_have_no_lf(s, seq![]);
    let lines = text_lines(s);
    let msg = normalized_message(s);
    if lines.len() == 0 {
        assert(msg =~= crlf());
        assert(msg.drop_first() =~= seq!['\n']);
        assert(seq!['\n'].drop_first() =~= Seq::<char>::empty());
        assert(strip_cr(seq!['\r']) =~= Seq::<char>::empty());
        assert(msg[0] == '\r');
        assert(lines_from(msg, seq![]) == lines_from(msg.drop_first(), seq!['\r'])) by {
            assert(Seq::<char>::empty().push('\r') =~= seq!['\r']);
        }
        assert(lines_from(msg.drop_first(), seq!['\r'])
            == seq![strip_cr(seq!['\r'])] + lines_from(Seq::<char>::empty(), seq![])) by {
            assert(msg.drop_first().drop_first() =~= Seq::<char>::empty());
        }
        assert(lines_from(Seq::<char>::empty(), seq![]) == Seq::<Seq<char>>::empty());
        assert(text_lines(msg) =~= seq![Seq::<char>::empty()]);
        assert(join_crlf(seq![Seq::<char>::empty()]) == Seq::<char>::empty());
        assert(normalized_message(msg) =~= crlf());
    } else {
        lemma_join_then_crlf(lines);
        lemma_lines_of_terminated(lines);
        assert(text_lines(msg) == lines);
    }
}

/// A text with every line feed written as CRLF.
pub open spec fn lf_to_crlf(s: Seq<char>) -> Seq<char>
    decreases s.len(),
{
    if s.len() == 0 {
        seq![]
    } else if s[0] == '\n' {
        crlf() + lf_to_crlf(s.drop_first())
    } else {
        seq![s[0]] + lf_to_crlf(s.drop_first())
    }
}

proof fn lemma_lines_of_crlf_text(rest: Seq<char>, cur: Seq<char>)
    requires
        !rest.contains('\r'),
        cur.len() > 0 ==> cur.last() != '\r',
    ensures
        lines_from(lf_to_crlf(rest), cur) == lines_from(rest, cur),
    decreases rest.len(),
{
    if rest.len() > 0 {
        let tail = rest.drop_first();
        assert(!tail.contains('\r')) by {
            if tail.contains('\r') {
                let j = choose|j: int| 0 <= j < tail.len() && tail[j] == '\r';
                assert(rest[j + 1] == '\r');
            }
        }
        assert(rest[0] != '\r') by {
            if rest[0] == '\r' {
                assert(rest.contains('\r'));
            }
        }
        let t = lf_to_crlf(rest);
        if rest[0] == '\n' {
            lemma_lines_of_crlf_text(tail, seq![]);
            assert(t =~= crlf() + lf_to_crlf(tail));
            assert(t[0] == '\r');
            assert(t.drop_first() =~= seq!['\n'] + lf_to_crlf(tail));
            assert(lines_from(t, cur) == lines_from(t.drop_first(), cur.push('\r')));
            assert(t.drop_first()[0] == '\n');
            assert(t.drop_first().drop_first() =~= lf_to_crlf(tail));
            assert(lines_from(t.drop_first(), cur.push('\r'))
                == seq![strip_cr(cur.push('\r'))] + lines_from(lf_to_crlf(tail), seq![]));
            assert(strip_cr(cur.push('\r')) =~= cur);
            assert(strip_cr(cur) == cur);
            assert(lines_from(rest, cur) == seq![strip_cr(cur)] + lines_from(tail, seq![]));
        } else {
            lemma_lines_of_crlf_text(tail, cur.push(rest[0]));
            assert(t =~= seq![rest[0]] + lf_to_crlf(tail));
            assert(t[0] == rest[0]);
            assert(t.drop_first() =~= lf_to_crlf(tail));
            assert(lines_from(t, cur) == lines_from(t.drop_first(), cur.push(rest[0])));
            assert(lines_from(rest, cur) == lines_from(tail, cur.push(rest[0])));
        }
    } else {
        assert(lf_to_crlf(rest) =~= rest);
    }
}

/// Writing the line feeds of a message without carriage returns as CRLF changes nothing
/// that parsing the message yields.
pub proof fn law_crlf_line_endings_parse_alike(s: Seq<char>)
    requires
        !s.contains('\r'),
    ensures
        message_parts(lf_to_crlf(s)) == message_parts(s),
{
    lemma_lines_of_crlf_text(s, seq![]);
    assert(normalized_message(lf_to_crlf(s)) == normalized_message(s));
}

proof fn lemma_lines_with_final_lf(rest: Seq<char>, cur: Seq<char>)
    requires
        rest.len() > 0,
        rest.last() != '\n',
        rest.last() != '\r',
    ensures
        lines_from(rest.push('\n'), cur) == lines_from(rest, cur),
    decreases rest.len(),
{
    let t = rest.push('\n');
    let tail = rest.drop_first();
    assert(t.drop_first() =~= tail.push('\n'));
    assert(t[0] == rest[0]);
    if rest.len() == 1 {
        assert(rest[0] != '\n');
        assert(tail =~= Seq::<char>::empty());
        assert(lines_from(t, cur) == lines_from(tail.push('\n'), cur.push(rest[0])));
        assert(tail.push('\n') =~= seq!['\n']);
        assert(seq!['\n'].drop_first() =~= Seq::<char>::empty());
        assert(lines_from(seq!['\n'], cur.push(rest[0]))
            == seq![strip_cr(cur.push(rest[0]))] + lines_from(Seq::<char>::empty(), seq![]));
        assert(strip_cr(cur.push(rest[0])) =~= cur.push(rest[0]));
        assert(lines_from(Seq::<char>::empty(), seq![]) == Seq::<Seq<char>>::empty());
        assert(lines_from(rest, cur) == lines_from(tail, cur.push(rest[0])));
        assert(lines_from(tail, cur.push(rest[0])) =~= seq![cur.push(rest[0])]);
        assert(lines_from(t, cur) =~= seq![cur.push(rest[0])]);
    } else {
        assert(tail.last() == rest.last());
        if rest[0] == '\n' {
            lemma_lines_with_final_lf(tail, seq![]);
        } else {
            lemma_lines_with_final_lf(tail, cur.push(rest[0]));
        }
    }
}

/// Adding a final line feed to a message that does not end a line changes nothing that
/// parsing the message yields.
pub proof fn law_final_newline_parses_alike(s: Seq<char>)
    requires
        s.len() == 0 || (s.last() != '\n' && s.last() != '\r'),
    ensures
        message_parts(s.push('\n')) == message_parts(s),
{
    if s.len() == 0 {
        let t = s.push('\n');
        assert(t =~= seq!['\n']);
        assert(t.drop_first() =~= Seq::<char>::empty());
        assert(strip_cr(Seq::<char>::empty()) =~= Seq::<char>::empty());
        assert(lines_from(t, seq![]) == seq![strip_cr(Seq::<char>::empty())] + lines_from(Seq::<char>::empty(), seq![]));
        assert(lines_from(Seq::<char>::empty(), seq![]) == Seq::<Seq<char>>::empty());
        assert(text_lines(t) =~= seq![Seq::<char>::empty()]);
        assert(join_crlf(seq![Seq::<char>::empty()]) == Seq::<char>::empty());
        assert(text_lines(s) == Seq::<Seq<char>>::empty());
        assert(normalized_message(t) =~= normalized_message(s));
    } else {
        lemma_lines_with_final_lf(s, seq![]);
        assert(normalized_message(s.push('\n')) == normalized_message(s));
    }
}

/// Whether an empty line (CR LF CR LF) starts at index `i` of `msg`, written out.
pub open spec fn crlf_crlf_at(msg: Seq<char>, i: int) -> bool {
    0 <= i && i + 4 <= msg.len() && msg[i] == '\r' && msg[i + 1] == '\n' && msg[i + 2] == '\r'
        && msg[i + 3] == '\n'
}

proof fn lemma_first_blank_line_exists(msg: Seq<char>, i: int)
    requires
        blank_line_at(msg, i),
    ensures
        exists|k: int| first_blank_line(msg, k),
    decreases i,
{
    if forall|j: int| 0 <= j < i ==> !#[trigger] blank_line_at(msg, j) {
        assert(first_blank_line(msg, i));
    } else {
        let j = choose|j: int| 0 <= j < i && #[trigger] blank_line_at(msg, j);
        lemma_first_blank_line_exists(msg, j);
    }
}

/// A message splits exactly when it holds an empty line, whatever its length; it splits at
/// the first one: the header section is the message up to and including the CRLF that ends
/// the line before it, and the body is what follows the empty line.
pub proof fn law_message_splits_at_first_blank_line(msg: Seq<char>)
    ensures
        split_header_body(msg) is Some <==> exists|i: int| crlf_crlf_at(msg, i),
        split_header_body(msg) matches Some((header, body)) ==> exists|k: int| {
            &&& #[trigger] crlf_crlf_at(msg, k)
            &&& forall|j: int| 0 <= j < k ==> !crlf_crlf_at(msg, j)
            &&& header == msg.take(k + 2)
            &&& body == msg.skip(k + 4)
        },
{
    if exists|i: int| crlf_crlf_at(msg, i) {
        let i = choose|i: int| crlf_crlf_at(msg, i);
        assert(blank_line_at(msg, i));
        lemma_first_blank_line_exists(msg, i);
    }
    if split_header_body(msg) is Some {
        let k = choose|k: int| first_blank_line(msg, k);
        assert(crlf_crlf_at(msg, k));
        assert forall|j: int| 0 <= j < k implies !crlf_crlf_at(msg, j) by {
            assert(!blank_line_at(msg, j));
        }
    }
}

/// Parsing a message fails only where its normalized text holds no empty line, or its header
/// section (up to the first empty line) does not parse.
pub proof fn law_parse_fails_only_without_blank_line_or_header(s: Seq<char>)
    ensures
        message_parts(s) is None <==> (
            (forall|i: int| !#[trigger] crlf_crlf_at(normalized_message(s), i))
            || (split_header_body(normalized_message(s)) matches Some((header, _))
                && parsed_header_fields(header) is None)),
{
    law_message_splits_at_first_blank_line(normalized_message(s));
}

/// An email proves an address only where its signature verified, its subject carries a code
/// issued to that address at most five minutes (in nanoseconds) before, and its recipient holds that address
/// as a run of consecutive characters; and where all of this holds, it proves that address.
pub proof fn law_verified_email_needs_recipient(
    st: RegistryState,
    v: DkimVerification,
    now: u64,
    email: Seq<char>,
)
    ensures
        CODE_LIFETIME_NANOS == 5 * 60 * 1_000_000_000,
        verified_email(st, v, now) == Some(email) <==> {
            &&& v.status == DkimStatus::Success
            &&& otp_code(v.subject@) matches Some(code)
            &&& st.otps.contains_key(code)
            &&& st.otps[code].0 == email
            &&& now <= st.otps[code].1 + CODE_LIFETIME_NANOS
            &&& exists|i: int| 0 <= i && i + email.len() <= v.to@.len()
                && #[trigger] v.to@.subrange(i, i + email.len()) == email
        },
{
}

/// Storing a secret for an email gives that email the secret, registers it, and leaves every
/// other email's secret, and every issued code, as it was.
pub proof fn law_storing_secret_touches_only_its_email(
    st: RegistryState,
    email: Seq<char>,
    secret: Seq<char>,
    other: Seq<char>,
)
    ensures
        with_secret(st, email, secret).secrets.contains_key(email),
        with_secret(st, email, secret).secrets[email] == secret,
        with_secret(st, email, secret).emails == st.emails.push(email),
        with_secret(st, email, secret).otps == st.otps,
        other != email ==> (with_secret(st, email, secret).secrets.contains_key(other)
            == st.secrets.contains_key(other)),
        other != email && st.secrets.contains_key(other) ==> with_secret(st, email, secret).secrets[other]
            == st.secrets[other],
{
}

/// Issuing a code records that code for the email at that time, and leaves every other code,
/// the registered emails and the stored secrets as they were.
pub proof fn law_issuing_code_touches_only_its_code(
    st: RegistryState,
    code: u16,
    email: Seq<char>,
    now: u64,
    other: u16,
)
    ensures
        with_code(st, code, email, now).otps.contains_key(code),
        with_code(st, code, email, now).otps[code] == (email, now),
        other != code ==> (with_code(st, code, email, now).otps.contains_key(other)
            == st.otps.contains_key(other)),
        other != code && st.otps.contains_key(other) ==> with_code(st, code, email, now).otps[other]
            == st.otps[other],
        with_code(st, code, email, now).emails == st.emails,
        with_code(st, code, email, now).secrets == st.secrets,
{
}

/// Only fields named exactly `To` or exactly `Subject` are selected, in their order: no field
/// is selected from no fields, a field with one of those names is added to the selection, and
/// a field with any other name (such as `In-Reply-To` or `to`) is not.
pub proof fn law_only_to_and_subject_selected(
    entries: Seq<(Seq<char>, Seq<char>)>,
    name: Seq<char>,
    body: Seq<char>,
)
    ensures
        to_and_subject_fields(Seq::empty()) == Seq::<(Seq<char>, Seq<char>)>::empty(),
        (name == "To"@ || name == "Subject"@) ==> to_and_subject_fields(entries.push((name, body)))
            == to_and_subject_fields(entries).push((name, body)),
        !(name == "To"@ || name == "Subject"@) ==> to_and_subject_fields(entries.push((name, body)))
            == to_and_subject_fields(entries),
{
    assert(entries.push((name, body)).drop_last() =~= entries);
}

proof fn lemma_selection_of_concat(a: Seq<(Seq<char>, Seq<char>)>, b: Seq<(Seq<char>, Seq<char>)>)
    ensures
        to_and_subject_fields(a + b) == to_and_subject_fields(a) + to_and_subject_fields(b),
    decreases b.len(),
{
    if b.len() == 0 {
        assert(a + b =~= a);
        assert(to_and_subject_fields(a) + to_and_subject_fields(b) =~= to_and_subject_fields(a));
    } else {
        lemma_selection_of_concat(a, b.drop_last());
        assert((a + b).drop_last() =~= a + b.drop_last());
        assert((a + b).last() == b.last());
        let fa = to_and_subject_fields(a);
        let fb = to_and_subject_fields(b.drop_last());
        if (b.last().0 == "To"@ || b.last().0 == "Subject"@) {
            assert(fa + fb.push(b.last()) =~= (fa + fb).push(b.last()));
        }
    }
}

proof fn lemma_no_selection(m: Seq<(Seq<char>, Seq<char>)>)
    requires
        forall|k: int| 0 <= k < m.len() ==> #[trigger] m[k].0 != "To"@ && m[k].0 != "Subject"@,
    ensures
        to_and_subject_fields(m) == Seq::<(Seq<char>, Seq<char>)>::empty(),
    decreases m.len(),
{
    if m.len() > 0 {
        let front = m.drop_last();
        assert forall|k: int| 0 <= k < front.len() implies #[trigger] front[k].0 != "To"@ && front[k].0 != "Subject"@ by {
            assert(front[k] == m[k]);
        }
        lemma_no_selection(front);
        assert(m.last() == m[m.len() - 1]);
    }
}

/// The subject of a verification is the body of the first field named exactly `To` or
/// `Subject`, and its recipient the body of the second such field, whichever their names; its
/// status is that of the signature check.
pub proof fn law_subject_and_recipient_are_first_two_selected(
    before: Seq<(Seq<char>, Seq<char>)>,
    first: (Seq<char>, Seq<char>),
    between: Seq<(Seq<char>, Seq<char>)>,
    second: (Seq<char>, Seq<char>),
    after: Seq<(Seq<char>, Seq<char>)>,
    signature_success: bool,
    v: DkimVerification,
)
    requires
        forall|k: int| 0 <= k < before.len() ==> #[trigger] before[k].0 != "To"@ && before[k].0 != "Subject"@,
        forall|k: int| 0 <= k < between.len() ==> #[trigger] between[k].0 != "To"@ && between[k].0 != "Subject"@,
        first.0 == "To"@ || first.0 == "Subject"@,
        second.0 == "To"@ || second.0 == "Subject"@,
        verification_from(before + seq![first] + between + seq![second] + after, signature_success, v),
    ensures
        v.subject@ == first.1,
        v.to@ == second.1,
        v.status == (if signature_success { DkimStatus::Success } else { DkimStatus::Failure }),
{
    lemma_no_selection(before);
    lemma_no_selection(between);
    let one = seq![first];
    let two = seq![second];
    assert(one =~= Seq::<(Seq<char>, Seq<char>)>::empty().push(first));
    assert(two =~= Seq::<(Seq<char>, Seq<char>)>::empty().push(second));
    law_only_to_and_subject_selected(Seq::empty(), first.0, first.1);
    law_only_to_and_subject_selected(Seq::empty(), second.0, second.1);
    lemma_selection_of_concat(before, one);
    lemma_selection_of_concat(before + one, between);
    lemma_selection_of_concat(before + one + between, two);
    lemma_selection_of_concat(before + one + between + two, after);
    let sel = to_and_subject_fields(before + one + between + two + after);
    assert(sel == (Seq::<(Seq<char>, Seq<char>)>::empty() + seq![first] + Seq::<(Seq<char>, Seq<char>)>::empty()
        + seq![second]) + to_and_subject_fields(after));
    assert(sel[0] == first);
    assert(sel[1] == second);
}

proof fn lemma_code_text_concat(a: Seq<char>, b: Seq<char>)
    ensures
        code_text(a + b) == code_text(a) + code_text(b),
    decreases b.len(),
{
    if b.len() == 0 {
        assert(a + b =~= a);
        assert(code_text(b) =~= Seq::<char>::empty());
        assert(code_text(a) + code_text(b) =~= code_text(a));
    } else {
        lemma_code_text_concat(a, b.drop_last());
        assert((a + b).drop_last() =~= a + b.drop_last());
        assert((a + b).last() == b.last());
        let c = ascii_lower(b.last());
        if c != ' ' && c != '"' {
            assert(code_text(a) + code_text(b.drop_last()).push(c) =~= (code_text(a) + code_text(b.drop_last())).push(c));
        }
    }
}

proof fn lemma_code_text_drops(c: char)
    requires
        c == ' ' || c == '"',
    ensures
        code_text(seq![c]) == Seq::<char>::empty(),
{
    assert(seq![c].drop_last() =~= Seq::<char>::empty());
    assert(code_text(Seq::<char>::empty()) == Seq::<char>::empty());
    assert(ascii_lower(c) == c);
}

proof fn lemma_code_text_of_digits(t: Seq<char>)
    requires
        all_digits(t),
    ensures
        code_text(t) == t,
    decreases t.len(),
{
    if t.len() > 0 {
        assert(all_digits(t.drop_last()));
        lemma_code_text_of_digits(t.drop_last());
        assert(is_digit(t[t.len() - 1]));
        assert(t.drop_last().push(t.last()) =~= t);
    }
}

/// Spaces and double quotes anywhere in a subject do not change the code it carries.
pub proof fn law_code_ignores_spaces_and_quotes(a: Seq<char>, b: Seq<char>)
    ensures
        otp_code(a + seq![' '] + b) == otp_code(a + b),
        otp_code(a + seq!['"'] + b) == otp_code(a + b),
{
    lemma_code_text_concat(a + seq![' '], b);
    lemma_code_text_concat(a, seq![' ']);
    lemma_code_text_concat(a + seq!['"'], b);
    lemma_code_text_concat(a, seq!['"']);
    lemma_code_text_concat(a, b);
    assert(seq![' '].drop_last() =~= Seq::<char>::empty());
    assert(seq!['"'].drop_last() =~= Seq::<char>::empty());
    lemma_code_text_drops(' ');
    lemma_code_text_drops('"');
    assert(code_text(a) + Seq::<char>::empty() =~= code_text(a));
}

/// A subject that is a code written out in decimal, in double quotes (as the `Debug` rendering
/// of a subject field shows it), carries that code.
pub proof fn law_quoted_code_reads_back(code: u16)
    ensures
        otp_code(seq!['"'] + decimal_text(code as nat) + seq!['"']) == Some(code),
{
    let t = decimal_text(code as nat);
    lemma_decimal_text(code as nat);
    lemma_code_text_of_digits(t);
    lemma_code_text_concat(seq!['"'], t);
    lemma_code_text_concat(seq!['"'] + t, seq!['"']);
    assert(seq!['"'].drop_last() =~= Seq::<char>::empty());
    lemma_code_text_drops('"');
    assert(code_text(seq!['"'] + t + seq!['"']) =~= t);
    assert(is_digit(t[0]));
    assert(decimal_value(t) == code as nat);
}

proof fn lemma_lf_to_crlf_push(s: Seq<char>)
    ensures
        lf_to_crlf(s.push('\n')) == lf_to_crlf(s) + crlf(),
    decreases s.len(),
{
    if s.len() == 0 {
        assert(s.push('\n') =~= seq!['\n']);
        assert(seq!['\n'].drop_first() =~= Seq::<char>::empty());
        assert(lf_to_crlf(Seq::<char>::empty()) =~= Seq::<char>::empty());
        assert(lf_to_crlf(s.push('\n')) =~= lf_to_crlf(s) + crlf());
    } else {
        assert(s.push('\n').drop_first() =~= s.drop_first().push('\n'));
        assert(s.push('\n')[0] == s[0]);
        lemma_lf_to_crlf_push(s.drop_first());
        if s[0] == '\n' {
            assert(lf_to_crlf(s.push('\n')) =~= lf_to_crlf(s) + crlf());
        } else {
            assert(lf_to_crlf(s.push('\n')) =~= lf_to_crlf(s) + crlf());
        }
    }
}

proof fn lemma_terminated_lines_text(rest: Seq<char>, cur: Seq<char>)
    requires
        !rest.contains('\r'),
        rest.len() == 0 ==> cur.len() == 0,
        rest.len() > 0 ==> rest.last() == '\n',
        cur.len() > 0 ==> cur.last() != '\r',
    ensures
        cur + lf_to_crlf(rest) == crlf_terminated(lines_from(rest, cur)),
    decreases rest.len(),
{
    if rest.len() == 0 {
        assert(lf_to_crlf(rest) =~= Seq::<char>::empty());
        assert(cur + lf_to_crlf(rest) =~= Seq::<char>::empty());
    } else {
        let tail = rest.drop_first();
        assert(!tail.contains('\r')) by {
            if tail.contains('\r') {
                let j = choose|j: int| 0 <= j < tail.len() && tail[j] == '\r';
                assert(rest[j + 1] == '\r');
            }
        }
        assert(rest[0] != '\r') by {
            if rest[0] == '\r' {
                assert(rest.contains('\r'));
            }
        }
        if tail.len() > 0 {
            assert(tail.last() == rest.last());
        }
        if rest[0] == '\n' {
            lemma_terminated_lines_text(tail, seq![]);
            let rest_lines = lines_from(tail, seq![]);
            assert(lines_from(rest, cur) == seq![strip_cr(cur)] + rest_lines);
            assert(strip_cr(cur) == cur);
            assert((seq![cur] + rest_lines)[0] == cur);
            assert((seq![cur] + rest_lines).drop_first() =~= rest_lines);
            assert(Seq::<char>::empty() + lf_to_crlf(tail) =~= lf_to_crlf(tail));
            assert(cur + lf_to_crlf(rest) =~= cur + crlf() + lf_to_crlf(tail));
        } else {
            assert(tail.len() > 0);
            lemma_terminated_lines_text(tail, cur.push(rest[0]));
            assert(lines_from(rest, cur) == lines_from(tail, cur.push(rest[0])));
            assert(cur + lf_to_crlf(rest) =~= cur.push(rest[0]) + lf_to_crlf(tail));
        }
    }
}

proof fn lemma_normalized_ending_lf(s: Seq<char>)
    requires
        !s.contains('\r'),
        s.len() > 0,
        s.last() == '\n',
    ensures
        normalized_message(s) == lf_to_crlf(s),
{
    {
        lemma_terminated_lines_text(s, seq![]);
        let lines = text_lines(s);
        assert(Seq::<char>::empty() + lf_to_crlf(s) =~= lf_to_crlf(s));
        if lines.len() == 0 {
            assert(crlf_terminated(lines) =~= Seq::<char>::empty());
            assert(lf_to_crlf(s).len() > 0) by {
                lemma_lf_to_crlf_push(s.drop_last());
                assert(s.drop_last().push('\n') =~= s);
            }
        } else {
            lemma_join_then_crlf(lines);
        }
    }
}

/// Normalizing a message without carriage returns writes each line feed as CRLF and adds a
/// final CRLF where the message does not end with a line feed; nothing else changes.
pub proof fn law_normalization_only_rewrites_line_endings(s: Seq<char>)
    requires
        !s.contains('\r'),
    ensures
        normalized_message(s) == lf_to_crlf(s) + (if s.len() > 0 && s.last() == '\n' {
            Seq::<char>::empty()
        } else {
            crlf()
        }),
{
    if s.len() > 0 && s.last() == '\n' {
        lemma_normalized_ending_lf(s);
        assert(lf_to_crlf(s) + Seq::<char>::empty() =~= lf_to_crlf(s));
    } else {
        let t = s.push('\n');
        assert(!t.contains('\r')) by {
            if t.contains('\r') {
                let j = choose|j: int| 0 <= j < t.len() && t[j] == '\r';
                assert(s[j] == '\r');
            }
        }
        if s.len() > 0 {
            assert(s.last() != '\r') by {
                if s.last() == '\r' {
                    assert(s[s.len() - 1] == '\r');
                }
            }
        }
        law_final_newline_parses_alike(s);
        assert(normalized_message(t) == normalized_message(s)) by {
            if s.len() == 0 {
                assert(text_lines(t) =~= seq![Seq::<char>::empty()]) by {
                    assert(t =~= seq!['\n']);
                    assert(t.drop_first() =~= Seq::<char>::empty());
                    assert(strip_cr(Seq::<char>::empty()) =~= Seq::<char>::empty());
                    assert(lines_from(t, seq![]) == seq![strip_cr(Seq::<char>::empty())] + lines_from(Seq::<char>::empty(), seq![]));
                    assert(lines_from(Seq::<char>::empty(), seq![]) == Seq::<Seq<char>>::empty());
                }
                assert(join_crlf(seq![Seq::<char>::empty()]) == Seq::<char>::empty());
                assert(normalized_message(t) =~= normalized_message(s));
            } else {
                lemma_lines_with_final_lf(s, seq![]);
            }
        }
        lemma_normalized_ending_lf(t);
        lemma_lf_to_crlf_push(s);
        assert(t.last() == '\n');
        assert(lf_to_crlf(t) + Seq::<char>::empty() =~= lf_to_crlf(s) + crlf());
    }
}

} // verus!
