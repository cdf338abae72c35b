use vstd::prelude::*;
use crate::text::chars_of;

verus! {

/// A character as `char::to_ascii_lowercase` maps it.
pub open spec fn ascii_lower(c: char) -> char {
    if 'A' <= c && c <= 'Z' {
        ((c as u32) + 32) as char
    } else {
        c
    }
}

/// Whether a character is kept when spaces and double quotes are removed.
pub open spec fn kept_in_code(c: char) -> bool {
    c != ' ' && c != '"'
}

/// A subject made ASCII lower case, with its spaces and double quotes removed.
pub open spec fn code_text(subject: Seq<char>) -> Seq<char>
    decreases subject.len(),
{
    if subject.len() == 0 {
        seq![]
    } else {
        let rest = code_text(subject.drop_last());
        let c = ascii_lower(subject.last());
        if kept_in_code(c) {
            rest.push(c)
        } else {
            rest
        }
    }
}

/// Whether a character is an ASCII decimal digit.
pub open spec fn is_digit(c: char) -> bool {
    '0' <= c && c <= '9'
}

/// Whether every character of `s` is an ASCII decimal digit.
pub open spec fn all_digits(s: Seq<char>) -> bool {
    forall|i: int| 0 <= i < s.len() ==> is_digit(#[trigger] s[i])
}

/// The number that a string of decimal digits writes.
pub open spec fn decimal_value(s: Seq<char>) -> nat
    decreases s.len(),
{
    if s.len() == 0 {
        0
    } else {
        decimal_value(s.drop_last()) * 10 + ((s.last() as nat) - ('0' as nat)) as nat
    }
}

/// A number text without its optional leading `+`.
pub open spec fn unsigned_digits(t: Seq<char>) -> Seq<char> {
    if t.len() > 0 && t[0] == '+' {
        t.drop_first()
    } else {
        t
    }
}

/// What `str::parse::<u16>` makes of a text: an optional `+`, then one or more decimal
/// digits whose value is at most 65535.
pub open spec fn parse_u16_text(t: Seq<char>) -> Option<u16> {
    let digits = unsigned_digits(t);
    if digits.len() > 0 && all_digits(digits) && decimal_value(digits) <= u16::MAX {
        Some(decimal_value(digits) as u16)
    } else {
        None
    }
}

/// The code that the subject of a verification email carries.
pub open spec fn otp_code(subject: Seq<char>) -> Option<u16> {
    parse_u16_text(code_text(subject))
}

proof fn lemma_decimal_value_prefix(s: Seq<char>, k: int)
    requires
        all_digits(s),
        0 <= k <= s.len(),
    ensures
        decimal_value(s.take(k)) <= decimal_value(s),
    decreases s.len(),
{
    if k < s.len() {
        assert(all_digits(s.drop_last()));
        lemma_decimal_value_prefix(s.drop_last(), k);
        assert(s.drop_last().take(k) =~= s.take(k));
    } else {
        assert(s.take(k) =~= s);
    }
}

fn lower_char(c: char) -> (r: char)
    ensures
        r == ascii_lower(c),
{
    if 'A' <= c && c <= 'Z' {
        let b = (c as u8) + 32;
        assert(b == (c as u32) + 32);
        b as char
    } else {
        c
    }
}

/// The text of a subject made ASCII lower case, with its spaces and double quotes removed.
pub fn code_text_of(subject: &str) -> (t: Vec<char>)
    ensures
        t@ == code_text(subject@),
{
    let chars = chars_of(subject);
    let mut out: Vec<char> = Vec::new();
    let mut i: usize = 0;
    while i < chars.len()
        invariant
            i <= chars@.len(),
            chars@ == subject@,
            out@ == code_text(chars@.take(i as int)),
        decreases chars.len() - i,
    {
        assert(chars@.take(i + 1).drop_last() =~= chars@.take(i as int));
        let c = lower_char(chars[i]);
        if c != ' ' && c != '"' {
            out.push(c);
        }
        i += 1;
    }
    assert(chars@.take(chars@.len() as int) =~= chars@);
    out
}

/// Parses a text as `str::parse::<u16>` does.
pub fn parse_u16(t: &Vec<char>) -> (res: Option<u16>)
    ensures
        res == parse_u16_text(t@),
{
    let n = t.len();
    let start: usize = if n > 0 && t[0] == '+' { 1 } else { 0 };
    let ghost digits = t@.skip(start as int);
    assert(digits =~= unsigned_digits(t@));
    if start >= n {
        return None;
    }
    let mut value: u32 = 0;
    let mut i: usize = start;
    while i < n
        invariant
            start <= i <= n,
            n == t@.len(),
            digits == t@.skip(start as int),
            digits == unsigned_digits(t@),
            forall|j: int| 0 <= j < i - start ==> is_digit(#[trigger] digits[j]),
            value == decimal_value(digits.take(i - start)),
            value <= u16::MAX,
        decreases n - i,
    {
        let c = t[i];
        assert(digits[i - start] == c);
        if c < '0' || c > '9' {
            assert(!is_digit(digits[i - start]));
            return None;
        }
        let d = (c as u32) - ('0' as u32);
        assert(digits.take(i + 1 - start).drop_last() =~= digits.take(i - start));
        let next = value * 10 + d;
        assert(digits.take(i + 1 - start).last() == c);
        assert(decimal_value(digits.take(i + 1 - start)) == next);
        if next > 65535 {
            proof {
                assert(forall|j: int| 0 <= j <= i - start ==> is_digit(#[trigger] digits[j]));
                if all_digits(digits) {
                    lemma_decimal_value_prefix(digits, i + 1 - start);
                }
            }
            return None;
        }
        value = next;
        i += 1;
    }
    assert(digits.take(n - start) =~= digits);
    Some(value as u16)
}

/// Reads the code that the subject of a verification email carries: the subject made ASCII
/// lower case, without spaces and double quotes, parsed as a `u16`.
pub fn otp_from_subject(subject: &str) -> (res: Option<u16>)
    ensures
        res == otp_code(subject@),
{
    let t = code_text_of(subject);
    parse_u16(&t)
}

} // verus!
