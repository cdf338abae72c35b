use std::collections::HashMap;
use vstd::prelude::*;
use crate::otp::{otp_code, otp_from_subject};
use crate::text::{contains_text, text_contains};
use crate::verification::{DkimStatus, DkimVerification};

verus! {

broadcast use vstd::std_specs::hash::group_hash_axioms;

/// How long an issued code stays valid: five minutes, in nanoseconds of the canister clock.
pub const CODE_LIFETIME_NANOS: u64 = 300_000_000_000;

/// The registry of recovery emails as a value: the emails whose secret was stored (in the
/// order they were stored), for each code value the email it was issued to last and the
/// time (in nanoseconds) it was issued, and the secret stored last for each email.
pub ghost struct RegistryState {
    pub emails: Seq<Seq<char>>,
    pub otps: Map<u16, (Seq<char>, u64)>,
    pub secrets: Map<Seq<char>, Seq<char>>,
}

/// The registry of recovery emails: which emails are registered, which one-time code was
/// issued to which email and when, and the secret stored for each email.
pub struct Registry {
    emails: Vec<String>,
    email_otps: HashMap<u16, (String, u64)>,
    email_secrets: Vec<(String, String)>,
}

/// The secrets of a list of (email, secret) entries; a later entry overrides an earlier one.
pub closed spec fn secrets_map(entries: Seq<(String, String)>) -> Map<Seq<char>, Seq<char>>
    decreases entries.len(),
{
    if entries.len() == 0 {
        Map::empty()
    } else {
        secrets_map(entries.drop_last()).insert(entries.last().0@, entries.last().1@)
    }
}

impl View for Registry {
    type V = RegistryState;

    closed spec fn view(&self) -> RegistryState {
        RegistryState {
            emails: self.emails@.map_values(|e: String| e@),
            otps: self.email_otps@.map_values(|p: (String, u64)| (p.0@, p.1)),
            secrets: secrets_map(self.email_secrets@),
        }
    }
}

/// Whether an email is registered: a secret was stored for it.
pub open spec fn is_registered(st: RegistryState, email: Seq<char>) -> bool {
    st.emails.contains(email)
}

/// The registry after the code `code` was issued to `email` at time `now`.
pub open spec fn with_code(st: RegistryState, code: u16, email: Seq<char>, now: u64) -> RegistryState {
    RegistryState { emails: st.emails, otps: st.otps.insert(code, (email, now)), secrets: st.secrets }
}

/// Whether a code issued at `issued` is still valid at `now`: at most five minutes passed.
pub open spec fn code_fresh(issued: u64, now: u64) -> bool {
    now <= issued + CODE_LIFETIME_NANOS
}

/// Whether a code is five digits long.
pub open spec fn five_digit_code(code: u16) -> bool {
    10000 <= code
}

/// Whether every registered email has a stored secret and every stored secret belongs to a
/// registered email.
pub open spec fn registrations_match_secrets(st: RegistryState) -> bool {
    forall|e: Seq<char>| #[trigger] st.emails.contains(e) <==> st.secrets.contains_key(e)
}

/// The registry after `secret` was stored for `email`, which becomes registered.
pub open spec fn with_secret(st: RegistryState, email: Seq<char>, secret: Seq<char>) -> RegistryState {
    RegistryState { emails: st.emails.push(email), otps: st.otps, secrets: st.secrets.insert(email, secret) }
}

/// Whether the code that a verification carries can be read wherever its signature verified.
pub open spec fn otp_readable(v: DkimVerification) -> bool {
    v.status == DkimStatus::Success ==> otp_code(v.subject@) is Some
}

/// The email that a verification proves at time `now`: its signature verified, its subject
/// carries a code that was issued at most five minutes before `now`, and its recipient contains
/// the email that the code was issued to.
pub open spec fn verified_email(st: RegistryState, v: DkimVerification, now: u64) -> Option<Seq<char>> {
    if v.status == DkimStatus::Success {
        match otp_code(v.subject@) {
            Some(code) => if st.otps.contains_key(code) && code_fresh(st.otps[code].1, now)
                && contains_text(v.to@, st.otps[code].0) {
                Some(st.otps[code].0)
            } else {
                None
            },
            None => None,
        }
    } else {
        None
    }
}

/// The answer to registering an email that is registered already.
pub open spec fn already_registered_text() -> Seq<char> {
    "Email already registered"@
}

/// The answer to asking a code for an email that is not registered.
pub open spec fn not_registered_text() -> Seq<char> {
    "Email not registered"@
}

/// The answer to a verification that proves no email (also where its code expired).
pub open spec fn verification_failed_text() -> Seq<char> {
    "Email verification failed"@
}

/// Draws a random number with `fastrand::u16(low..=high)`.
/// Trusted: the number lies in `low..=high`; which one it is, is left to chance.
#[verifier::external_body]
fn random_u16(low: u16, high: u16) -> (r: u16)
    requires
        low <= high,
    ensures
        low <= r <= high,
{
    fastrand::u16(low..=high)
}

/// Draws a random five-digit code, from 10000 to 65535.
fn random_code() -> (code: u16)
    ensures
        five_digit_code(code),
{
    random_u16(10000, 65535)
}

fn already_registered_error() -> (e: String)
    ensures
        e@ == already_registered_text(),
{
    String::from_str("Email already registered")
}

fn not_registered_error() -> (e: String)
    ensures
        e@ == not_registered_text(),
{
    String::from_str("Email not registered")
}

fn verification_failed_error() -> (e: String)
    ensures
        e@ == verification_failed_text(),
{
    String::from_str("Email verification failed")
}

impl Registry {
    /// An empty registry.
    pub fn new() -> (r: Registry)
        ensures
            r@.emails == Seq::<Seq<char>>::empty(),
            r@.otps == Map::<u16, (Seq<char>, u64)>::empty(),
            r@.secrets == Map::<Seq<char>, Seq<char>>::empty(),
            registrations_match_secrets(r@),
    {
        let r = Registry { emails: Vec::new(), email_otps: HashMap::new(), email_secrets: Vec::new() };
        assert(r@.emails =~= Seq::<Seq<char>>::empty());
        assert(r@.otps =~= Map::<u16, (Seq<char>, u64)>::empty());
        assert(r@.secrets =~= Map::<Seq<char>, Seq<char>>::empty()) by {
            reveal_with_fuel(secrets_map, 1);
        }
        r
    }

    /// Whether `email` is registered.
    pub fn is_email_registered(&self, email: &String) -> (b: bool)
        ensures
            b == is_registered(self@, email@),
    {
        let mut i: usize = 0;
        while i < self.emails.len()
            invariant
                i <= self.emails@.len(),
                forall|j: int| 0 <= j < i ==> self.emails@[j]@ != email@,
            decreases self.emails.len() - i,
        {
            if self.emails[i] == *email {
                assert(self@.emails[i as int] == email@);
                return true;
            }
            i += 1;
        }
        assert(!self@.emails.contains(email@)) by {
            if self@.emails.contains(email@) {
                let j = choose|j: int| 0 <= j < self@.emails.len() && self@.emails[j] == email@;
                assert(self.emails@[j]@ == email@);
            }
        }
        false
    }

    /// Issues `code` at time `now` to an email that is not registered yet; refuses a
    /// registered one.
    pub fn register_email_with_code(&mut self, email: String, code: u16, now: u64) -> (res: Result<u16, String>)
        ensures
            is_registered(old(self)@, email@) ==> (res matches Err(e) && e@ == already_registered_text()
                && final(self)@ == old(self)@),
            !is_registered(old(self)@, email@) ==> (res == Ok::<u16, String>(code)
                && final(self)@ == with_code(old(self)@, code, email@, now)),
    {
        if self.is_email_registered(&email) {
            return Err(already_registered_error());
        }
        let ghost email_view = email@;
        self.email_otps.insert(code, (email, now));
        assert(self@.otps =~= old(self)@.otps.insert(code, (email_view, now)));
        Ok(code)
    }

    /// Issues a random five-digit code at time `now` to an email that is not registered yet;
    /// refuses a registered one.
    pub fn register_email(&mut self, email: String, now: u64) -> (res: Result<u16, String>)
        ensures
            is_registered(old(self)@, email@) ==> (res matches Err(e) && e@ == already_registered_text()
                && final(self)@ == old(self)@),
            !is_registered(old(self)@, email@) ==> (res matches Ok(code) && five_digit_code(code)
                && final(self)@ == with_code(old(self)@, code, email@, now)),
    {
        if self.is_email_registered(&email) {
            return Err(already_registered_error());
        }
        let code = random_code();
        self.register_email_with_code(email, code, now)
    }

    /// Issues `code` at time `now` to a registered email, for a later retrieval; refuses an
    /// email that is not registered.
    pub fn get_otp_with_code(&mut self, email: String, code: u16, now: u64) -> (res: Result<u16, String>)
        ensures
            is_registered(old(self)@, email@) ==> (res == Ok::<u16, String>(code)
                && final(self)@ == with_code(old(self)@, code, email@, now)),
            !is_registered(old(self)@, email@) ==> (res matches Err(e) && e@ == not_registered_text()
                && final(self)@ == old(self)@),
    {
        if self.is_email_registered(&email) {
            let ghost email_view = email@;
            self.email_otps.insert(code, (email, now));
            assert(self@.otps =~= old(self)@.otps.insert(code, (email_view, now)));
            Ok(code)
        } else {
            Err(not_registered_error())
        }
    }

    /// Issues a random five-digit code at time `now` to a registered email; refuses an email
    /// that is not registered.
    pub fn get_otp(&mut self, email: String, now: u64) -> (res: Result<u16, String>)
        ensures
            is_registered(old(self)@, email@) ==> (res matches Ok(code) && five_digit_code(code)
                && final(self)@ == with_code(old(self)@, code, email@, now)),
            !is_registered(old(self)@, email@) ==> (res matches Err(e) && e@ == not_registered_text()
                && final(self)@ == old(self)@),
    {
        if self.is_email_registered(&email) {
            let code = random_code();
            self.get_otp_with_code(email, code, now)
        } else {
            Err(not_registered_error())
        }
    }

    /// The email that a verification proves at time `now`, if any.
    pub fn verified_address(&self, v: &DkimVerification, now: u64) -> (res: Option<String>)
        requires
            otp_readable(*v),
        ensures
            match res {
                Some(e) => verified_email(self@, *v, now) == Some(e@),
                None => verified_email(self@, *v, now) is None,
            },
    {
        match v.status {
            DkimStatus::Failure => None,
            DkimStatus::Success => match otp_from_subject(v.subject.as_str()) {
                None => None,
                Some(code) => match self.email_otps.get(&code) {
                    Some(issued) => {
                        let fresh = now <= issued.1 || now - issued.1 <= CODE_LIFETIME_NANOS;
                        if fresh && text_contains(v.to.as_str(), issued.0.as_str()) {
                            Some(issued.0.clone())
                        } else {
                            None
                        }
                    },
                    None => None,
                },
            },
        }
    }

    /// The secret stored for `email`, if any.
    pub fn secret_of(&self, email: &String) -> (res: Option<String>)
        ensures
            match res {
                Some(s) => self@.secrets.contains_key(email@) && self@.secrets[email@] == s@,
                None => !self@.secrets.contains_key(email@),
            },
    {
        let mut i: usize = self.email_secrets.len();
        assert(self.email_secrets@.take(i as int) =~= self.email_secrets@);
        while i > 0
            invariant
                i <= self.email_secrets@.len(),
                secrets_map(self.email_secrets@).contains_key(email@)
                    == secrets_map(self.email_secrets@.take(i as int)).contains_key(email@),
                secrets_map(self.email_secrets@).contains_key(email@) ==> secrets_map(self.email_secrets@)[email@]
                    == secrets_map(self.email_secrets@.take(i as int))[email@],
            decreases i,
        {
            let ghost prefix = self.email_secrets@.take(i as int);
            assert(prefix.drop_last() =~= self.email_secrets@.take(i - 1));
            let entry = &self.email_secrets[i - 1];
            if entry.0 == *email {
                return Some(entry.1.clone());
            }
            i -= 1;
        }
        assert(self.email_secrets@.take(0) =~= Seq::<(String, String)>::empty());
        None
    }

    /// Stores `secret` for the email that a verification proves at time `now`, which becomes
    /// registered; refuses a verification that proves no email, such as one whose code expired.
    pub fn finalize_secret(&mut self, v: &DkimVerification, secret: String, now: u64) -> (res: Result<(), String>)
        requires
            otp_readable(*v),
        ensures
            match verified_email(old(self)@, *v, now) {
                Some(e) => res is Ok && final(self)@ == with_secret(old(self)@, e, secret@),
                None => res matches Err(msg) && msg@ == verification_failed_text() && final(self)@ == old(self)@,
            },
    {
        match self.verified_address(v, now) {
            Some(email) => {
                let ghost old_entries = self.email_secrets@;
                self.email_secrets.push((email.clone(), secret));
                assert(self.email_secrets@.drop_last() =~= old_entries);
                self.emails.push(email);
                assert(self@.emails =~= old(self)@.emails.push(email@));
                Ok(())
            },
            None => Err(verification_failed_error()),
        }
    }

    /// The secret stored for the email that a verification proves at time `now`; refuses a
    /// verification that proves no email, such as one whose code expired.
    pub fn retrieve_secret(&self, v: &DkimVerification, now: u64) -> (res: Result<String, String>)
        requires
            otp_readable(*v),
            verified_email(self@, *v, now) matches Some(e) ==> self@.secrets.contains_key(e),
        ensures
            match verified_email(self@, *v, now) {
                Some(e) => res matches Ok(s) && s@ == self@.secrets[e],
                None => res matches Err(msg) && msg@ == verification_failed_text(),
            },
    {
        match self.verified_address(v, now) {
            Some(email) => match self.secret_of(&email) {
                Some(s) => Ok(s),
                None => Err(verification_failed_error()),
            },
            None => Err(verification_failed_error()),
        }
    }
}

} // verus!
