use vstd::prelude::*;
use viadkim::header::HeaderFields;
use crate::email::{header_field_entries, header_field_texts};

verus! {

/// The outcome of checking the DKIM signature of an email.
#[derive(Clone, Copy, Debug, PartialEq, Eq, Structural)]
pub enum DkimStatus {
    Success,
    Failure,
}

/// What the checking of an email yields: the status of its first DKIM signature, and the
/// `Debug` renderings of the bodies of its `To` and `Subject` header fields.
#[derive(Clone, Debug)]
pub struct DkimVerification {
    pub status: DkimStatus,
    pub to: String,
    pub subject: String,
}

/// The views of a list of (name, body) pairs of strings.
pub open spec fn entries_view(entries: Seq<(String, String)>) -> Seq<(Seq<char>, Seq<char>)> {
    entries.map_values(|p: (String, String)| (p.0@, p.1@))
}

/// Whether a header field name is exactly `To` or `Subject`.
pub open spec fn is_to_or_subject(name: Seq<char>) -> bool {
    name == "To"@ || name == "Subject"@
}

/// The entries named exactly `To` or `Subject`, in their order.
pub open spec fn to_and_subject_fields(entries: Seq<(Seq<char>, Seq<char>)>) -> Seq<(Seq<char>, Seq<char>)>
    decreases entries.len(),
{
    if entries.len() == 0 {
        seq![]
    } else {
        let rest = to_and_subject_fields(entries.drop_last());
        if is_to_or_subject(entries.last().0) {
            rest.push(entries.last())
        } else {
            rest
        }
    }
}

/// The status that a signature check maps to.
pub open spec fn status_of(signature_success: bool) -> DkimStatus {
    if signature_success {
        DkimStatus::Success
    } else {
        DkimStatus::Failure
    }
}

/// Whether `v` is the verification made from header entries and a signature outcome:
/// of the fields named `To` or `Subject`, the first gives the subject and the second gives
/// the recipient, whatever their names.
pub open spec fn verification_from(
    entries: Seq<(Seq<char>, Seq<char>)>,
    signature_success: bool,
    v: DkimVerification,
) -> bool {
    let selected = to_and_subject_fields(entries);
    &&& v.status == status_of(signature_success)
    &&& v.subject@ == selected[0].1
    &&& v.to@ == selected[1].1
}

/// Makes the verification of an email from its header fields (name, `Debug` rendering of
/// the body) and whether its first DKIM signature verified.
pub fn dkim_verification(entries: &Vec<(String, String)>, signature_success: bool) -> (v: DkimVerification)
    requires
        to_and_subject_fields(entries_view(entries@)).len() >= 2,
    ensures
        verification_from(entries_view(entries@), signature_success, v),
{
    let to_name = String::from_str("To");
    let subject_name = String::from_str("Subject");
    let mut selected: Vec<(String, String)> = Vec::new();
    let mut i: usize = 0;
    while i < entries.len()
        invariant
            i <= entries@.len(),
            to_name@ == "To"@,
            subject_name@ == "Subject"@,
            entries_view(selected@) == to_and_subject_fields(entries_view(entries@.take(i as int))),
        decreases entries.len() - i,
    {
        let ghost before = entries_view(entries@.take(i as int));
        assert(entries_view(entries@.take(i + 1)).drop_last() =~= before);
        assert(entries_view(entries@.take(i + 1)).last() == (entries@[i as int].0@, entries@[i as int].1@));
        let name = &entries[i].0;
        if *name == to_name || *name == subject_name {
            let ghost old_sel = selected@;
            selected.push((entries[i].0.clone(), entries[i].1.clone()));
            assert(entries_view(selected@) =~= entries_view(old_sel).push((entries@[i as int].0@, entries@[i as int].1@)));
        }
        i += 1;
    }
    assert(entries@.take(entries@.len() as int) =~= entries@);
    let status = if signature_success { DkimStatus::Success } else { DkimStatus::Failure };
    assert(entries_view(selected@)[0] == (selected@[0].0@, selected@[0].1@));
    assert(entries_view(selected@)[1] == (selected@[1].0@, selected@[1].1@));
    DkimVerification { status, subject: selected[0].1.clone(), to: selected[1].1.clone() }
}

/// Makes the verification of an email from its parsed header fields and whether its first
/// DKIM signature verified; `None` where fewer than two fields are named `To` or `Subject`.
pub fn verification_from_fields(fields: &HeaderFields, signature_success: bool) -> (res: Option<DkimVerification>)
    ensures
        match res {
            Some(v) => to_and_subject_fields(header_field_entries(*fields)).len() >= 2
                && verification_from(header_field_entries(*fields), signature_success, v),
            None => to_and_subject_fields(header_field_entries(*fields)).len() < 2,
        },
{
    let entries = header_field_texts(fields);
    assert(entries_view(entries@) =~= header_field_entries(*fields));
    if count_to_and_subject(&entries) >= 2 {
        Some(dkim_verification(&entries, signature_success))
    } else {
        None
    }
}

/// Counts the entries named exactly `To` or `Subject`.
fn count_to_and_subject(entries: &Vec<(String, String)>) -> (n: usize)
    ensures
        n == to_and_subject_fields(entries_view(entries@)).len(),
{
    let to_name = String::from_str("To");
    let subject_name = String::from_str("Subject");
    let mut n: usize = 0;
    let mut i: usize = 0;
    while i < entries.len()
        invariant
            i <= entries@.len(),
            to_name@ == "To"@,
            subject_name@ == "Subject"@,
            n == to_and_subject_fields(entries_view(entries@.take(i as int))).len(),
            n <= i,
        decreases entries.len() - i,
    {
        assert(entries_view(entries@.take(i + 1)).drop_last() =~= entries_view(entries@.take(i as int)));
        assert(entries_view(entries@.take(i + 1)).last() == (entries@[i as int].0@, entries@[i as int].1@));
        if entries[i].0 == to_name || entries[i].0 == subject_name {
            n += 1;
        }
        i += 1;
    }
    assert(entries@.take(entries@.len() as int) =~= entries@);
    n
}

} // verus!
