//! The dual-stack filter: answers that hold an IPv6 address are held back,
//! all of them, when the same name also has an IPv4 address.
//!
//! Whether the name has an IPv4 address takes a second lookup, which the
//! caller makes. `needs_secondary_lookup` says when it is wanted and
//! `filter_records` decides on its outcome.

use vstd::prelude::*;
use crate::message::{records_of, RecordData, RecordView, ResourceRecord};
use crate::upstream::ResolveError;

verus! {

/// Some record carries an IPv6 address.
pub open spec fn has_aaaa(records: Seq<RecordView>) -> bool {
    exists|i: int| 0 <= i < records.len() && (#[trigger] records[i]).data is AAAA
}

/// Some record carries an IPv4 address.
pub open spec fn has_a(records: Seq<RecordView>) -> bool {
    exists|i: int| 0 <= i < records.len() && (#[trigger] records[i]).data is A
}

/// The filter asks for the second lookup only when it is switched on and the
/// answers hold an IPv6 address.
pub open spec fn needs_secondary(filter_ipv6: bool, answers: Seq<RecordView>) -> bool {
    filter_ipv6 && has_aaaa(answers)
}

/// A name is dual-stack when the lookup of its IPv4 addresses succeeded and
/// found at least one.
pub open spec fn is_dual_stack(secondary: Result<Seq<RecordView>, ResolveError>) -> bool {
    secondary matches Ok(records) && has_a(records)
}

/// What the filter lets through: nothing at all for a dual-stack name whose
/// answers hold an IPv6 address, and otherwise the answers as they are.
/// Where no second lookup is wanted its outcome is not looked at.
pub open spec fn filtered(
    filter_ipv6: bool,
    answers: Seq<RecordView>,
    secondary: Result<Seq<RecordView>, ResolveError>,
) -> Seq<RecordView> {
    if needs_secondary(filter_ipv6, answers) && is_dual_stack(secondary) {
        Seq::empty()
    } else {
        answers
    }
}

/// The outcome of a lookup with its records by their views.
pub open spec fn outcome_of(outcome: Result<Vec<ResourceRecord>, ResolveError>) -> Result<
    Seq<RecordView>,
    ResolveError,
> {
    match outcome {
        Ok(records) => Ok(records_of(records@)),
        Err(error) => Err(error),
    }
}

/// Says whether some record carries an IPv6 address.
pub fn contains_aaaa(records: &Vec<ResourceRecord>) -> (found: bool)
    ensures
        found == has_aaaa(records_of(records@)),
{
    let mut i: usize = 0;
    while i < records.len()
        invariant
            i <= records.len(),
            forall|j: int| 0 <= j < i ==> !((#[trigger] records_of(records@)[j]).data is AAAA),
        decreases records.len() - i,
    {
        if let RecordData::AAAA(_) = &records[i].data {
            assert(records_of(records@)[i as int].data is AAAA);
            return true;
        }
        i += 1;
    }
    false
}

/// Says whether some record carries an IPv4 address.
pub fn contains_a(records: &Vec<ResourceRecord>) -> (found: bool)
    ensures
        found == has_a(records_of(records@)),
{
    let mut i: usize = 0;
    while i < records.len()
        invariant
            i <= records.len(),
            forall|j: int| 0 <= j < i ==> !((#[trigger] records_of(records@)[j]).data is A),
        decreases records.len() - i,
    {
        if let RecordData::A(_) = &records[i].data {
            assert(records_of(records@)[i as int].data is A);
            return true;
        }
        i += 1;
    }
    false
}

/// Says whether the filter wants the IPv4 addresses of the name looked up
/// before it can decide on `answers`.
pub fn needs_secondary_lookup(filter_ipv6: bool, answers: &Vec<ResourceRecord>) -> (wanted: bool)
    ensures
        wanted == needs_secondary(filter_ipv6, records_of(answers@)),
{
    filter_ipv6 && contains_aaaa(answers)
}

/// Applies the filter to `answers`, given the outcome of the second lookup.
/// Where `needs_secondary_lookup` said that none is wanted, any value may
/// stand for that outcome.
pub fn filter_records(
    filter_ipv6: bool,
    answers: Vec<ResourceRecord>,
    secondary: &Result<Vec<ResourceRecord>, ResolveError>,
) -> (kept: Vec<ResourceRecord>)
    ensures
        records_of(kept@) == filtered(filter_ipv6, records_of(answers@), outcome_of(*secondary)),
        !filter_ipv6 ==> kept == answers,
{
    if !filter_ipv6 {
        return answers;
    }
    if contains_aaaa(&answers) {
        match secondary {
            Ok(a_records) => {
                if contains_a(a_records) {
                    let kept: Vec<ResourceRecord> = Vec::new();
                    assert(records_of(kept@) =~= Seq::<RecordView>::empty());
                    return kept;
                }
            },
            Err(_) => {},
        }
    }
    answers
}

/// With the filter switched off the answers pass unchanged, whatever they
/// hold and whatever a second lookup would have found.
pub proof fn lemma_filter_disabled(
    answers: Seq<RecordView>,
    secondary: Result<Seq<RecordView>, ResolveError>,
)
    ensures
        filtered(false, answers, secondary) == answers,
{
}

/// Answers that hold an IPv6 address, for a name whose IPv4 lookup found an
/// address, are held back altogether: nothing is left, not even the records
/// that carry no IPv6 address.
pub proof fn lemma_filter_suppresses_dual_stack(
    answers: Seq<RecordView>,
    a_records: Seq<RecordView>,
)
    requires
        has_aaaa(answers),
        has_a(a_records),
    ensures
        filtered(true, answers, Ok(a_records)) == Seq::<RecordView>::empty(),
{
}

/// For a name without an IPv4 address, be it that the second lookup failed
/// or that it found none, the answers pass unchanged.
pub proof fn lemma_filter_keeps_ipv6_only(
    filter_ipv6: bool,
    answers: Seq<RecordView>,
    secondary: Result<Seq<RecordView>, ResolveError>,
)
    requires
        !is_dual_stack(secondary),
    ensures
        filtered(filter_ipv6, answers, secondary) == answers,
{
}

/// Filtering what the filter let through changes nothing more.
pub proof fn lemma_filter_idempotent(
    filter_ipv6: bool,
    answers: Seq<RecordView>,
    secondary: Result<Seq<RecordView>, ResolveError>,
)
    ensures
        filtered(filter_ipv6, filtered(filter_ipv6, answers, secondary), secondary) == filtered(
            filter_ipv6,
            answers,
            secondary,
        ),
{
    if needs_secondary(filter_ipv6, answers) && is_dual_stack(secondary) {
        assert(!has_aaaa(Seq::<RecordView>::empty()));
    }
}

} // verus!
