//! What to ask of the upstream resolvers for a question, and what records
//! their reply amounts to.
//!
//! The lookup itself is network traffic and belongs to the caller, who makes
//! it with the resolver of `trust-dns`. The library plans it with
//! `lookup_for`, names it by the text that `trust-dns` writes the name as,
//! and reads its outcome with `resolve_query`.

use trust_dns_proto::rr::Name;
use vstd::prelude::*;
use crate::message::{
    records_of, RecordData, RecordDataView, RecordType, RecordView, ResourceRecord, CLASS_IN,
};
use crate::name::{valid_name, DomainName};

verus! {

/// Seconds of life given to a record that is built from a bare address.
pub const DEFAULT_TTL: u32 = 300;

/// The lookup that answers a question of some record type.
#[derive(Clone, Copy, Debug, PartialEq, Eq)]
pub enum LookupKind {
    /// The IPv4 addresses of the name.
    Ipv4,
    /// The IPv6 addresses of the name.
    Ipv6,
    /// Whole records of the given type.
    Records(RecordType),
}

/// What the upstream resolvers gave for one lookup.
#[derive(Debug, PartialEq, Eq)]
pub enum UpstreamReply {
    /// The addresses found by an IPv4 lookup, four bytes each.
    Ipv4(Vec<[u8; 4]>),
    /// The addresses found by an IPv6 lookup, sixteen bytes each.
    Ipv6(Vec<[u8; 16]>),
    /// The records found by a lookup of whole records.
    Records(Vec<ResourceRecord>),
    /// Every upstream failed or timed out.
    Failed,
}

/// What an `UpstreamReply` means.
pub enum ReplyView {
    Ipv4(Seq<Seq<u8>>),
    Ipv6(Seq<Seq<u8>>),
    Records(Seq<RecordView>),
    Failed,
}

impl ReplyView {
    /// A reply that a response can carry: at most 65535 addresses or
    /// records, each address of its length and each record well formed.
    pub open spec fn well_formed(self) -> bool {
        match self {
            ReplyView::Ipv4(addresses) => addresses.len() <= 65535 && forall|i: int|
                0 <= i < addresses.len() ==> (#[trigger] addresses[i]).len() == 4,
            ReplyView::Ipv6(addresses) => addresses.len() <= 65535 && forall|i: int|
                0 <= i < addresses.len() ==> (#[trigger] addresses[i]).len() == 16,
            ReplyView::Records(records) => records.len() <= 65535 && forall|i: int|
                0 <= i < records.len() ==> (#[trigger] records[i]).well_formed(),
            ReplyView::Failed => true,
        }
    }
}

/// The addresses that a vector holds, each as its bytes.
pub open spec fn ipv4_addresses_of(addresses: Seq<[u8; 4]>) -> Seq<Seq<u8>> {
    Seq::new(addresses.len(), |i: int| addresses[i]@)
}

/// The addresses that a vector holds, each as its bytes.
pub open spec fn ipv6_addresses_of(addresses: Seq<[u8; 16]>) -> Seq<Seq<u8>> {
    Seq::new(addresses.len(), |i: int| addresses[i]@)
}

impl View for UpstreamReply {
    type V = ReplyView;

    open spec fn view(&self) -> ReplyView {
        match self {
            UpstreamReply::Ipv4(addresses) => ReplyView::Ipv4(ipv4_addresses_of(addresses@)),
            UpstreamReply::Ipv6(addresses) => ReplyView::Ipv6(ipv6_addresses_of(addresses@)),
            UpstreamReply::Records(records) => ReplyView::Records(records_of(records@)),
            UpstreamReply::Failed => ReplyView::Failed,
        }
    }
}

/// Why a question could not be resolved.
#[derive(Clone, Copy, Debug, PartialEq, Eq)]
pub enum ResolveError {
    /// No upstream gave an answer to the lookup that was asked for.
    Upstream,
}

/// The text that `trust-dns` writes a name as, with the escapes and the
/// internationalised labels that are its own; none where it does not take
/// the labels for a name.
pub uninterp spec fn name_text(labels: Seq<Seq<u8>>) -> Option<Seq<char>>;

/// The text that an optional string holds.
pub open spec fn text_of(text: Option<String>) -> Option<Seq<char>> {
    match text {
        Some(text) => Some(text@),
        None => None,
    }
}

/// Writes a name as the text under which the resolver looks it up:
/// `trust_dns_proto::rr::Name::from_labels` on the labels, then `to_string`
/// on the name that it gives.
///
/// Nothing is proved of the text. The contract only gives it the name
/// `name_text`, which claims that the same labels always give the same text.
#[verifier::external_body]
pub(crate) fn name_as_text(name: &DomainName) -> (text: Option<String>)
    ensures
        text_of(text) == name_text(name@),
{
    let name = Name::from_labels(name.labels.iter().map(|label| label.as_slice())).ok()?;
    Some(name.to_string())
}

/// The lookup for a record type: addresses for `A` and `AAAA`, whole records
/// for every other type.
pub open spec fn lookup_kind(record_type: RecordType) -> LookupKind {
    match record_type {
        RecordType::A => LookupKind::Ipv4,
        RecordType::AAAA => LookupKind::Ipv6,
        _ => LookupKind::Records(record_type),
    }
}

/// The `A` record that stands for one IPv4 address of `name`.
pub open spec fn ipv4_record(name: Seq<Seq<u8>>, address: Seq<u8>) -> RecordView {
    RecordView {
        name,
        record_type: RecordType::A,
        class: CLASS_IN,
        ttl: DEFAULT_TTL,
        data: RecordDataView::A(address),
    }
}

/// The `AAAA` record that stands for one IPv6 address of `name`.
pub open spec fn ipv6_record(name: Seq<Seq<u8>>, address: Seq<u8>) -> RecordView {
    RecordView {
        name,
        record_type: RecordType::AAAA,
        class: CLASS_IN,
        ttl: DEFAULT_TTL,
        data: RecordDataView::AAAA(address),
    }
}

/// The records that a reply amounts to for a question of `record_type` about
/// `name`. Addresses become records of the default lifetime, in the order in
/// which they came; whole records pass as they are. A failed lookup, or a
/// reply of another kind than the lookup that the type calls for, resolves
/// nothing.
pub open spec fn resolution(
    name: Seq<Seq<u8>>,
    record_type: RecordType,
    reply: ReplyView,
) -> Result<Seq<RecordView>, ResolveError> {
    match (lookup_kind(record_type), reply) {
        (LookupKind::Ipv4, ReplyView::Ipv4(addresses)) => Ok(
            Seq::new(addresses.len(), |i: int| ipv4_record(name, addresses[i])),
        ),
        (LookupKind::Ipv6, ReplyView::Ipv6(addresses)) => Ok(
            Seq::new(addresses.len(), |i: int| ipv6_record(name, addresses[i])),
        ),
        (LookupKind::Records(_), ReplyView::Records(records)) => Ok(records),
        _ => Err(ResolveError::Upstream),
    }
}

/// Says which lookup the caller has to make for a question of `record_type`.
pub fn lookup_for(record_type: RecordType) -> (kind: LookupKind)
    ensures
        kind == lookup_kind(record_type),
{
    match record_type {
        RecordType::A => LookupKind::Ipv4,
        RecordType::AAAA => LookupKind::Ipv6,
        _ => LookupKind::Records(record_type),
    }
}

/// The `A` records that stand for the addresses, in their order.
fn ipv4_records(name: &DomainName, addresses: &Vec<[u8; 4]>) -> (records: Vec<ResourceRecord>)
    ensures
        records_of(records@) == Seq::new(
            addresses@.len(),
            |i: int| ipv4_record(name@, addresses@[i]@),
        ),
{
    let mut records: Vec<ResourceRecord> = Vec::new();
    let mut i: usize = 0;
    while i < addresses.len()
        invariant
            i <= addresses.len(),
            records.len() == i,
            forall|j: int| 0 <= j < i ==> (#[trigger] records[j])@ == ipv4_record(name@, addresses[j]@),
        decreases addresses.len() - i,
    {
        records.push(
            ResourceRecord {
                name: name.clone(),
                record_type: RecordType::A,
                class: CLASS_IN,
                ttl: DEFAULT_TTL,
                data: RecordData::A(addresses[i]),
            },
        );
        i += 1;
    }
    assert(records_of(records@) =~= Seq::new(
        addresses@.len(),
        |i: int| ipv4_record(name@, addresses@[i]@),
    ));
    records
}

/// The `AAAA` records that stand for the addresses, in their order.
fn ipv6_records(name: &DomainName, addresses: &Vec<[u8; 16]>) -> (records: Vec<ResourceRecord>)
    ensures
        records_of(records@) == Seq::new(
            addresses@.len(),
            |i: int| ipv6_record(name@, addresses@[i]@),
        ),
{
    let mut records: Vec<ResourceRecord> = Vec::new();
    let mut i: usize = 0;
    while i < addresses.len()
        invariant
            i <= addresses.len(),
            records.len() == i,
            forall|j: int| 0 <= j < i ==> (#[trigger] records[j])@ == ipv6_record(name@, addresses[j]@),
        decreases addresses.len() - i,
    {
        records.push(
            ResourceRecord {
                name: name.clone(),
                record_type: RecordType::AAAA,
                class: CLASS_IN,
                ttl: DEFAULT_TTL,
                data: RecordData::AAAA(addresses[i]),
            },
        );
        i += 1;
    }
    assert(records_of(records@) =~= Seq::new(
        addresses@.len(),
        |i: int| ipv6_record(name@, addresses@[i]@),
    ));
    records
}

/// Turns the reply to the lookup for `(name, record_type)` into the records
/// that answer the question, or into the error that a failed lookup is.
pub fn resolve_query(name: &DomainName, record_type: RecordType, reply: UpstreamReply) -> (outcome:
    Result<Vec<ResourceRecord>, ResolveError>)
    ensures
        match resolution(name@, record_type, reply@) {
            Ok(records) => outcome matches Ok(found) && records_of(found@) == records,
            Err(error) => outcome == Err::<Vec<ResourceRecord>, ResolveError>(error),
        },
{
    match (lookup_for(record_type), reply) {
        (LookupKind::Ipv4, UpstreamReply::Ipv4(addresses)) => {
            let records = ipv4_records(name, &addresses);
            assert(records_of(records@) =~= resolution(name@, record_type, reply@)->Ok_0);
            Ok(records)
        },
        (LookupKind::Ipv6, UpstreamReply::Ipv6(addresses)) => {
            let records = ipv6_records(name, &addresses);
            assert(records_of(records@) =~= resolution(name@, record_type, reply@)->Ok_0);
            Ok(records)
        },
        (LookupKind::Records(_), UpstreamReply::Records(records)) => Ok(records),
        _ => Err(ResolveError::Upstream),
    }
}

/// The records that a well-formed reply for a valid name amounts to are
/// well formed.
pub proof fn lemma_resolution_well_formed(
    name: Seq<Seq<u8>>,
    record_type: RecordType,
    reply: ReplyView,
)
    requires
        valid_name(name),
        reply.well_formed(),
    ensures
        resolution(name, record_type, reply) matches Ok(records) ==> records.len() <= 65535
            && forall|i: int| 0 <= i < records.len() ==> (#[trigger] records[i]).well_formed(),
{
}

} // verus!
