//! The in-memory form of a DNS message and the mathematical view of each part.

use vstd::prelude::*;
use crate::name::{valid_name, DomainName};

verus! {

/// The class of the Internet, the one that queries commonly carry.
pub const CLASS_IN: u16 = 1;

/// Most entries that one section of a message can count.
pub const MAX_SECTION_COUNT: usize = 65535;

/// Most bytes that the data of one record can hold.
pub const MAX_RDATA_LEN: usize = 65535;

/// The kind of operation that a message asks for: four bits of the header.
#[derive(Clone, Copy, Debug, PartialEq, Eq)]
pub enum OpCode {
    Query,
    IQuery,
    Status,
    Notify,
    Update,
    /// One of the codes without a name here.
    Other(u8),
}

impl OpCode {
    /// The number that stands for the operation in a header.
    pub open spec fn code(self) -> u8 {
        match self {
            OpCode::Query => 0,
            OpCode::IQuery => 1,
            OpCode::Status => 2,
            OpCode::Notify => 4,
            OpCode::Update => 5,
            OpCode::Other(code) => code,
        }
    }

    /// `Other` holds only codes of four bits that have no name.
    pub open spec fn well_formed(self) -> bool {
        match self {
            OpCode::Other(code) => code == 3 || 6 <= code <= 15,
            _ => true,
        }
    }

    /// The operation that a header's four bits stand for.
    pub open spec fn of_code(code: u8) -> OpCode {
        if code == 0 {
            OpCode::Query
        } else if code == 1 {
            OpCode::IQuery
        } else if code == 2 {
            OpCode::Status
        } else if code == 4 {
            OpCode::Notify
        } else if code == 5 {
            OpCode::Update
        } else {
            OpCode::Other(code)
        }
    }

    /// The number that stands for the code in a header.
    pub fn to_code(self) -> (code: u8)
        ensures
            code == self.code(),
    {
        match self {
            OpCode::Query => 0,
            OpCode::IQuery => 1,
            OpCode::Status => 2,
            OpCode::Notify => 4,
            OpCode::Update => 5,
            OpCode::Other(code) => code,
        }
    }

    /// The operation that a number stands for; well formed for a number of four
    /// bits.
    pub fn from_code(code: u8) -> (op: OpCode)
        ensures
            op == OpCode::of_code(code),
            op.code() == code,
            code <= 15 ==> op.well_formed(),
    {
        if code == 0 {
            OpCode::Query
        } else if code == 1 {
            OpCode::IQuery
        } else if code == 2 {
            OpCode::Status
        } else if code == 4 {
            OpCode::Notify
        } else if code == 5 {
            OpCode::Update
        } else {
            OpCode::Other(code)
        }
    }

    /// Says whether a header has a place for the code.
    pub fn is_well_formed(self) -> (ok: bool)
        ensures
            ok == self.well_formed(),
    {
        match self {
            OpCode::Other(code) => code == 3 || (6 <= code && code <= 15),
            _ => true,
        }
    }
}

/// The outcome that a response reports: four bits of the header.
#[derive(Clone, Copy, Debug, PartialEq, Eq)]
pub enum ResponseCode {
    NoError,
    FormErr,
    ServFail,
    NXDomain,
    NotImp,
    Refused,
    /// One of the codes without a name here.
    Other(u8),
}

impl ResponseCode {
    /// The number that stands for the outcome in a header.
    pub open spec fn code(self) -> u8 {
        match self {
            ResponseCode::NoError => 0,
            ResponseCode::FormErr => 1,
            ResponseCode::ServFail => 2,
            ResponseCode::NXDomain => 3,
            ResponseCode::NotImp => 4,
            ResponseCode::Refused => 5,
            ResponseCode::Other(code) => code,
        }
    }

    /// `Other` holds only codes of four bits that have no name.
    pub open spec fn well_formed(self) -> bool {
        match self {
            ResponseCode::Other(code) => 6 <= code <= 15,
            _ => true,
        }
    }

    /// The outcome that a header's four bits stand for.
    pub open spec fn of_code(code: u8) -> ResponseCode {
        if code == 0 {
            ResponseCode::NoError
        } else if code == 1 {
            ResponseCode::FormErr
        } else if code == 2 {
            ResponseCode::ServFail
        } else if code == 3 {
            ResponseCode::NXDomain
        } else if code == 4 {
            ResponseCode::NotImp
        } else if code == 5 {
            ResponseCode::Refused
        } else {
            ResponseCode::Other(code)
        }
    }

    /// The number that stands for the code in a header.
    pub fn to_code(self) -> (code: u8)
        ensures
            code == self.code(),
    {
        match self {
            ResponseCode::NoError => 0,
            ResponseCode::FormErr => 1,
            ResponseCode::ServFail => 2,
            ResponseCode::NXDomain => 3,
            ResponseCode::NotImp => 4,
            ResponseCode::Refused => 5,
            ResponseCode::Other(code) => code,
        }
    }

    /// The outcome that a number stands for; well formed for a number of four
    /// bits.
    pub fn from_code(code: u8) -> (rcode: ResponseCode)
        ensures
            rcode == ResponseCode::of_code(code),
            rcode.code() == code,
            code <= 15 ==> rcode.well_formed(),
    {
        if code == 0 {
            ResponseCode::NoError
        } else if code == 1 {
            ResponseCode::FormErr
        } else if code == 2 {
            ResponseCode::ServFail
        } else if code == 3 {
            ResponseCode::NXDomain
        } else if code == 4 {
            ResponseCode::NotImp
        } else if code == 5 {
            ResponseCode::Refused
        } else {
            ResponseCode::Other(code)
        }
    }

    /// Says whether a header has a place for the code.
    pub fn is_well_formed(self) -> (ok: bool)
        ensures
            ok == self.well_formed(),
    {
        match self {
            ResponseCode::Other(code) => 6 <= code && code <= 15,
            _ => true,
        }
    }
}

/// The type of a record, or the type that a question asks for.
#[derive(Clone, Copy, Debug, PartialEq, Eq)]
pub enum RecordType {
    /// An IPv4 address.
    A,
    /// An IPv6 address.
    AAAA,
    /// The canonical name of an alias.
    CNAME,
    /// Any other type, by its number.
    Other(u16),
}

impl RecordType {
    /// The number that stands for the type on the wire.
    pub open spec fn code(self) -> u16 {
        match self {
            RecordType::A => 1,
            RecordType::CNAME => 5,
            RecordType::AAAA => 28,
            RecordType::Other(code) => code,
        }
    }

    /// `Other` holds no number that has a variant of its own.
    pub open spec fn well_formed(self) -> bool {
        match self {
            RecordType::Other(code) => code != 1 && code != 5 && code != 28,
            _ => true,
        }
    }

    /// The type that a number on the wire stands for.
    pub open spec fn of_code(code: u16) -> RecordType {
        if code == 1 {
            RecordType::A
        } else if code == 5 {
            RecordType::CNAME
        } else if code == 28 {
            RecordType::AAAA
        } else {
            RecordType::Other(code)
        }
    }

    /// The number that stands for the type on the wire.
    pub fn to_code(self) -> (code: u16)
        ensures
            code == self.code(),
    {
        match self {
            RecordType::A => 1,
            RecordType::CNAME => 5,
            RecordType::AAAA => 28,
            RecordType::Other(code) => code,
        }
    }

    /// The type that a number stands for, which is always well formed.
    pub fn from_code(code: u16) -> (record_type: RecordType)
        ensures
            record_type == RecordType::of_code(code),
            record_type.code() == code,
            record_type.well_formed(),
    {
        if code == 1 {
            RecordType::A
        } else if code == 5 {
            RecordType::CNAME
        } else if code == 28 {
            RecordType::AAAA
        } else {
            RecordType::Other(code)
        }
    }

    /// Says whether the type is the only one that stands for its number.
    pub fn is_well_formed(self) -> (ok: bool)
        ensures
            ok == self.well_formed(),
    {
        match self {
            RecordType::Other(code) => code != 1 && code != 5 && code != 28,
            _ => true,
        }
    }
}

/// One entry of the question section.
#[derive(Debug, PartialEq, Eq)]
pub struct Question {
    pub name: DomainName,
    pub record_type: RecordType,
    pub class: u16,
}

/// What a `Question` means.
pub struct QuestionView {
    pub name: Seq<Seq<u8>>,
    pub record_type: RecordType,
    pub class: u16,
}

impl QuestionView {
    /// The name is valid and the type well formed.
    pub open spec fn well_formed(self) -> bool {
        valid_name(self.name) && self.record_type.well_formed()
    }
}

impl View for Question {
    type V = QuestionView;

    open spec fn view(&self) -> QuestionView {
        QuestionView { name: self.name@, record_type: self.record_type, class: self.class }
    }
}

impl Clone for Question {
    fn clone(&self) -> (copy: Self)
        ensures
            copy@ == self@,
    {
        Question { name: self.name.clone(), record_type: self.record_type, class: self.class }
    }
}

impl Question {
    /// Says whether the wire format can carry the question.
    pub fn is_well_formed(&self) -> (ok: bool)
        ensures
            ok == self@.well_formed(),
    {
        self.name.is_valid() && self.record_type.is_well_formed()
    }
}

/// What a record carries.
#[derive(Debug, PartialEq, Eq)]
pub enum RecordData {
    /// The four bytes of an IPv4 address.
    A([u8; 4]),
    /// The sixteen bytes of an IPv6 address.
    AAAA([u8; 16]),
    /// The name that an alias stands for.
    CNAME(DomainName),
    /// The data of a record of any other type, as it came.
    Other(Vec<u8>),
}

/// What a `RecordData` means.
pub enum RecordDataView {
    A(Seq<u8>),
    AAAA(Seq<u8>),
    CNAME(Seq<Seq<u8>>),
    Other(Seq<u8>),
}

impl RecordDataView {
    /// An address has its length, a name is valid, and other data fits the
    /// sixteen bits of a length on the wire.
    pub open spec fn well_formed(self) -> bool {
        match self {
            RecordDataView::A(address) => address.len() == 4,
            RecordDataView::AAAA(address) => address.len() == 16,
            RecordDataView::CNAME(name) => valid_name(name),
            RecordDataView::Other(bytes) => bytes.len() <= MAX_RDATA_LEN,
        }
    }

    /// Says whether data of this shape belongs in a record of the given type.
    pub open spec fn fits(self, record_type: RecordType) -> bool {
        match self {
            RecordDataView::A(_) => record_type == RecordType::A,
            RecordDataView::AAAA(_) => record_type == RecordType::AAAA,
            RecordDataView::CNAME(_) => record_type == RecordType::CNAME,
            RecordDataView::Other(_) => record_type is Other,
        }
    }
}

impl View for RecordData {
    type V = RecordDataView;

    open spec fn view(&self) -> RecordDataView {
        match self {
            RecordData::A(address) => RecordDataView::A(address@),
            RecordData::AAAA(address) => RecordDataView::AAAA(address@),
            RecordData::CNAME(name) => RecordDataView::CNAME(name@),
            RecordData::Other(bytes) => RecordDataView::Other(bytes@),
        }
    }
}

impl Clone for RecordData {
    fn clone(&self) -> (copy: Self)
        ensures
            copy@ == self@,
    {
        match self {
            RecordData::A(address) => RecordData::A(*address),
            RecordData::AAAA(address) => RecordData::AAAA(*address),
            RecordData::CNAME(name) => RecordData::CNAME(name.clone()),
            RecordData::Other(bytes) => {
                let copy = bytes.clone();
                assert(copy@ =~= bytes@);
                RecordData::Other(copy)
            },
        }
    }
}

/// One resource record.
#[derive(Debug, PartialEq, Eq)]
pub struct ResourceRecord {
    pub name: DomainName,
    pub record_type: RecordType,
    pub class: u16,
    /// Seconds for which the record may be kept.
    pub ttl: u32,
    pub data: RecordData,
}

/// What a `ResourceRecord` means.
pub struct RecordView {
    pub name: Seq<Seq<u8>>,
    pub record_type: RecordType,
    pub class: u16,
    pub ttl: u32,
    pub data: RecordDataView,
}

impl RecordView {
    /// The name is valid, the type and the data are well formed, and the
    /// data is of the shape that belongs to the type.
    pub open spec fn well_formed(self) -> bool {
        &&& valid_name(self.name)
        &&& self.record_type.well_formed()
        &&& self.data.well_formed()
        &&& self.data.fits(self.record_type)
    }
}

impl View for ResourceRecord {
    type V = RecordView;

    open spec fn view(&self) -> RecordView {
        RecordView {
            name: self.name@,
            record_type: self.record_type,
            class: self.class,
            ttl: self.ttl,
            data: self.data@,
        }
    }
}

impl Clone for ResourceRecord {
    fn clone(&self) -> (copy: Self)
        ensures
            copy@ == self@,
    {
        ResourceRecord {
            name: self.name.clone(),
            record_type: self.record_type,
            class: self.class,
            ttl: self.ttl,
            data: self.data.clone(),
        }
    }
}

impl ResourceRecord {
    /// Says whether the wire format can carry the record.
    pub fn is_well_formed(&self) -> (ok: bool)
        ensures
            ok == self@.well_formed(),
    {
        if !self.name.is_valid() || !self.record_type.is_well_formed() {
            return false;
        }
        match &self.data {
            RecordData::A(_) => matches!(self.record_type, RecordType::A),
            RecordData::AAAA(_) => matches!(self.record_type, RecordType::AAAA),
            RecordData::CNAME(name) => matches!(self.record_type, RecordType::CNAME)
                && name.is_valid(),
            RecordData::Other(bytes) => matches!(self.record_type, RecordType::Other(_))
                && bytes.len() <= MAX_RDATA_LEN,
        }
    }
}

/// The questions that a vector holds, each by its view.
pub open spec fn questions_of(questions: Seq<Question>) -> Seq<QuestionView> {
    Seq::new(questions.len(), |i: int| questions[i]@)
}

/// The records that a vector holds, each by its view.
pub open spec fn records_of(records: Seq<ResourceRecord>) -> Seq<RecordView> {
    Seq::new(records.len(), |i: int| records[i]@)
}

/// A DNS message: the header fields that this library acts on, the question
/// section and the answer section.
#[derive(Debug, PartialEq, Eq)]
pub struct DnsMessage {
    /// Chosen by the client; a response carries the one of its request.
    pub transaction_id: u16,
    pub is_response: bool,
    pub opcode: OpCode,
    /// Set when the answers did not all fit.
    pub truncated: bool,
    pub recursion_desired: bool,
    pub recursion_available: bool,
    pub response_code: ResponseCode,
    pub questions: Vec<Question>,
    pub answers: Vec<ResourceRecord>,
}

/// What a `DnsMessage` means.
pub struct MessageView {
    pub transaction_id: u16,
    pub is_response: bool,
    pub opcode: OpCode,
    pub truncated: bool,
    pub recursion_desired: bool,
    pub recursion_available: bool,
    pub response_code: ResponseCode,
    pub questions: Seq<QuestionView>,
    pub answers: Seq<RecordView>,
}

impl MessageView {
    /// A message that the wire format can carry: codes of four bits, at most
    /// 65535 entries in a section, and every entry well formed.
    pub open spec fn well_formed(self) -> bool {
        &&& self.opcode.well_formed()
        &&& self.response_code.well_formed()
        &&& self.questions.len() <= MAX_SECTION_COUNT
        &&& self.answers.len() <= MAX_SECTION_COUNT
        &&& forall|i: int| 0 <= i < self.questions.len() ==> (#[trigger] self.questions[i]).well_formed()
        &&& forall|i: int| 0 <= i < self.answers.len() ==> (#[trigger] self.answers[i]).well_formed()
    }
}

impl View for DnsMessage {
    type V = MessageView;

    open spec fn view(&self) -> MessageView {
        MessageView {
            transaction_id: self.transaction_id,
            is_response: self.is_response,
            opcode: self.opcode,
            truncated: self.truncated,
            recursion_desired: self.recursion_desired,
            recursion_available: self.recursion_available,
            response_code: self.response_code,
            questions: questions_of(self.questions@),
            answers: records_of(self.answers@),
        }
    }
}

impl DnsMessage {
    /// Says whether the wire format can carry the message.
    pub fn is_well_formed(&self) -> (ok: bool)
        ensures
            ok == self@.well_formed(),
    {
        if !self.opcode.is_well_formed() || !self.response_code.is_well_formed() {
            return false;
        }
        if self.questions.len() > MAX_SECTION_COUNT || self.answers.len() > MAX_SECTION_COUNT {
            return false;
        }
        let mut i: usize = 0;
        while i < self.questions.len()
            invariant
                i <= self.questions.len(),
                forall|j: int| 0 <= j < i ==> (#[trigger] self@.questions[j]).well_formed(),
            decreases self.questions.len() - i,
        {
            if !self.questions[i].is_well_formed() {
                assert(!self@.questions[i as int].well_formed());
                return false;
            }
            i += 1;
        }
        let mut k: usize = 0;
        while k < self.answers.len()
            invariant
                k <= self.answers.len(),
                forall|j: int| 0 <= j < k ==> (#[trigger] self@.answers[j]).well_formed(),
            decreases self.answers.len() - k,
        {
            if !self.answers[k].is_well_formed() {
                assert(!self@.answers[k as int].well_formed());
                return false;
            }
            k += 1;
        }
        true
    }
}

} // verus!
