//! The wire format of a DNS message, as mathematics: what bytes a message is
//! written as, and what message a buffer of bytes is read as.
//!
//! Writing never compresses names. Reading follows compression pointers, each
//! of which must lead to an earlier part of the buffer than the one it is
//! read in, so that reading always ends.

use vstd::prelude::*;
use crate::message::{
    MessageView, OpCode, QuestionView, RecordDataView, RecordType, RecordView, ResponseCode,
};
use crate::name::{labels_wire_len, name_wire_len, valid_label, valid_name};

verus! {

/// Bytes of the header of a message.
pub const HEADER_LEN: usize = 12;

/// Says that `bytes` stand in `buf` from position `pos` on.
pub open spec fn holds_at(buf: Seq<u8>, pos: int, bytes: Seq<u8>) -> bool {
    &&& 0 <= pos
    &&& pos + bytes.len() <= buf.len()
    &&& forall|i: int| 0 <= i < bytes.len() ==> buf[pos + i] == #[trigger] bytes[i]
}

/// A number of sixteen bits, most significant byte first.
pub open spec fn u16_wire(value: u16) -> Seq<u8> {
    seq![(value / 256) as u8, (value % 256) as u8]
}

/// A number of thirty-two bits, most significant byte first.
pub open spec fn u32_wire(value: u32) -> Seq<u8> {
    seq![
        (value / 16777216) as u8,
        ((value / 65536) % 256) as u8,
        ((value / 256) % 256) as u8,
        (value % 256) as u8,
    ]
}

/// The number that the two bytes from `pos` on stand for.
pub open spec fn u16_at(buf: Seq<u8>, pos: int) -> u16 {
    (buf[pos] as int * 256 + buf[pos + 1] as int) as u16
}

/// The number that the four bytes from `pos` on stand for.
pub open spec fn u32_at(buf: Seq<u8>, pos: int) -> u32 {
    (buf[pos] as int * 16777216 + buf[pos + 1] as int * 65536 + buf[pos + 2] as int * 256
        + buf[pos + 3] as int) as u32
}

/// The labels of a name on the wire: each after a byte that holds its length.
pub open spec fn labels_wire(labels: Seq<Seq<u8>>) -> Seq<u8>
    decreases labels.len(),
{
    if labels.len() == 0 {
        Seq::empty()
    } else {
        seq![labels[0].len() as u8] + labels[0] + labels_wire(labels.drop_first())
    }
}

/// A name on the wire: its labels, then a zero byte.
pub open spec fn name_wire(labels: Seq<Seq<u8>>) -> Seq<u8> {
    labels_wire(labels) + seq![0u8]
}

/// Reads labels from `pos` on, in the part of the buffer that begins at
/// `start`, up to the end of the name.
///
/// Each length byte, zero byte or pointer is read before `limit`. A pointer
/// ends the part it stands in and leads to a part that begins before `start`
/// and in which everything is read before `start`. The result is the labels
/// and the position after the name in the part where the reading began.
pub open spec fn parse_labels(buf: Seq<u8>, start: int, pos: int, limit: int) -> Option<
    (Seq<Seq<u8>>, int),
>
    decreases start, buf.len() - pos,
{
    if !(0 <= start <= pos < limit <= buf.len()) {
        None
    } else if buf[pos] == 0 {
        Some((Seq::empty(), pos + 1))
    } else if buf[pos] < 64 {
        let next = pos + 1 + buf[pos];
        if next > buf.len() {
            None
        } else {
            match parse_labels(buf, start, next, limit) {
                Some((rest, end)) => Some((seq![buf.subrange(pos + 1, next)] + rest, end)),
                None => None,
            }
        }
    } else if buf[pos] >= 192 {
        if pos + 2 > buf.len() {
            None
        } else {
            let target = (buf[pos] - 192) * 256 + buf[pos + 1];
            if target >= start {
                None
            } else {
                match parse_labels(buf, target, target, start) {
                    Some((rest, _)) => Some((rest, pos + 2)),
                    None => None,
                }
            }
        }
    } else {
        None
    }
}

/// Reads a name at `pos`: its labels, pointers followed, and the position
/// after it. A name of more than 255 bytes is none.
pub open spec fn parse_name(buf: Seq<u8>, pos: int) -> Option<(Seq<Seq<u8>>, int)> {
    match parse_labels(buf, pos, pos, buf.len() as int) {
        Some((labels, end)) => if name_wire_len(labels) <= 255 {
            Some((labels, end))
        } else {
            None
        },
        None => None,
    }
}

/// A question on the wire: name, type, class.
pub open spec fn question_wire(question: QuestionView) -> Seq<u8> {
    name_wire(question.name) + u16_wire(question.record_type.code()) + u16_wire(question.class)
}

/// Reads a question at `pos`.
pub open spec fn parse_question(buf: Seq<u8>, pos: int) -> Option<(QuestionView, int)> {
    match parse_name(buf, pos) {
        Some((name, fixed)) => if fixed + 4 > buf.len() {
            None
        } else {
            Some(
                (
                    QuestionView {
                        name,
                        record_type: RecordType::of_code(u16_at(buf, fixed)),
                        class: u16_at(buf, fixed + 2),
                    },
                    fixed + 4,
                ),
            )
        },
        None => None,
    }
}

/// The data of a record on the wire.
pub open spec fn rdata_wire(data: RecordDataView) -> Seq<u8> {
    match data {
        RecordDataView::A(address) => address,
        RecordDataView::AAAA(address) => address,
        RecordDataView::CNAME(name) => name_wire(name),
        RecordDataView::Other(bytes) => bytes,
    }
}

/// A record on the wire: name, type, class, lifetime, length of the data,
/// data.
pub open spec fn record_wire(record: RecordView) -> Seq<u8> {
    name_wire(record.name) + u16_wire(record.record_type.code()) + u16_wire(record.class)
        + u32_wire(record.ttl) + u16_wire(rdata_wire(record.data).len() as u16) + rdata_wire(
        record.data,
    )
}

/// Reads the `len` bytes of data at `pos` as the data of a record of the
/// given type. An address has its own length; the name of an alias takes up
/// the data exactly; data of other types is taken as it stands.
pub open spec fn parse_rdata(buf: Seq<u8>, pos: int, len: int, record_type: RecordType) -> Option<
    RecordDataView,
> {
    match record_type {
        RecordType::A => if len == 4 {
            Some(RecordDataView::A(buf.subrange(pos, pos + 4)))
        } else {
            None
        },
        RecordType::AAAA => if len == 16 {
            Some(RecordDataView::AAAA(buf.subrange(pos, pos + 16)))
        } else {
            None
        },
        RecordType::CNAME => match parse_name(buf, pos) {
            Some((name, end)) => if end == pos + len {
                Some(RecordDataView::CNAME(name))
            } else {
                None
            },
            None => None,
        },
        RecordType::Other(_) => Some(RecordDataView::Other(buf.subrange(pos, pos + len))),
    }
}

/// Reads a record at `pos`.
pub open spec fn parse_record(buf: Seq<u8>, pos: int) -> Option<(RecordView, int)> {
    match parse_name(buf, pos) {
        Some((name, fixed)) => if fixed + 10 > buf.len() {
            None
        } else {
            let record_type = RecordType::of_code(u16_at(buf, fixed));
            let len = u16_at(buf, fixed + 8) as int;
            if fixed + 10 + len > buf.len() {
                None
            } else {
                match parse_rdata(buf, fixed + 10, len, record_type) {
                    Some(data) => Some(
                        (
                            RecordView {
                                name,
                                record_type,
                                class: u16_at(buf, fixed + 2),
                                ttl: u32_at(buf, fixed + 4),
                                data,
                            },
                            fixed + 10 + len,
                        ),
                    ),
                    None => None,
                }
            }
        },
        None => None,
    }
}

/// A section of questions on the wire.
pub open spec fn questions_wire(questions: Seq<QuestionView>) -> Seq<u8>
    decreases questions.len(),
{
    if questions.len() == 0 {
        Seq::empty()
    } else {
        question_wire(questions[0]) + questions_wire(questions.drop_first())
    }
}

/// A section of records on the wire.
pub open spec fn records_wire(records: Seq<RecordView>) -> Seq<u8>
    decreases records.len(),
{
    if records.len() == 0 {
        Seq::empty()
    } else {
        record_wire(records[0]) + records_wire(records.drop_first())
    }
}

/// Reads `count` questions from `pos` on.
pub open spec fn parse_questions(buf: Seq<u8>, pos: int, count: int) -> Option<
    (Seq<QuestionView>, int),
>
    decreases count,
{
    if count <= 0 {
        Some((Seq::empty(), pos))
    } else {
        match parse_question(buf, pos) {
            Some((question, next)) => match parse_questions(buf, next, count - 1) {
                Some((rest, end)) => Some((seq![question] + rest, end)),
                None => None,
            },
            None => None,
        }
    }
}

/// Reads `count` records from `pos` on.
pub open spec fn parse_records(buf: Seq<u8>, pos: int, count: int) -> Option<
    (Seq<RecordView>, int),
>
    decreases count,
{
    if count <= 0 {
        Some((Seq::empty(), pos))
    } else {
        match parse_record(buf, pos) {
            Some((record, next)) => match parse_records(buf, next, count - 1) {
                Some((rest, end)) => Some((seq![record] + rest, end)),
                None => None,
            },
            None => None,
        }
    }
}

/// The first byte of the flags: response bit, operation, truncation bit and
/// the wish for recursion. The bit for an authoritative answer is never set.
pub open spec fn flags_high(message: MessageView) -> u8 {
    ((if message.is_response {
        128int
    } else {
        0int
    }) + message.opcode.code() * 8 + (if message.truncated {
        2int
    } else {
        0int
    }) + (if message.recursion_desired {
        1int
    } else {
        0int
    })) as u8
}

/// The second byte of the flags: the offer of recursion and the response
/// code. The three bits between them are never set.
pub open spec fn flags_low(message: MessageView) -> u8 {
    ((if message.recursion_available {
        128int
    } else {
        0int
    }) + message.response_code.code()) as u8
}

/// The header of a message on the wire. The sections for authorities and
/// for additional records are written as empty.
pub open spec fn header_wire(message: MessageView) -> Seq<u8> {
    u16_wire(message.transaction_id) + seq![flags_high(message), flags_low(message)] + u16_wire(
        message.questions.len() as u16,
    ) + u16_wire(message.answers.len() as u16) + u16_wire(0) + u16_wire(0)
}

/// A whole message on the wire.
pub open spec fn message_wire(message: MessageView) -> Seq<u8> {
    header_wire(message) + questions_wire(message.questions) + records_wire(message.answers)
}

/// Reads a whole message. The records of the sections for authorities and
/// for additional records must be readable and are left out of the result,
/// as are the flag bits that a `MessageView` has no field for. Bytes after
/// the last record are not looked at.
pub open spec fn parse_message(buf: Seq<u8>) -> Option<MessageView> {
    if buf.len() < HEADER_LEN {
        None
    } else {
        match parse_questions(buf, HEADER_LEN as int, u16_at(buf, 4) as int) {
            Some((questions, answers_at)) => match parse_records(
                buf,
                answers_at,
                u16_at(buf, 6) as int,
            ) {
                Some((answers, others_at)) => match parse_records(
                    buf,
                    others_at,
                    u16_at(buf, 8) + u16_at(buf, 10),
                ) {
                    Some(_) => Some(
                        MessageView {
                            transaction_id: u16_at(buf, 0),
                            is_response: buf[2] >= 128,
                            opcode: OpCode::of_code(((buf[2] / 8) % 16) as u8),
                            truncated: (buf[2] / 2) % 2 == 1,
                            recursion_desired: buf[2] % 2 == 1,
                            recursion_available: buf[3] >= 128,
                            response_code: ResponseCode::of_code((buf[3] % 16) as u8),
                            questions,
                            answers,
                        },
                    ),
                    None => None,
                },
                None => None,
            },
            None => None,
        }
    }
}

/// How many of the records, from the first on, fit into `budget` bytes.
pub open spec fn fitting(records: Seq<RecordView>, budget: int) -> int
    decreases records.len(),
{
    if records.len() == 0 {
        0
    } else if record_wire(records[0]).len() <= budget {
        1 + fitting(records.drop_first(), budget - record_wire(records[0]).len())
    } else {
        0
    }
}

/// The message that goes out when `message` is written into at most `limit`
/// bytes: the answers that fit, from the first on, and the truncation bit
/// set where some did not.
pub open spec fn delivered(message: MessageView, limit: int) -> MessageView {
    let kept = fitting(
        message.answers,
        limit - HEADER_LEN - questions_wire(message.questions).len(),
    );
    MessageView {
        truncated: message.truncated || kept < message.answers.len(),
        answers: message.answers.take(kept),
        ..message
    }
}

/// A message can be written into `limit` bytes when it is well formed and
/// its header and questions fit.
pub open spec fn encodable(message: MessageView, limit: int) -> bool {
    message.well_formed() && HEADER_LEN + questions_wire(message.questions).len() <= limit
}

/// Labels joined are written as one part after the other.
proof fn lemma_labels_wire_concat(a: Seq<Seq<u8>>, b: Seq<Seq<u8>>)
    ensures
        labels_wire(a + b) == labels_wire(a) + labels_wire(b),
    decreases a.len(),
{
    if a.len() == 0 {
        assert(a + b =~= b);
        assert(labels_wire(a) + labels_wire(b) =~= labels_wire(b));
    } else {
        assert((a + b).drop_first() =~= a.drop_first() + b);
        lemma_labels_wire_concat(a.drop_first(), b);
        assert(labels_wire(a + b) =~= labels_wire(a) + labels_wire(b));
    }
}

/// One more label is written after the others, behind its length.
pub(crate) proof fn lemma_labels_wire_push(a: Seq<Seq<u8>>, label: Seq<u8>)
    ensures
        labels_wire(a.push(label)) == labels_wire(a) + seq![label.len() as u8] + label,
{
    let one = seq![label];
    assert(one.drop_first() =~= Seq::<Seq<u8>>::empty());
    assert(labels_wire(one.drop_first()) =~= Seq::<u8>::empty());
    assert(labels_wire(one) =~= seq![label.len() as u8] + label);
    assert(a.push(label) =~= a + one);
    lemma_labels_wire_concat(a, one);
    assert(labels_wire(a) + labels_wire(one) =~= labels_wire(a) + seq![label.len() as u8] + label);
}

/// Labels are written in as many bytes as `labels_wire_len` counts.
pub(crate) proof fn lemma_labels_wire_len(labels: Seq<Seq<u8>>)
    ensures
        labels_wire(labels).len() == labels_wire_len(labels),
    decreases labels.len(),
{
    if labels.len() > 0 {
        lemma_labels_wire_len(labels.drop_first());
    }
}

/// Questions joined are written as one part after the other.
proof fn lemma_questions_wire_concat(a: Seq<QuestionView>, b: Seq<QuestionView>)
    ensures
        questions_wire(a + b) == questions_wire(a) + questions_wire(b),
    decreases a.len(),
{
    if a.len() == 0 {
        assert(a + b =~= b);
        assert(questions_wire(a) + questions_wire(b) =~= questions_wire(b));
    } else {
        assert((a + b).drop_first() =~= a.drop_first() + b);
        lemma_questions_wire_concat(a.drop_first(), b);
        assert(questions_wire(a + b) =~= questions_wire(a) + questions_wire(b));
    }
}

/// One more question is written after the others.
pub(crate) proof fn lemma_questions_wire_push(a: Seq<QuestionView>, question: QuestionView)
    ensures
        questions_wire(a.push(question)) == questions_wire(a) + question_wire(question),
{
    let one = seq![question];
    assert(one.drop_first() =~= Seq::<QuestionView>::empty());
    assert(questions_wire(one.drop_first()) =~= Seq::<u8>::empty());
    assert(questions_wire(one) =~= question_wire(question));
    assert(a.push(question) =~= a + one);
    lemma_questions_wire_concat(a, one);
}

/// Records joined are written as one part after the other.
proof fn lemma_records_wire_concat(a: Seq<RecordView>, b: Seq<RecordView>)
    ensures
        records_wire(a + b) == records_wire(a) + records_wire(b),
    decreases a.len(),
{
    if a.len() == 0 {
        assert(a + b =~= b);
        assert(records_wire(a) + records_wire(b) =~= records_wire(b));
    } else {
        assert((a + b).drop_first() =~= a.drop_first() + b);
        lemma_records_wire_concat(a.drop_first(), b);
        assert(records_wire(a + b) =~= records_wire(a) + records_wire(b));
    }
}

/// One more record is written after the others.
pub(crate) proof fn lemma_records_wire_push(a: Seq<RecordView>, record: RecordView)
    ensures
        records_wire(a.push(record)) == records_wire(a) + record_wire(record),
{
    let one = seq![record];
    assert(one.drop_first() =~= Seq::<RecordView>::empty());
    assert(records_wire(one.drop_first()) =~= Seq::<u8>::empty());
    assert(records_wire(one) =~= record_wire(record));
    assert(a.push(record) =~= a + one);
    lemma_records_wire_concat(a, one);
}

/// The data of a well-formed record takes at most 65535 bytes.
pub(crate) proof fn lemma_rdata_wire_len(data: RecordDataView)
    requires
        data.well_formed(),
    ensures
        rdata_wire(data).len() <= 65535,
{
    if let RecordDataView::CNAME(name) = data {
        lemma_labels_wire_len(name);
    }
}

/// Bytes that stand at a position stand there part by part.
proof fn lemma_holds_at_parts(buf: Seq<u8>, pos: int, first: Seq<u8>, second: Seq<u8>)
    requires
        holds_at(buf, pos, first + second),
    ensures
        holds_at(buf, pos, first),
        holds_at(buf, pos + first.len(), second),
{
    let both = first + second;
    assert forall|i: int| 0 <= i < first.len() implies buf[pos + i] == #[trigger] first[i] by {
        assert(both[i] == first[i]);
    }
    assert forall|i: int| 0 <= i < second.len() implies buf[pos + first.len() + i]
        == #[trigger] second[i] by {
        assert(both[first.len() + i] == second[i]);
    }
}

/// Bytes that stand at a position are the bytes of the buffer there.
proof fn lemma_holds_at_subrange(buf: Seq<u8>, pos: int, bytes: Seq<u8>)
    requires
        holds_at(buf, pos, bytes),
    ensures
        buf.subrange(pos, pos + bytes.len()) == bytes,
{
    assert forall|i: int| 0 <= i < bytes.len() implies buf.subrange(pos, pos + bytes.len())[i]
        == bytes[i] by {
        assert(buf[pos + i] == bytes[i]);
    }
    assert(buf.subrange(pos, pos + bytes.len()) =~= bytes);
}

/// The middle of three parts stands after the first.
proof fn lemma_holds_at_middle(first: Seq<u8>, middle: Seq<u8>, last: Seq<u8>)
    ensures
        holds_at(first + middle + last, first.len() as int, middle),
{
    let buf = first + middle + last;
    assert forall|i: int| 0 <= i < middle.len() implies buf[first.len() + i]
        == #[trigger] middle[i] by {}
}

/// A number of sixteen bits is read as it was written.
pub proof fn lemma_u16_at_wire(buf: Seq<u8>, pos: int, value: u16)
    requires
        holds_at(buf, pos, u16_wire(value)),
    ensures
        u16_at(buf, pos) == value,
{
    let bytes = u16_wire(value);
    assert(buf[pos + 0] == bytes[0]);
    assert(buf[pos + 1] == bytes[1]);
}

/// A number of thirty-two bits is read as it was written.
pub proof fn lemma_u32_at_wire(buf: Seq<u8>, pos: int, value: u32)
    requires
        holds_at(buf, pos, u32_wire(value)),
    ensures
        u32_at(buf, pos) == value,
{
    let bytes = u32_wire(value);
    assert(buf[pos + 0] == bytes[0]);
    assert(buf[pos + 1] == bytes[1]);
    assert(buf[pos + 2] == bytes[2]);
    assert(buf[pos + 3] == bytes[3]);
}

/// Valid labels are read as they were written, wherever the part of the
/// buffer that they stand in begins.
proof fn lemma_parse_labels_wire(buf: Seq<u8>, start: int, pos: int, labels: Seq<Seq<u8>>)
    requires
        0 <= start <= pos,
        holds_at(buf, pos, name_wire(labels)),
        forall|i: int| 0 <= i < labels.len() ==> valid_label(#[trigger] labels[i]),
    ensures
        parse_labels(buf, start, pos, buf.len() as int) == Some(
            (labels, pos + name_wire(labels).len()),
        ),
    decreases labels.len(),
{
    if labels.len() == 0 {
        assert(name_wire(labels) =~= seq![0u8]);
        assert(buf[pos + 0] == name_wire(labels)[0]);
        assert(labels =~= Seq::<Seq<u8>>::empty());
    } else {
        let label = labels[0];
        let rest = labels.drop_first();
        let lead = seq![label.len() as u8];
        assert(valid_label(label));
        assert(name_wire(labels) =~= lead + label + name_wire(rest));
        lemma_holds_at_parts(buf, pos, lead + label, name_wire(rest));
        lemma_holds_at_parts(buf, pos, lead, label);
        assert(buf[pos + 0] == lead[0]);
        let next = pos + 1 + label.len();
        lemma_holds_at_subrange(buf, pos + 1, label);
        assert forall|i: int| 0 <= i < rest.len() implies valid_label(#[trigger] rest[i]) by {
            assert(rest[i] == labels[i + 1]);
        }
        lemma_parse_labels_wire(buf, start, next, rest);
        assert(seq![label] + rest =~= labels);
    }
}

/// A valid name is read as it was written.
pub proof fn lemma_parse_name_wire(buf: Seq<u8>, pos: int, name: Seq<Seq<u8>>)
    requires
        valid_name(name),
        holds_at(buf, pos, name_wire(name)),
    ensures
        parse_name(buf, pos) == Some((name, pos + name_wire(name).len())),
{
    lemma_parse_labels_wire(buf, pos, pos, name);
}

/// A well-formed question is read as it was written.
pub proof fn lemma_parse_question_wire(buf: Seq<u8>, pos: int, question: QuestionView)
    requires
        question.well_formed(),
        holds_at(buf, pos, question_wire(question)),
    ensures
        parse_question(buf, pos) == Some((question, pos + question_wire(question).len())),
{
    let name = name_wire(question.name);
    let kind = u16_wire(question.record_type.code());
    let class = u16_wire(question.class);
    lemma_holds_at_parts(buf, pos, name + kind, class);
    lemma_holds_at_parts(buf, pos, name, kind);
    lemma_parse_name_wire(buf, pos, question.name);
    lemma_u16_at_wire(buf, pos + name.len(), question.record_type.code());
    lemma_u16_at_wire(buf, pos + name.len() + 2, question.class);
}

/// The data of a well-formed record is read as it was written.
pub proof fn lemma_parse_rdata_wire(buf: Seq<u8>, pos: int, record_type: RecordType, data: RecordDataView)
    requires
        data.well_formed(),
        data.fits(record_type),
        holds_at(buf, pos, rdata_wire(data)),
    ensures
        parse_rdata(buf, pos, rdata_wire(data).len() as int, record_type) == Some(data),
{
    lemma_holds_at_subrange(buf, pos, rdata_wire(data));
    if let RecordDataView::CNAME(name) = data {
        lemma_parse_name_wire(buf, pos, name);
    }
}

/// A well-formed record is read as it was written.
pub proof fn lemma_parse_record_wire(buf: Seq<u8>, pos: int, record: RecordView)
    requires
        record.well_formed(),
        holds_at(buf, pos, record_wire(record)),
    ensures
        parse_record(buf, pos) == Some((record, pos + record_wire(record).len())),
{
    let name = name_wire(record.name);
    let kind = u16_wire(record.record_type.code());
    let class = u16_wire(record.class);
    let ttl = u32_wire(record.ttl);
    let data = rdata_wire(record.data);
    let len = u16_wire(data.len() as u16);
    lemma_rdata_wire_len(record.data);
    lemma_holds_at_parts(buf, pos, name + kind + class + ttl + len, data);
    lemma_holds_at_parts(buf, pos, name + kind + class + ttl, len);
    lemma_holds_at_parts(buf, pos, name + kind + class, ttl);
    lemma_holds_at_parts(buf, pos, name + kind, class);
    lemma_holds_at_parts(buf, pos, name, kind);
    lemma_parse_name_wire(buf, pos, record.name);
    let fixed = pos + name.len();
    lemma_u16_at_wire(buf, fixed, record.record_type.code());
    lemma_u16_at_wire(buf, fixed + 2, record.class);
    lemma_u32_at_wire(buf, fixed + 4, record.ttl);
    lemma_u16_at_wire(buf, fixed + 8, data.len() as u16);
    lemma_parse_rdata_wire(buf, fixed + 10, record.record_type, record.data);
}

/// Well-formed questions are read as they were written.
pub proof fn lemma_parse_questions_wire(buf: Seq<u8>, pos: int, questions: Seq<QuestionView>)
    requires
        forall|i: int| 0 <= i < questions.len() ==> (#[trigger] questions[i]).well_formed(),
        holds_at(buf, pos, questions_wire(questions)),
    ensures
        parse_questions(buf, pos, questions.len() as int) == Some(
            (questions, pos + questions_wire(questions).len()),
        ),
    decreases questions.len(),
{
    if questions.len() == 0 {
        assert(questions =~= Seq::<QuestionView>::empty());
    } else {
        let first = questions[0];
        let rest = questions.drop_first();
        lemma_holds_at_parts(buf, pos, question_wire(first), questions_wire(rest));
        lemma_parse_question_wire(buf, pos, first);
        assert forall|i: int| 0 <= i < rest.len() implies (#[trigger] rest[i]).well_formed() by {
            assert(rest[i] == questions[i + 1]);
        }
        lemma_parse_questions_wire(buf, pos + question_wire(first).len(), rest);
        assert(seq![first] + rest =~= questions);
    }
}

/// Well-formed records are read as they were written.
pub proof fn lemma_parse_records_wire(buf: Seq<u8>, pos: int, records: Seq<RecordView>)
    requires
        forall|i: int| 0 <= i < records.len() ==> (#[trigger] records[i]).well_formed(),
        holds_at(buf, pos, records_wire(records)),
    ensures
        parse_records(buf, pos, records.len() as int) == Some(
            (records, pos + records_wire(records).len()),
        ),
    decreases records.len(),
{
    if records.len() == 0 {
        assert(records =~= Seq::<RecordView>::empty());
    } else {
        let first = records[0];
        let rest = records.drop_first();
        lemma_holds_at_parts(buf, pos, record_wire(first), records_wire(rest));
        lemma_parse_record_wire(buf, pos, first);
        assert forall|i: int| 0 <= i < rest.len() implies (#[trigger] rest[i]).well_formed() by {
            assert(rest[i] == records[i + 1]);
        }
        lemma_parse_records_wire(buf, pos + record_wire(first).len(), rest);
        assert(seq![first] + rest =~= records);
    }
}

/// The header of a well-formed message is read as it was written.
proof fn lemma_header_wire(buf: Seq<u8>, message: MessageView)
    requires
        message.well_formed(),
        holds_at(buf, 0, header_wire(message)),
    ensures
        buf.len() >= 12,
        u16_at(buf, 0) == message.transaction_id,
        (buf[2] >= 128) == message.is_response,
        OpCode::of_code(((buf[2] / 8) % 16) as u8) == message.opcode,
        ((buf[2] / 2) % 2 == 1) == message.truncated,
        (buf[2] % 2 == 1) == message.recursion_desired,
        (buf[3] >= 128) == message.recursion_available,
        ResponseCode::of_code((buf[3] % 16) as u8) == message.response_code,
        u16_at(buf, 4) == message.questions.len(),
        u16_at(buf, 6) == message.answers.len(),
        u16_at(buf, 8) == 0,
        u16_at(buf, 10) == 0,
{
    let id = u16_wire(message.transaction_id);
    let flags = seq![flags_high(message), flags_low(message)];
    let questions = u16_wire(message.questions.len() as u16);
    let answers = u16_wire(message.answers.len() as u16);
    let none = u16_wire(0);
    lemma_holds_at_parts(buf, 0, id + flags + questions + answers + none, none);
    lemma_holds_at_parts(buf, 0, id + flags + questions + answers, none);
    lemma_holds_at_parts(buf, 0, id + flags + questions, answers);
    lemma_holds_at_parts(buf, 0, id + flags, questions);
    lemma_holds_at_parts(buf, 0, id, flags);
    lemma_u16_at_wire(buf, 0, message.transaction_id);
    assert(buf[2int + 0] == flags[0]);
    assert(buf[2int + 1] == flags[1]);
    lemma_u16_at_wire(buf, 4, message.questions.len() as u16);
    lemma_u16_at_wire(buf, 6, message.answers.len() as u16);
    lemma_u16_at_wire(buf, 8, 0);
    lemma_u16_at_wire(buf, 10, 0);
}

/// Reading inverts writing: a well-formed message, written and read again,
/// is the message itself.
pub proof fn lemma_decode_inverts_encode(message: MessageView)
    requires
        message.well_formed(),
    ensures
        parse_message(message_wire(message)) == Some(message),
{
    let header = header_wire(message);
    let questions = questions_wire(message.questions);
    let answers = records_wire(message.answers);
    let buf = message_wire(message);
    assert(header.len() == 12);
    assert(holds_at(buf, 0, header)) by {
        assert forall|i: int| 0 <= i < header.len() implies buf[0 + i] == #[trigger] header[i] by {}
    }
    lemma_header_wire(buf, message);
    lemma_holds_at_middle(header, questions, answers);
    lemma_parse_questions_wire(buf, 12, message.questions);
    let answers_at = 12 + questions.len() as int;
    assert(holds_at(buf, answers_at, answers)) by {
        assert forall|i: int| 0 <= i < answers.len() implies buf[answers_at + i]
            == #[trigger] answers[i] by {}
    }
    lemma_parse_records_wire(buf, answers_at, message.answers);
    let read = parse_message(buf)->Some_0;
    assert(read.questions == message.questions);
    assert(read.answers == message.answers);
}

/// The records that `fitting` counts take no more than the budget.
pub proof fn lemma_fitting(records: Seq<RecordView>, budget: int)
    requires
        budget >= 0,
    ensures
        0 <= fitting(records, budget) <= records.len(),
        records_wire(records.take(fitting(records, budget))).len() <= budget,
        records_wire(records).len() <= budget ==> fitting(records, budget) == records.len(),
    decreases records.len(),
{
    if records.len() == 0 {
        assert(records.take(0) =~= records);
    } else if record_wire(records[0]).len() <= budget {
        let rest = records.drop_first();
        let left = budget - record_wire(records[0]).len();
        lemma_fitting(rest, left);
        let kept = fitting(rest, left);
        assert(records.take(kept + 1) =~= seq![records[0]] + rest.take(kept));
        lemma_records_wire_concat(seq![records[0]], rest.take(kept));
        lemma_records_wire_push(Seq::<RecordView>::empty(), records[0]);
        assert(Seq::<RecordView>::empty().push(records[0]) =~= seq![records[0]]);
    } else {
        assert(records.take(0) =~= Seq::<RecordView>::empty());
    }
}

/// What goes out of an encodable message is well formed, takes no more than
/// the limit, and is the message itself where all of it fits.
pub proof fn lemma_delivered(message: MessageView, limit: int)
    requires
        encodable(message, limit),
    ensures
        delivered(message, limit).well_formed(),
        message_wire(delivered(message, limit)).len() <= limit,
        message_wire(message).len() <= limit ==> delivered(message, limit) == message,
{
    let budget = limit - 12 - questions_wire(message.questions).len();
    lemma_fitting(message.answers, budget);
    let kept = fitting(message.answers, budget);
    let out = delivered(message, limit);
    assert forall|i: int| 0 <= i < out.answers.len() implies (#[trigger] out.answers[i]).well_formed() by {
        assert(out.answers[i] == message.answers[i]);
    }
    assert(header_wire(out).len() == 12);
    if message_wire(message).len() <= limit {
        assert(header_wire(message).len() == 12);
        assert(message.answers.take(kept) =~= message.answers);
    }
}

/// The round trip through the wire: what is read from the bytes that an
/// encodable message is written as is the message that went out, which is
/// the message itself unless answers had to be left off.
pub proof fn lemma_round_trip(message: MessageView, limit: int)
    requires
        encodable(message, limit),
    ensures
        parse_message(message_wire(delivered(message, limit))) == Some(delivered(message, limit)),
        message_wire(message).len() <= limit ==> parse_message(
            message_wire(delivered(message, limit)),
        ) == Some(message),
{
    lemma_delivered(message, limit);
    lemma_decode_inverts_encode(delivered(message, limit));
}

/// Labels that are read are valid, and the name ends within the buffer.
proof fn lemma_parsed_labels(buf: Seq<u8>, start: int, pos: int, limit: int)
    ensures
        parse_labels(buf, start, pos, limit) matches Some((labels, end)) ==> {
            &&& pos < end <= buf.len()
            &&& forall|i: int| 0 <= i < labels.len() ==> valid_label(#[trigger] labels[i])
        },
    decreases start, buf.len() - pos,
{
    if !(0 <= start <= pos < limit <= buf.len()) {
    } else if buf[pos] == 0 {
    } else if buf[pos] < 64 {
        let next = pos + 1 + buf[pos];
        if next <= buf.len() {
            lemma_parsed_labels(buf, start, next, limit);
        }
    } else if buf[pos] >= 192 {
        if pos + 2 <= buf.len() {
            let target = (buf[pos] - 192) * 256 + buf[pos + 1];
            if target < start {
                lemma_parsed_labels(buf, target, target, start);
            }
        }
    }
}

/// A name that is read is valid and ends within the buffer.
pub proof fn lemma_parsed_name(buf: Seq<u8>, pos: int)
    ensures
        parse_name(buf, pos) matches Some((name, end)) ==> valid_name(name) && pos < end
            <= buf.len(),
{
    lemma_parsed_labels(buf, pos, pos, buf.len() as int);
}

/// A question that is read is well formed and ends within the buffer.
pub proof fn lemma_parsed_question(buf: Seq<u8>, pos: int)
    ensures
        parse_question(buf, pos) matches Some((question, end)) ==> question.well_formed() && pos
            < end <= buf.len(),
{
    lemma_parsed_name(buf, pos);
}

/// A record that is read is well formed and ends within the buffer.
pub proof fn lemma_parsed_record(buf: Seq<u8>, pos: int)
    ensures
        parse_record(buf, pos) matches Some((record, end)) ==> record.well_formed() && pos < end
            <= buf.len(),
{
    lemma_parsed_name(buf, pos);
    if let Some((name, fixed)) = parse_name(buf, pos) {
        if fixed + 10 <= buf.len() {
            lemma_parsed_name(buf, fixed + 10);
        }
    }
}

/// Questions that are read are as many as were asked for, and well formed.
pub proof fn lemma_parsed_questions(buf: Seq<u8>, pos: int, count: int)
    requires
        0 <= count,
    ensures
        parse_questions(buf, pos, count) matches Some((questions, end)) ==> {
            &&& questions.len() == count
            &&& forall|i: int| 0 <= i < questions.len() ==> (#[trigger] questions[i]).well_formed()
        },
    decreases count,
{
    if count > 0 {
        lemma_parsed_question(buf, pos);
        if let Some((question, next)) = parse_question(buf, pos) {
            lemma_parsed_questions(buf, next, count - 1);
        }
    }
}

/// Records that are read are as many as were asked for, and well formed.
pub proof fn lemma_parsed_records(buf: Seq<u8>, pos: int, count: int)
    requires
        0 <= count,
    ensures
        parse_records(buf, pos, count) matches Some((records, end)) ==> {
            &&& records.len() == count
            &&& forall|i: int| 0 <= i < records.len() ==> (#[trigger] records[i]).well_formed()
        },
    decreases count,
{
    if count > 0 {
        lemma_parsed_record(buf, pos);
        if let Some((record, next)) = parse_record(buf, pos) {
            lemma_parsed_records(buf, next, count - 1);
        }
    }
}

/// Every message that is read is well formed, so that it can be written
/// again.
pub proof fn lemma_parsed_message(buf: Seq<u8>)
    ensures
        parse_message(buf) matches Some(message) ==> message.well_formed(),
{
    if buf.len() >= 12 {
        lemma_parsed_questions(buf, 12, u16_at(buf, 4) as int);
        if let Some((questions, answers_at)) = parse_questions(buf, 12, u16_at(buf, 4) as int) {
            lemma_parsed_records(buf, answers_at, u16_at(buf, 6) as int);
        }
    }
}

} // verus!
