//! The message codec: reading a message from the bytes of a datagram and
//! writing one into them.

use vstd::prelude::*;
use crate::message::{
    questions_of, records_of, DnsMessage, MessageView, OpCode, Question, QuestionView, RecordData,
    RecordType, RecordView, ResourceRecord, ResponseCode,
};
use crate::name::{
    labels_of, lemma_labels_wire_len_concat, lemma_labels_wire_len_nonnegative,
    lemma_labels_wire_len_push, name_wire_len, valid_name, DomainName,
};
use crate::wire::{
    delivered, encodable, fitting, header_wire, labels_wire, lemma_delivered,
    lemma_labels_wire_push, lemma_parsed_message, lemma_questions_wire_push,
    lemma_rdata_wire_len, lemma_records_wire_push, lemma_round_trip, message_wire, name_wire,
    parse_labels, parse_message, parse_name, parse_question, parse_questions, parse_rdata,
    parse_record, parse_records, question_wire, questions_wire, rdata_wire, record_wire,
    records_wire, u16_at, u16_wire, u32_at, u32_wire, HEADER_LEN,
};

verus! {

/// Why bytes could not be read as a message.
#[derive(Clone, Copy, Debug, PartialEq, Eq)]
pub enum DecodeError {
    /// The bytes end too early or do not have the structure of a message.
    Malformed,
}

/// What has been read so far, joined with what the rest is read as.
spec fn labels_continued(
    done: Seq<Seq<u8>>,
    after: Option<usize>,
    rest: Option<(Seq<Seq<u8>>, int)>,
) -> Option<(Seq<Seq<u8>>, int)> {
    match rest {
        Some((more, end)) => Some(
            (
                done + more,
                match after {
                    Some(stop) => stop as int,
                    None => end,
                },
            ),
        ),
        None => None,
    }
}

/// The questions read so far, joined with what the rest is read as.
spec fn questions_continued(done: Seq<QuestionView>, rest: Option<(Seq<QuestionView>, int)>) -> Option<
    (Seq<QuestionView>, int),
> {
    match rest {
        Some((more, end)) => Some((done + more, end)),
        None => None,
    }
}

/// The records read so far, joined with what the rest is read as.
spec fn records_continued(done: Seq<RecordView>, rest: Option<(Seq<RecordView>, int)>) -> Option<
    (Seq<RecordView>, int),
> {
    match rest {
        Some((more, end)) => Some((done + more, end)),
        None => None,
    }
}

/// Reads the number of sixteen bits at `pos`.
fn read_u16(buf: &[u8], pos: usize) -> (value: u16)
    requires
        pos + 2 <= buf.len(),
    ensures
        value == u16_at(buf@, pos as int),
{
    (buf[pos] as u16) * 256 + (buf[pos + 1] as u16)
}

/// Reads the number of thirty-two bits at `pos`.
fn read_u32(buf: &[u8], pos: usize) -> (value: u32)
    requires
        pos + 4 <= buf.len(),
    ensures
        value == u32_at(buf@, pos as int),
{
    (buf[pos] as u32) * 16777216 + (buf[pos + 1] as u32) * 65536 + (buf[pos + 2] as u32) * 256 + (
    buf[pos + 3] as u32)
}

/// Reads the name at `at`, following pointers, and says where it ends.
fn read_name(buf: &[u8], at: usize) -> (found: Option<(DomainName, usize)>)
    ensures
        match parse_name(buf@, at as int) {
            Some((labels, end)) => found matches Some((name, stop)) && name@ == labels && stop
                == end,
            None => found is None,
        },
{
    let ghost whole = parse_labels(buf@, at as int, at as int, buf@.len() as int);
    let mut labels: Vec<Vec<u8>> = Vec::new();
    let mut total: usize = 1;
    let mut start: usize = at;
    let mut pos: usize = at;
    let mut limit: usize = buf.len();
    let mut after: Option<usize> = None;
    assert(labels_of(labels@) =~= Seq::<Seq<u8>>::empty());
    assert(whole matches Some((more, end)) ==> Seq::<Seq<u8>>::empty() + more =~= more);
    loop
        invariant
            whole == parse_labels(buf@, at as int, at as int, buf@.len() as int),
            start <= pos,
            limit <= buf.len(),
            total == name_wire_len(labels_of(labels@)),
            total <= 255,
            whole == labels_continued(
                labels_of(labels@),
                after,
                parse_labels(buf@, start as int, pos as int, limit as int),
            ),
        decreases start, buf.len() - pos,
    {
        if pos >= limit {
            return None;
        }
        let ghost done = labels_of(labels@);
        let lead = buf[pos];
        if lead == 0 {
            let stop = match after {
                Some(stop) => stop,
                None => pos + 1,
            };
            assert(done + Seq::<Seq<u8>>::empty() =~= done);
            return Some((DomainName { labels }, stop));
        } else if lead < 64 {
            let len = lead as usize;
            if len > buf.len() - pos - 1 {
                return None;
            }
            let next = pos + 1 + len;
            let label = vstd::slice::slice_to_vec(vstd::slice::slice_subrange(buf, pos + 1, next));
            proof {
                let rest = parse_labels(buf@, start as int, next as int, limit as int);
                lemma_labels_wire_len_push(done, label@);
                assert(labels_of(labels@.push(label)) =~= done.push(label@));
                if rest is Some {
                    let more = rest->Some_0.0;
                    assert(done + (seq![label@] + more) =~= done.push(label@) + more);
                    lemma_labels_wire_len_concat(done.push(label@), more);
                    lemma_labels_wire_len_nonnegative(more);
                }
            }
            if total + len + 1 > 255 {
                return None;
            }
            labels.push(label);
            total = total + len + 1;
            pos = next;
        } else if lead >= 192 {
            if buf.len() - pos < 2 {
                return None;
            }
            let target = ((lead - 192) as usize) * 256 + (buf[pos + 1] as usize);
            if target >= start {
                return None;
            }
            if after.is_none() {
                after = Some(pos + 2);
            }
            limit = start;
            start = target;
            pos = target;
        } else {
            return None;
        }
    }
}

/// Reads the question at `at` and says where it ends.
fn read_question(buf: &[u8], at: usize) -> (found: Option<(Question, usize)>)
    ensures
        match parse_question(buf@, at as int) {
            Some((question, end)) => found matches Some((read, stop)) && read@ == question && stop
                == end,
            None => found is None,
        },
{
    let (name, fixed) = match read_name(buf, at) {
        Some(found) => found,
        None => {
            return None;
        },
    };
    if fixed > buf.len() || buf.len() - fixed < 4 {
        return None;
    }
    let record_type = RecordType::from_code(read_u16(buf, fixed));
    let class = read_u16(buf, fixed + 2);
    Some((Question { name, record_type, class }, fixed + 4))
}

/// Reads the `len` bytes at `at` as the data of a record of the given type.
fn read_rdata(buf: &[u8], at: usize, len: usize, record_type: RecordType) -> (found: Option<
    RecordData,
>)
    requires
        at + len <= buf.len(),
    ensures
        match parse_rdata(buf@, at as int, len as int, record_type) {
            Some(data) => found matches Some(read) && read@ == data,
            None => found is None,
        },
{
    match record_type {
        RecordType::A => {
            if len != 4 {
                return None;
            }
            let address: [u8; 4] = [buf[at], buf[at + 1], buf[at + 2], buf[at + 3]];
            assert(address@ =~= buf@.subrange(at as int, at + 4));
            Some(RecordData::A(address))
        },
        RecordType::AAAA => {
            if len != 16 {
                return None;
            }
            let address: [u8; 16] = [
                buf[at],
                buf[at + 1],
                buf[at + 2],
                buf[at + 3],
                buf[at + 4],
                buf[at + 5],
                buf[at + 6],
                buf[at + 7],
                buf[at + 8],
                buf[at + 9],
                buf[at + 10],
                buf[at + 11],
                buf[at + 12],
                buf[at + 13],
                buf[at + 14],
                buf[at + 15],
            ];
            assert(address@ =~= buf@.subrange(at as int, at + 16));
            Some(RecordData::AAAA(address))
        },
        RecordType::CNAME => {
            match read_name(buf, at) {
                Some((name, stop)) => {
                    if stop == at + len {
                        Some(RecordData::CNAME(name))
                    } else {
                        None
                    }
                },
                None => None,
            }
        },
        RecordType::Other(_) => {
            let bytes = vstd::slice::slice_to_vec(vstd::slice::slice_subrange(buf, at, at + len));
            Some(RecordData::Other(bytes))
        },
    }
}

/// Reads the record at `at` and says where it ends.
fn read_record(buf: &[u8], at: usize) -> (found: Option<(ResourceRecord, usize)>)
    ensures
        match parse_record(buf@, at as int) {
            Some((record, end)) => found matches Some((read, stop)) && read@ == record && stop
                == end,
            None => found is None,
        },
{
    let (name, fixed) = match read_name(buf, at) {
        Some(found) => found,
        None => {
            return None;
        },
    };
    if fixed > buf.len() || buf.len() - fixed < 10 {
        return None;
    }
    let record_type = RecordType::from_code(read_u16(buf, fixed));
    let class = read_u16(buf, fixed + 2);
    let ttl = read_u32(buf, fixed + 4);
    let len = read_u16(buf, fixed + 8) as usize;
    let data_at = fixed + 10;
    if len > buf.len() - data_at {
        return None;
    }
    match read_rdata(buf, data_at, len, record_type) {
        Some(data) => Some((ResourceRecord { name, record_type, class, ttl, data }, data_at + len)),
        None => None,
    }
}

/// Reads `count` questions from `at` on and says where they end.
fn read_questions(buf: &[u8], at: usize, count: usize) -> (found: Option<(Vec<Question>, usize)>)
    ensures
        match parse_questions(buf@, at as int, count as int) {
            Some((questions, end)) => found matches Some((read, stop)) && questions_of(read@)
                == questions && stop == end,
            None => found is None,
        },
{
    let ghost whole = parse_questions(buf@, at as int, count as int);
    let mut questions: Vec<Question> = Vec::new();
    let mut pos: usize = at;
    let mut i: usize = 0;
    assert(questions_of(questions@) =~= Seq::<QuestionView>::empty());
    assert(whole matches Some((more, end)) ==> Seq::<QuestionView>::empty() + more =~= more);
    while i < count
        invariant
            i <= count,
            whole == parse_questions(buf@, at as int, count as int),
            whole == questions_continued(
                questions_of(questions@),
                parse_questions(buf@, pos as int, count - i),
            ),
        decreases count - i,
    {
        let ghost done = questions_of(questions@);
        match read_question(buf, pos) {
            Some((question, next)) => {
                proof {
                    let rest = parse_questions(buf@, next as int, count - i - 1);
                    assert(questions_of(questions@.push(question)) =~= done.push(question@));
                    if rest is Some {
                        let more = rest->Some_0.0;
                        assert(done + (seq![question@] + more) =~= done.push(question@) + more);
                    }
                }
                questions.push(question);
                pos = next;
            },
            None => {
                return None;
            },
        }
        i += 1;
    }
    assert(questions_of(questions@) + Seq::<QuestionView>::empty() =~= questions_of(questions@));
    Some((questions, pos))
}

/// Reads `count` records from `at` on and says where they end.
fn read_records(buf: &[u8], at: usize, count: usize) -> (found: Option<(Vec<ResourceRecord>, usize)>)
    ensures
        match parse_records(buf@, at as int, count as int) {
            Some((records, end)) => found matches Some((read, stop)) && records_of(read@)
                == records && stop == end,
            None => found is None,
        },
{
    let ghost whole = parse_records(buf@, at as int, count as int);
    let mut records: Vec<ResourceRecord> = Vec::new();
    let mut pos: usize = at;
    let mut i: usize = 0;
    assert(records_of(records@) =~= Seq::<RecordView>::empty());
    assert(whole matches Some((more, end)) ==> Seq::<RecordView>::empty() + more =~= more);
    while i < count
        invariant
            i <= count,
            whole == parse_records(buf@, at as int, count as int),
            whole == records_continued(
                records_of(records@),
                parse_records(buf@, pos as int, count - i),
            ),
        decreases count - i,
    {
        let ghost done = records_of(records@);
        match read_record(buf, pos) {
            Some((record, next)) => {
                proof {
                    let rest = parse_records(buf@, next as int, count - i - 1);
                    assert(records_of(records@.push(record)) =~= done.push(record@));
                    if rest is Some {
                        let more = rest->Some_0.0;
                        assert(done + (seq![record@] + more) =~= done.push(record@) + more);
                    }
                }
                records.push(record);
                pos = next;
            },
            None => {
                return None;
            },
        }
        i += 1;
    }
    assert(records_of(records@) + Seq::<RecordView>::empty() =~= records_of(records@));
    Some((records, pos))
}

/// Reads a message from the bytes of a datagram.
///
/// Succeeds on exactly the buffers that `parse_message` reads, with the
/// message that it reads them as. No byte outside the buffer is touched,
/// whatever the buffer holds.
pub fn decode(bytes: &[u8]) -> (outcome: Result<DnsMessage, DecodeError>)
    ensures
        match parse_message(bytes@) {
            Some(message) => outcome matches Ok(read) && read@ == message,
            None => outcome == Err::<DnsMessage, DecodeError>(DecodeError::Malformed),
        },
        outcome matches Ok(read) ==> read@.well_formed(),
{
    proof {
        lemma_parsed_message(bytes@);
    }
    if bytes.len() < HEADER_LEN {
        return Err(DecodeError::Malformed);
    }
    let transaction_id = read_u16(bytes, 0);
    let high = bytes[2];
    let low = bytes[3];
    let question_count = read_u16(bytes, 4) as usize;
    let answer_count = read_u16(bytes, 6) as usize;
    let other_count = (read_u16(bytes, 8) as usize) + (read_u16(bytes, 10) as usize);
    let (questions, answers_at) = match read_questions(bytes, HEADER_LEN, question_count) {
        Some(found) => found,
        None => {
            return Err(DecodeError::Malformed);
        },
    };
    let (answers, others_at) = match read_records(bytes, answers_at, answer_count) {
        Some(found) => found,
        None => {
            return Err(DecodeError::Malformed);
        },
    };
    if read_records(bytes, others_at, other_count).is_none() {
        return Err(DecodeError::Malformed);
    }
    Ok(
        DnsMessage {
            transaction_id,
            is_response: high >= 128,
            opcode: OpCode::from_code((high / 8) % 16),
            truncated: (high / 2) % 2 == 1,
            recursion_desired: high % 2 == 1,
            recursion_available: low >= 128,
            response_code: ResponseCode::from_code(low % 16),
            questions,
            answers,
        },
    )
}

/// The size that `encode` keeps a message within: what a datagram carries
/// where nothing larger was agreed on.
pub const MAX_UDP_PAYLOAD: usize = 512;

/// Why a message could not be written.
#[derive(Clone, Copy, Debug, PartialEq, Eq)]
pub enum EncodeError {
    /// The message is not well formed: the wire format has no place for a
    /// name, a code, a count or a length that it holds.
    Unrepresentable,
    /// The header and the questions alone go beyond the limit.
    TooLarge,
}

/// Appends a number of sixteen bits.
fn push_u16(out: &mut Vec<u8>, value: u16)
    ensures
        final(out)@ == old(out)@ + u16_wire(value),
{
    out.push((value / 256) as u8);
    out.push((value % 256) as u8);
    assert(out@ =~= old(out)@ + u16_wire(value));
}

/// Appends a number of thirty-two bits.
fn push_u32(out: &mut Vec<u8>, value: u32)
    ensures
        final(out)@ == old(out)@ + u32_wire(value),
{
    out.push((value / 16777216) as u8);
    out.push(((value / 65536) % 256) as u8);
    out.push(((value / 256) % 256) as u8);
    out.push((value % 256) as u8);
    assert(out@ =~= old(out)@ + u32_wire(value));
}

/// Appends bytes as they are.
fn push_bytes(out: &mut Vec<u8>, bytes: &[u8])
    ensures
        final(out)@ == old(out)@ + bytes@,
{
    let mut i: usize = 0;
    while i < bytes.len()
        invariant
            i <= bytes.len(),
            out@ == old(out)@ + bytes@.take(i as int),
        decreases bytes.len() - i,
    {
        out.push(bytes[i]);
        assert(bytes@.take(i + 1) =~= bytes@.take(i as int).push(bytes@[i as int]));
        i += 1;
    }
    assert(bytes@.take(i as int) =~= bytes@);
}

/// Appends a name, label by label, without compression.
fn write_name(out: &mut Vec<u8>, name: &DomainName)
    requires
        valid_name(name@),
    ensures
        final(out)@ == old(out)@ + name_wire(name@),
{
    let mut i: usize = 0;
    assert(name@.take(0) =~= Seq::<Seq<u8>>::empty());
    while i < name.labels.len()
        invariant
            i <= name.labels.len(),
            valid_name(name@),
            out@ == old(out)@ + labels_wire(name@.take(i as int)),
        decreases name.labels.len() - i,
    {
        let label = &name.labels[i];
        assert(name@[i as int] == label@);
        proof {
            assert(name@.take(i + 1) =~= name@.take(i as int).push(label@));
            lemma_labels_wire_push(name@.take(i as int), label@);
        }
        let ghost before = out@;
        out.push(label.len() as u8);
        push_bytes(out, label.as_slice());
        assert(out@ =~= before + seq![label@.len() as u8] + label@);
        i += 1;
    }
    assert(name@.take(i as int) =~= name@);
    out.push(0);
    assert(out@ =~= old(out)@ + name_wire(name@));
}

/// Appends a question.
fn write_question(out: &mut Vec<u8>, question: &Question)
    requires
        question@.well_formed(),
    ensures
        final(out)@ == old(out)@ + question_wire(question@),
{
    write_name(out, &question.name);
    push_u16(out, question.record_type.to_code());
    push_u16(out, question.class);
    assert(out@ =~= old(out)@ + question_wire(question@));
}

/// Appends the data of a record.
fn write_rdata(out: &mut Vec<u8>, data: &RecordData)
    requires
        data@.well_formed(),
    ensures
        final(out)@ == old(out)@ + rdata_wire(data@),
{
    match data {
        RecordData::A(address) => push_bytes(out, address.as_slice()),
        RecordData::AAAA(address) => push_bytes(out, address.as_slice()),
        RecordData::CNAME(name) => write_name(out, name),
        RecordData::Other(bytes) => push_bytes(out, bytes.as_slice()),
    }
}

/// Appends a record, the length of its data before the data.
fn write_record(out: &mut Vec<u8>, record: &ResourceRecord)
    requires
        record@.well_formed(),
    ensures
        final(out)@ == old(out)@ + record_wire(record@),
{
    write_name(out, &record.name);
    push_u16(out, record.record_type.to_code());
    push_u16(out, record.class);
    push_u32(out, record.ttl);
    let mut data: Vec<u8> = Vec::new();
    write_rdata(&mut data, &record.data);
    assert(data@ =~= rdata_wire(record@.data));
    proof {
        lemma_rdata_wire_len(record@.data);
    }
    push_u16(out, data.len() as u16);
    out.append(&mut data);
    assert(out@ =~= old(out)@ + record_wire(record@));
}

/// Appends the questions in their order.
fn write_questions(out: &mut Vec<u8>, questions: &Vec<Question>)
    requires
        forall|i: int| 0 <= i < questions.len() ==> (#[trigger] questions_of(questions@)[i]).well_formed(),
    ensures
        final(out)@ == old(out)@ + questions_wire(questions_of(questions@)),
{
    let ghost all = questions_of(questions@);
    let mut i: usize = 0;
    assert(all.take(0) =~= Seq::<QuestionView>::empty());
    assert(out@ =~= old(out)@ + questions_wire(all.take(0)));
    while i < questions.len()
        invariant
            i <= questions.len(),
            all == questions_of(questions@),
            forall|j: int| 0 <= j < questions.len() ==> (#[trigger] all[j]).well_formed(),
            out@ == old(out)@ + questions_wire(all.take(i as int)),
        decreases questions.len() - i,
    {
        let ghost before = out@;
        assert(all[i as int].well_formed());
        write_question(out, &questions[i]);
        proof {
            assert(all.take(i + 1) =~= all.take(i as int).push(all[i as int]));
            lemma_questions_wire_push(all.take(i as int), all[i as int]);
            assert(out@ =~= old(out)@ + questions_wire(all.take(i + 1)));
        }
        i += 1;
    }
    assert(all.take(i as int) =~= all);
}

/// Writes as many of the records as fit into `budget` bytes, from the first
/// on, and says how many they are.
fn write_fitting_records(records: &Vec<ResourceRecord>, budget: usize) -> (written: (Vec<u8>, usize))
    requires
        forall|i: int| 0 <= i < records.len() ==> (#[trigger] records_of(records@)[i]).well_formed(),
    ensures
        written.1 == fitting(records_of(records@), budget as int),
        written.1 <= records.len(),
        written.0@ == records_wire(records_of(records@).take(written.1 as int)),
        written.0@.len() <= budget,
{
    let ghost all = records_of(records@);
    let mut bytes: Vec<u8> = Vec::new();
    let mut kept: usize = 0;
    let mut full = false;
    assert(all.take(0) =~= Seq::<RecordView>::empty());
    assert(all.skip(0) =~= all);
    while kept < records.len() && !full
        invariant
            kept <= records.len(),
            all == records_of(records@),
            forall|i: int| 0 <= i < records.len() ==> (#[trigger] all[i]).well_formed(),
            bytes@ == records_wire(all.take(kept as int)),
            bytes.len() <= budget,
            fitting(all, budget as int) == kept + fitting(
                all.skip(kept as int),
                budget - bytes.len(),
            ),
            full ==> fitting(all.skip(kept as int), budget - bytes.len()) == 0,
        decreases
                records.len() - kept,
                if full {
                    0int
                } else {
                    1int
                },
    {
        let ghost next = all[kept as int];
        assert(next.well_formed());
        assert(all.skip(kept as int)[0] == next);
        assert(all.skip(kept as int).drop_first() =~= all.skip(kept + 1));
        let mut one: Vec<u8> = Vec::new();
        write_record(&mut one, &records[kept]);
        assert(one@ =~= record_wire(next));
        if one.len() > budget - bytes.len() {
            full = true;
        } else {
            proof {
                assert(all.take(kept + 1) =~= all.take(kept as int).push(next));
                lemma_records_wire_push(all.take(kept as int), next);
            }
            bytes.append(&mut one);
            kept += 1;
        }
    }
    assert(!full ==> all.skip(kept as int) =~= Seq::<RecordView>::empty());
    (bytes, kept)
}

/// Writes the header of `message` as it goes out with the first `kept` of
/// its answers.
fn write_header(out: &mut Vec<u8>, message: &DnsMessage, kept: usize)
    requires
        old(out)@.len() == 0,
        message@.well_formed(),
        kept <= message.answers.len(),
    ensures
        final(out)@ == header_wire(
            MessageView {
                truncated: message.truncated || kept < message.answers.len(),
                answers: message@.answers.take(kept as int),
                ..message@
            },
        ),
{
    let truncated = message.truncated || kept < message.answers.len();
    let high: u8 = (if message.is_response {
        128u8
    } else {
        0u8
    }) + message.opcode.to_code() * 8 + (if truncated {
        2u8
    } else {
        0u8
    }) + (if message.recursion_desired {
        1u8
    } else {
        0u8
    });
    let low: u8 = (if message.recursion_available {
        128u8
    } else {
        0u8
    }) + message.response_code.to_code();
    push_u16(out, message.transaction_id);
    out.push(high);
    out.push(low);
    push_u16(out, message.questions.len() as u16);
    push_u16(out, kept as u16);
    push_u16(out, 0);
    push_u16(out, 0);
    assert(out@ =~= header_wire(
        MessageView {
            truncated: message.truncated || kept < message.answers.len(),
            answers: message@.answers.take(kept as int),
            ..message@
        },
    ));
}

/// Writes a message into at most `limit` bytes.
///
/// A message that is not well formed is refused, and so is one whose header
/// and questions alone go beyond the limit. Of any other the header and the
/// questions are written in full, then as many answers as fit, from the
/// first on; where some do not fit, the truncation bit is set. Reading the
/// bytes gives back the message that went out.
pub fn encode_with_limit(message: &DnsMessage, limit: usize) -> (outcome: Result<
    Vec<u8>,
    EncodeError,
>)
    ensures
        match outcome {
            Ok(bytes) => {
                &&& encodable(message@, limit as int)
                &&& bytes@ == message_wire(delivered(message@, limit as int))
                &&& bytes@.len() <= limit
                &&& parse_message(bytes@) == Some(delivered(message@, limit as int))
            },
            Err(EncodeError::Unrepresentable) => !message@.well_formed(),
            Err(EncodeError::TooLarge) => message@.well_formed() && !encodable(
                message@,
                limit as int,
            ),
        },
{
    if !message.is_well_formed() {
        return Err(EncodeError::Unrepresentable);
    }
    let mut questions: Vec<u8> = Vec::new();
    write_questions(&mut questions, &message.questions);
    assert(questions@ =~= questions_wire(message@.questions));
    if limit < HEADER_LEN || questions.len() > limit - HEADER_LEN {
        return Err(EncodeError::TooLarge);
    }
    let (mut answers, kept) = write_fitting_records(
        &message.answers,
        limit - HEADER_LEN - questions.len(),
    );
    proof {
        lemma_delivered(message@, limit as int);
        lemma_round_trip(message@, limit as int);
    }
    let mut out: Vec<u8> = Vec::new();
    write_header(&mut out, message, kept);
    out.append(&mut questions);
    out.append(&mut answers);
    Ok(out)
}

/// Writes a message into at most `MAX_UDP_PAYLOAD` bytes, as
/// `encode_with_limit` does.
pub fn encode(message: &DnsMessage) -> (outcome: Result<Vec<u8>, EncodeError>)
    ensures
        match outcome {
            Ok(bytes) => {
                &&& encodable(message@, MAX_UDP_PAYLOAD as int)
                &&& bytes@ == message_wire(delivered(message@, MAX_UDP_PAYLOAD as int))
                &&& bytes@.len() <= MAX_UDP_PAYLOAD
                &&& parse_message(bytes@) == Some(delivered(message@, MAX_UDP_PAYLOAD as int))
            },
            Err(EncodeError::Unrepresentable) => !message@.well_formed(),
            Err(EncodeError::TooLarge) => message@.well_formed() && !encodable(
                message@,
                MAX_UDP_PAYLOAD as int,
            ),
        },
{
    encode_with_limit(message, MAX_UDP_PAYLOAD)
}

} // verus!
