use ipv6filter::codec::{
    decode, encode, encode_with_limit, DecodeError, EncodeError, MAX_UDP_PAYLOAD,
};
use ipv6filter::message::{
    DnsMessage, OpCode, Question, RecordData, RecordType, ResourceRecord, ResponseCode, CLASS_IN,
};
use ipv6filter::name::DomainName;

fn domain(labels: &[&str]) -> DomainName {
    DomainName { labels: labels.iter().map(|label| label.as_bytes().to_vec()).collect() }
}

fn query(id: u16, labels: &[&str], record_type: RecordType) -> DnsMessage {
    DnsMessage {
        transaction_id: id,
        is_response: false,
        opcode: OpCode::Query,
        truncated: false,
        recursion_desired: true,
        recursion_available: false,
        response_code: ResponseCode::NoError,
        questions: vec![Question { name: domain(labels), record_type, class: CLASS_IN }],
        answers: vec![],
    }
}

fn reply(id: u16, labels: &[&str], record_type: RecordType, answers: Vec<ResourceRecord>) -> DnsMessage {
    DnsMessage {
        transaction_id: id,
        is_response: true,
        opcode: OpCode::Query,
        truncated: false,
        recursion_desired: true,
        recursion_available: true,
        response_code: ResponseCode::NoError,
        questions: vec![Question { name: domain(labels), record_type, class: CLASS_IN }],
        answers,
    }
}

fn record(labels: &[&str], record_type: RecordType, ttl: u32, data: RecordData) -> ResourceRecord {
    ResourceRecord { name: domain(labels), record_type, class: CLASS_IN, ttl, data }
}

const QUERY_BYTES: [u8; 29] = [
    0x12, 0x34, 0x01, 0x00, 0x00, 0x01, 0x00, 0x00, 0x00, 0x00, 0x00, 0x00, 7, b'e', b'x', b'a',
    b'm', b'p', b'l', b'e', 3, b'c', b'o', b'm', 0, 0x00, 0x01, 0x00, 0x01,
];

const REPLY_BYTES: [u8; 56] = [
    0x12, 0x34, 0x81, 0x80, 0x00, 0x01, 0x00, 0x01, 0x00, 0x00, 0x00, 0x00, 7, b'e', b'x', b'a',
    b'm', b'p', b'l', b'e', 3, b'c', b'o', b'm', 0, 0x00, 0x01, 0x00, 0x01, 7, b'e', b'x', b'a',
    b'm', b'p', b'l', b'e', 3, b'c', b'o', b'm', 0, 0x00, 0x01, 0x00, 0x01, 0x00, 0x00, 0x01,
    0x2c, 0x00, 0x04, 1, 2, 3, 4,
];

#[test]
fn query_is_written_byte_for_byte() {
    let bytes = encode(&query(0x1234, &["example", "com"], RecordType::A));
    assert_eq!(bytes, Ok(QUERY_BYTES.to_vec()));
}

#[test]
fn query_is_read_byte_for_byte() {
    assert_eq!(decode(&QUERY_BYTES), Ok(query(0x1234, &["example", "com"], RecordType::A)));
}

#[test]
fn reply_with_an_address_is_written_byte_for_byte() {
    let message = reply(
        0x1234,
        &["example", "com"],
        RecordType::A,
        vec![record(&["example", "com"], RecordType::A, 300, RecordData::A([1, 2, 3, 4]))],
    );
    assert_eq!(encode(&message), Ok(REPLY_BYTES.to_vec()));
    assert_eq!(decode(&REPLY_BYTES), Ok(message));
}

#[test]
fn numbers_are_written_most_significant_byte_first() {
    let mut message = query(0xabcd, &[], RecordType::Other(0x0102));
    message.questions[0].class = 0x0304;
    message.is_response = true;
    message.answers = vec![ResourceRecord {
        name: domain(&[]),
        record_type: RecordType::Other(0x0506),
        class: 0x0708,
        ttl: 0x090a0b0c,
        data: RecordData::Other(vec![0xee; 0x0103]),
    }];
    let bytes = encode(&message).unwrap();
    assert_eq!(&bytes[0..2], &[0xab, 0xcd]);
    assert_eq!(&bytes[4..12], &[0, 1, 0, 1, 0, 0, 0, 0]);
    assert_eq!(&bytes[12..17], &[0, 0x01, 0x02, 0x03, 0x04]);
    assert_eq!(&bytes[17..28], &[0, 0x05, 0x06, 0x07, 0x08, 0x09, 0x0a, 0x0b, 0x0c, 0x01, 0x03]);
    assert_eq!(bytes.len(), 28 + 0x0103);
    assert_eq!(decode(&bytes), Ok(message));
}

#[test]
fn flags_take_their_bits() {
    let mut message = query(1, &["a"], RecordType::A);
    message.is_response = false;
    message.recursion_desired = false;
    assert_eq!(&encode(&message).unwrap()[2..4], &[0x00, 0x00]);
    message.is_response = true;
    assert_eq!(&encode(&message).unwrap()[2..4], &[0x80, 0x00]);
    message.opcode = OpCode::Update;
    assert_eq!(&encode(&message).unwrap()[2..4], &[0xa8, 0x00]);
    message.truncated = true;
    assert_eq!(&encode(&message).unwrap()[2..4], &[0xaa, 0x00]);
    message.recursion_desired = true;
    assert_eq!(&encode(&message).unwrap()[2..4], &[0xab, 0x00]);
    message.recursion_available = true;
    assert_eq!(&encode(&message).unwrap()[2..4], &[0xab, 0x80]);
    message.response_code = ResponseCode::Refused;
    assert_eq!(&encode(&message).unwrap()[2..4], &[0xab, 0x85]);
    message.opcode = OpCode::Other(15);
    message.response_code = ResponseCode::Other(15);
    assert_eq!(&encode(&message).unwrap()[2..4], &[0xfb, 0x8f]);
}

#[test]
fn every_code_of_four_bits_is_read_and_written_back() {
    for code in 0u8..16 {
        let mut bytes = QUERY_BYTES.to_vec();
        bytes[2] = code << 3;
        bytes[3] = code;
        let message = decode(&bytes).unwrap();
        assert_eq!(message.opcode, OpCode::from_code(code));
        assert_eq!(message.response_code, ResponseCode::from_code(code));
        assert_eq!(message.opcode.to_code(), code);
        assert_eq!(message.response_code.to_code(), code);
        assert_eq!(encode(&message), Ok(bytes));
    }
    assert_eq!(OpCode::from_code(0), OpCode::Query);
    assert_eq!(OpCode::from_code(2), OpCode::Status);
    assert_eq!(OpCode::from_code(3), OpCode::Other(3));
    assert_eq!(ResponseCode::from_code(1), ResponseCode::FormErr);
    assert_eq!(ResponseCode::from_code(2), ResponseCode::ServFail);
    assert_eq!(ResponseCode::from_code(3), ResponseCode::NXDomain);
    assert_eq!(ResponseCode::from_code(4), ResponseCode::NotImp);
    assert_eq!(ResponseCode::from_code(5), ResponseCode::Refused);
}

#[test]
fn record_types_have_their_numbers() {
    assert_eq!(RecordType::A.to_code(), 1);
    assert_eq!(RecordType::CNAME.to_code(), 5);
    assert_eq!(RecordType::AAAA.to_code(), 28);
    assert_eq!(RecordType::Other(16).to_code(), 16);
    assert_eq!(RecordType::from_code(1), RecordType::A);
    assert_eq!(RecordType::from_code(5), RecordType::CNAME);
    assert_eq!(RecordType::from_code(28), RecordType::AAAA);
    assert_eq!(RecordType::from_code(41), RecordType::Other(41));
}

#[test]
fn flag_bits_without_a_field_are_not_read() {
    let mut bytes = QUERY_BYTES.to_vec();
    bytes[2] |= 0x04;
    bytes[3] |= 0x70;
    assert_eq!(decode(&bytes), Ok(query(0x1234, &["example", "com"], RecordType::A)));
}

fn sample() -> DnsMessage {
    let v6 = [0x20, 0x01, 0x0d, 0xb8, 0, 0, 0, 0, 0, 0, 0, 0, 0, 0, 0, 1];
    reply(
        0xbeef,
        &["www", "example", "com"],
        RecordType::Other(255),
        vec![
            record(
                &["www", "example", "com"],
                RecordType::CNAME,
                3600,
                RecordData::CNAME(domain(&["host", "example", "net"])),
            ),
            record(&["host", "example", "net"], RecordType::A, 60, RecordData::A([192, 0, 2, 1])),
            record(&["host", "example", "net"], RecordType::AAAA, 0, RecordData::AAAA(v6)),
            record(
                &["host", "example", "net"],
                RecordType::Other(16),
                u32::MAX,
                RecordData::Other(b"\x05hello".to_vec()),
            ),
            record(&[], RecordType::Other(2), 1, RecordData::Other(vec![])),
        ],
    )
}

#[test]
fn reading_inverts_writing() {
    let message = sample();
    let bytes = encode(&message).unwrap();
    assert_eq!(decode(&bytes), Ok(message));

    let empty = DnsMessage {
        transaction_id: 0,
        is_response: false,
        opcode: OpCode::Query,
        truncated: false,
        recursion_desired: false,
        recursion_available: false,
        response_code: ResponseCode::NoError,
        questions: vec![],
        answers: vec![],
    };
    let bytes = encode(&empty).unwrap();
    assert_eq!(bytes, vec![0u8; 12]);
    assert_eq!(decode(&bytes), Ok(empty));
}

#[test]
fn reading_inverts_writing_for_several_questions() {
    let mut message = query(77, &["one"], RecordType::A);
    message.questions.push(Question {
        name: domain(&["two", "example"]),
        record_type: RecordType::AAAA,
        class: 3,
    });
    message.questions.push(Question {
        name: domain(&[]),
        record_type: RecordType::Other(0),
        class: 0xffff,
    });
    let bytes = encode(&message).unwrap();
    assert_eq!(decode(&bytes), Ok(message));
}

#[test]
fn every_proper_prefix_of_a_message_is_malformed() {
    let bytes = encode(&sample()).unwrap();
    for len in 0..bytes.len() {
        assert_eq!(decode(&bytes[..len]), Err(DecodeError::Malformed), "prefix of {} bytes", len);
    }
    assert!(decode(&bytes).is_ok());
}

#[test]
fn bytes_after_the_last_record_are_not_looked_at() {
    let mut bytes = QUERY_BYTES.to_vec();
    bytes.extend_from_slice(&[0xff, 0xc0, 0x00]);
    assert_eq!(decode(&bytes), Ok(query(0x1234, &["example", "com"], RecordType::A)));
}

#[test]
fn compressed_names_are_read_in_full() {
    let mut bytes = REPLY_BYTES[..29].to_vec();
    bytes[7] = 2;
    // An answer whose name is a pointer to the question's name.
    bytes.extend_from_slice(&[0xc0, 12, 0, 5, 0, 1, 0, 0, 0, 10, 0, 6, 3, b'w', b'w', b'w', 0xc0, 12]);
    // An answer whose name is a label followed by a pointer into the data of the first.
    bytes.extend_from_slice(&[2, b'v', b'4', 0xc0, 41, 0, 1, 0, 1, 0, 0, 0, 20, 0, 4, 10, 0, 0, 1]);
    let message = decode(&bytes).unwrap();
    assert_eq!(
        message.answers,
        vec![
            record(
                &["example", "com"],
                RecordType::CNAME,
                10,
                RecordData::CNAME(domain(&["www", "example", "com"])),
            ),
            record(
                &["v4", "www", "example", "com"],
                RecordType::A,
                20,
                RecordData::A([10, 0, 0, 1]),
            ),
        ]
    );
    // Written again, the names stand in full.
    let written = encode(&message).unwrap();
    assert!(written.len() > bytes.len());
    assert_eq!(decode(&written), Ok(message));
}

fn with_question_name(name: &[u8]) -> Vec<u8> {
    let mut bytes = QUERY_BYTES[..12].to_vec();
    bytes.extend_from_slice(name);
    bytes.extend_from_slice(&[0, 1, 0, 1]);
    bytes
}

#[test]
fn pointer_must_lead_backwards() {
    // To itself.
    assert_eq!(decode(&with_question_name(&[0xc0, 12])), Err(DecodeError::Malformed));
    // Forwards.
    assert_eq!(decode(&with_question_name(&[0xc0, 14, 0])), Err(DecodeError::Malformed));
    // To the start of the name it stands in, after a label.
    assert_eq!(decode(&with_question_name(&[1, b'a', 0xc0, 12])), Err(DecodeError::Malformed));
    // Beyond the buffer.
    assert_eq!(decode(&with_question_name(&[0xff, 0xff])), Err(DecodeError::Malformed));
    // Into the header, whose bytes then read as labels: the id as a label of one byte, the
    // flags as another, the first byte of the question count as the end of the name.
    let mut bytes = with_question_name(&[0xc0, 0]);
    bytes[0] = 1;
    assert_eq!(
        decode(&bytes).map(|message| message.questions[0].name.clone()),
        Ok(DomainName { labels: vec![vec![0x34], vec![0x00]] })
    );
    // The same, with a label that ends where the part of the pointer begins.
    bytes[0] = 11;
    assert_eq!(decode(&bytes), Err(DecodeError::Malformed));
    // And with one that ends a byte before it, where a zero byte ends the name.
    bytes[0] = 10;
    assert_eq!(
        decode(&bytes).map(|message| message.questions[0].name.clone()),
        Ok(DomainName { labels: vec![vec![0x34, 1, 0, 0, 1, 0, 0, 0, 0, 0]] })
    );
}

#[test]
fn pointer_cut_short_is_malformed() {
    let mut bytes = QUERY_BYTES[..12].to_vec();
    bytes.push(0xc0);
    assert_eq!(decode(&bytes), Err(DecodeError::Malformed));
}

#[test]
fn chain_of_pointers_is_followed_backwards_only() {
    let mut bytes = QUERY_BYTES.to_vec();
    bytes[7] = 3;
    // name at 29: "a" then pointer to 12
    bytes.extend_from_slice(&[1, b'a', 0xc0, 12, 0, 1, 0, 1, 0, 0, 0, 1, 0, 4, 1, 1, 1, 1]);
    // name at 47: "b" then pointer to 29
    bytes.extend_from_slice(&[1, b'b', 0xc0, 29, 0, 1, 0, 1, 0, 0, 0, 1, 0, 4, 2, 2, 2, 2]);
    // name at 65: pointer to 47
    bytes.extend_from_slice(&[0xc0, 47, 0, 1, 0, 1, 0, 0, 0, 1, 0, 4, 3, 3, 3, 3]);
    let message = decode(&bytes).unwrap();
    assert_eq!(message.answers[0].name, domain(&["a", "example", "com"]));
    assert_eq!(message.answers[1].name, domain(&["b", "a", "example", "com"]));
    assert_eq!(message.answers[2].name, domain(&["b", "a", "example", "com"]));
}

#[test]
fn label_lengths_between_64_and_191_are_malformed() {
    for lead in [64u8, 65, 127, 128, 191] {
        let mut name = vec![lead];
        name.extend(std::iter::repeat(b'a').take(lead as usize));
        name.push(0);
        assert_eq!(decode(&with_question_name(&name)), Err(DecodeError::Malformed));
    }
}

fn long_name(last: usize) -> Vec<Vec<u8>> {
    vec![vec![b'a'; 63], vec![b'b'; 63], vec![b'c'; 63], vec![b'd'; last]]
}

#[test]
fn name_of_255_bytes_is_the_longest() {
    let longest = DomainName { labels: long_name(61) };
    assert!(longest.is_valid());
    let mut message = query(1, &[], RecordType::A);
    message.questions[0].name = longest;
    let bytes = encode(&message).unwrap();
    assert_eq!(bytes.len(), 12 + 255 + 4);
    assert_eq!(decode(&bytes), Ok(message));

    let too_long = DomainName { labels: long_name(62) };
    assert!(!too_long.is_valid());
    let mut name = Vec::new();
    for label in &too_long.labels {
        name.push(label.len() as u8);
        name.extend_from_slice(label);
    }
    name.push(0);
    assert_eq!(name.len(), 256);
    assert_eq!(decode(&with_question_name(&name)), Err(DecodeError::Malformed));
}

#[test]
fn name_made_too_long_by_pointers_is_malformed() {
    let mut bytes = QUERY_BYTES[..12].to_vec();
    bytes[5] = 2;
    // First question: a name of 255 bytes at position 12.
    for label in long_name(61) {
        bytes.push(label.len() as u8);
        bytes.extend_from_slice(&label);
    }
    bytes.extend_from_slice(&[0, 0, 1, 0, 1]);
    // Second question: one more label before a pointer to that name.
    let mut longer = bytes.clone();
    longer.extend_from_slice(&[1, b'x', 0xc0, 12, 0, 1, 0, 1]);
    assert_eq!(decode(&longer), Err(DecodeError::Malformed));
    // The pointer alone is within the limit.
    bytes.extend_from_slice(&[0xc0, 12, 0, 1, 0, 1]);
    let message = decode(&bytes).unwrap();
    assert_eq!(message.questions[0].name, message.questions[1].name);
}

#[test]
fn valid_names_keep_the_limits() {
    assert!(DomainName::root().is_valid());
    assert_eq!(DomainName::root(), domain(&[]));
    assert!(domain(&["example", "com"]).is_valid());
    assert!(DomainName { labels: vec![vec![0u8; 63]] }.is_valid());
    assert!(!DomainName { labels: vec![vec![0u8; 64]] }.is_valid());
    assert!(!DomainName { labels: vec![vec![]] }.is_valid());
    assert!(!domain(&["example", "", "com"]).is_valid());
}

fn with_answer(record_type: u16, rdata: &[u8]) -> Vec<u8> {
    let mut bytes = REPLY_BYTES[..29].to_vec();
    bytes.extend_from_slice(&[0xc0, 12]);
    bytes.extend_from_slice(&record_type.to_be_bytes());
    bytes.extend_from_slice(&[0, 1, 0, 0, 0, 60]);
    bytes.extend_from_slice(&(rdata.len() as u16).to_be_bytes());
    bytes.extend_from_slice(rdata);
    bytes
}

#[test]
fn address_of_the_wrong_length_is_malformed() {
    assert!(decode(&with_answer(1, &[1, 2, 3, 4])).is_ok());
    assert_eq!(decode(&with_answer(1, &[1, 2, 3])), Err(DecodeError::Malformed));
    assert_eq!(decode(&with_answer(1, &[1, 2, 3, 4, 5])), Err(DecodeError::Malformed));
    assert_eq!(decode(&with_answer(1, &[])), Err(DecodeError::Malformed));
    assert!(decode(&with_answer(28, &[7; 16])).is_ok());
    assert_eq!(decode(&with_answer(28, &[7; 15])), Err(DecodeError::Malformed));
    assert_eq!(decode(&with_answer(28, &[7; 17])), Err(DecodeError::Malformed));
    assert_eq!(decode(&with_answer(28, &[7; 4])), Err(DecodeError::Malformed));
}

#[test]
fn alias_must_fill_its_data_exactly() {
    assert_eq!(
        decode(&with_answer(5, &[1, b'x', 0])).map(|message| message.answers),
        Ok(vec![record(
            &["example", "com"],
            RecordType::CNAME,
            60,
            RecordData::CNAME(domain(&["x"]))
        )])
    );
    assert_eq!(decode(&with_answer(5, &[1, b'x', 0, 0])), Err(DecodeError::Malformed));
    assert_eq!(decode(&with_answer(5, &[1, b'x'])), Err(DecodeError::Malformed));
    assert_eq!(decode(&with_answer(5, &[])), Err(DecodeError::Malformed));
    assert_eq!(decode(&with_answer(5, &[64, 0])), Err(DecodeError::Malformed));
}

#[test]
fn data_of_other_types_passes_as_it_stands() {
    let text = [3, b'a', b'b', b'c', 0xc0, 0xff];
    assert_eq!(
        decode(&with_answer(16, &text)).map(|message| message.answers),
        Ok(vec![record(
            &["example", "com"],
            RecordType::Other(16),
            60,
            RecordData::Other(text.to_vec())
        )])
    );
    let bytes = with_answer(16, &text);
    let message = decode(&bytes).unwrap();
    let written = encode(&message).unwrap();
    assert_eq!(decode(&written), Ok(message));
}

#[test]
fn data_cut_short_is_malformed() {
    let mut bytes = with_answer(16, &[1, 2, 3, 4, 5]);
    bytes.pop();
    assert_eq!(decode(&bytes), Err(DecodeError::Malformed));
}

#[test]
fn other_sections_are_checked_and_left_out() {
    let mut bytes = QUERY_BYTES.to_vec();
    bytes[11] = 1;
    // The pseudo-record of the extension mechanism: root name, type 41.
    let option = [0, 0, 41, 0x04, 0xd0, 0, 0, 0, 0, 0, 0];
    bytes.extend_from_slice(&option);
    assert_eq!(decode(&bytes), Ok(query(0x1234, &["example", "com"], RecordType::A)));
    bytes.pop();
    assert_eq!(decode(&bytes), Err(DecodeError::Malformed));

    let mut bytes = QUERY_BYTES.to_vec();
    bytes[9] = 1;
    bytes[11] = 1;
    bytes.extend_from_slice(&[0xc0, 12, 0, 2, 0, 1, 0, 0, 0, 5, 0, 2, 0xc0, 12]);
    bytes.extend_from_slice(&option);
    assert_eq!(decode(&bytes), Ok(query(0x1234, &["example", "com"], RecordType::A)));
    bytes[9] = 2;
    assert_eq!(decode(&bytes), Err(DecodeError::Malformed));
}

#[test]
fn counts_beyond_the_content_are_malformed() {
    let mut bytes = QUERY_BYTES.to_vec();
    bytes[5] = 2;
    assert_eq!(decode(&bytes), Err(DecodeError::Malformed));
    let mut bytes = QUERY_BYTES.to_vec();
    bytes[6] = 0xff;
    bytes[7] = 0xff;
    assert_eq!(decode(&bytes), Err(DecodeError::Malformed));
    let mut bytes = vec![0xffu8; 12];
    assert_eq!(decode(&bytes), Err(DecodeError::Malformed));
    bytes.extend_from_slice(&[0xff; 500]);
    assert_eq!(decode(&bytes), Err(DecodeError::Malformed));
}

#[test]
fn message_that_the_wire_cannot_carry_is_refused() {
    let sound = sample();
    assert!(sound.is_well_formed());

    let mut message = sample();
    message.questions[0].name = domain(&["", "com"]);
    assert!(!message.is_well_formed());
    assert_eq!(encode(&message), Err(EncodeError::Unrepresentable));

    let mut message = sample();
    message.answers[1].name = DomainName { labels: vec![vec![b'a'; 64]] };
    assert_eq!(encode(&message), Err(EncodeError::Unrepresentable));

    let mut message = sample();
    message.answers[0].data = RecordData::CNAME(DomainName { labels: long_name(62) });
    assert_eq!(encode(&message), Err(EncodeError::Unrepresentable));

    let mut message = sample();
    message.questions[0].record_type = RecordType::Other(28);
    assert_eq!(encode(&message), Err(EncodeError::Unrepresentable));

    let mut message = sample();
    message.answers[1].record_type = RecordType::AAAA;
    assert_eq!(encode(&message), Err(EncodeError::Unrepresentable));

    let mut message = sample();
    message.answers[3].record_type = RecordType::A;
    assert_eq!(encode(&message), Err(EncodeError::Unrepresentable));

    let mut message = sample();
    message.answers[3].data = RecordData::Other(vec![0; 65536]);
    assert_eq!(encode_with_limit(&message, 1 << 20), Err(EncodeError::Unrepresentable));
    message.answers[3].data = RecordData::Other(vec![0; 65535]);
    assert!(encode_with_limit(&message, 1 << 20).is_ok());

    let mut message = sample();
    message.opcode = OpCode::Other(16);
    assert_eq!(encode(&message), Err(EncodeError::Unrepresentable));
    message.opcode = OpCode::Other(2);
    assert_eq!(encode(&message), Err(EncodeError::Unrepresentable));

    let mut message = sample();
    message.response_code = ResponseCode::Other(0);
    assert_eq!(encode(&message), Err(EncodeError::Unrepresentable));
    message.response_code = ResponseCode::Other(16);
    assert_eq!(encode(&message), Err(EncodeError::Unrepresentable));
}

#[test]
fn header_and_questions_must_fit() {
    let message = query(1, &["example", "com"], RecordType::A);
    let mut expected = QUERY_BYTES.to_vec();
    expected[0] = 0;
    expected[1] = 1;
    assert_eq!(encode_with_limit(&message, 29), Ok(expected));
    assert_eq!(encode_with_limit(&message, 28), Err(EncodeError::TooLarge));
    assert_eq!(encode_with_limit(&message, 12), Err(EncodeError::TooLarge));
    assert_eq!(encode_with_limit(&message, 0), Err(EncodeError::TooLarge));

    let mut many = query(1, &[], RecordType::A);
    many.questions.clear();
    for _ in 0..101 {
        many.questions.push(Question { name: domain(&[]), record_type: RecordType::A, class: 1 });
    }
    assert_eq!(encode(&many), Err(EncodeError::TooLarge));
    many.questions.pop();
    assert_eq!(encode(&many).map(|bytes| bytes.len()), Ok(512));
}

fn many_answers(count: usize) -> DnsMessage {
    let mut answers = Vec::new();
    for i in 0..count {
        answers.push(record(
            &["example", "com"],
            RecordType::A,
            300,
            RecordData::A([10, 0, (i / 256) as u8, (i % 256) as u8]),
        ));
    }
    reply(0x4242, &["example", "com"], RecordType::A, answers)
}

#[test]
fn answers_that_do_not_fit_are_left_off_and_flagged() {
    assert_eq!(MAX_UDP_PAYLOAD, 512);
    // Header 12, question 17, each answer 27 bytes: 17 answers make 488 bytes, 18 make 515.
    let fits = many_answers(17);
    let bytes = encode(&fits).unwrap();
    assert_eq!(bytes.len(), 12 + 17 + 17 * 27);
    assert_eq!(bytes[2] & 0x02, 0);
    assert_eq!(decode(&bytes), Ok(fits));

    let over = many_answers(18);
    let bytes = encode(&over).unwrap();
    assert_eq!(bytes.len(), 12 + 17 + 17 * 27);
    assert_eq!(bytes[2] & 0x02, 0x02);
    assert_eq!(&bytes[6..8], &[0, 17]);
    let mut expected = many_answers(17);
    expected.truncated = true;
    assert_eq!(decode(&bytes), Ok(expected));

    let far_over = many_answers(1000);
    let bytes = encode(&far_over).unwrap();
    assert!(bytes.len() <= 512);
    let read = decode(&bytes).unwrap();
    assert!(read.truncated);
    assert_eq!(read.answers.len(), 17);
}

#[test]
fn limit_decides_how_many_answers_go_out() {
    let message = many_answers(5);
    for (limit, kept) in [(29, 0), (55, 0), (56, 1), (82, 1), (83, 2), (163, 4), (164, 5), (4096, 5)] {
        let bytes = encode_with_limit(&message, limit).unwrap();
        assert!(bytes.len() <= limit);
        assert_eq!(bytes.len(), 29 + kept * 27);
        let read = decode(&bytes).unwrap();
        assert_eq!(read.answers.len(), kept);
        assert_eq!(read.truncated, kept < 5);
        assert_eq!(read.answers[..], message.answers[..kept]);
        assert_eq!(read.questions, message.questions);
    }
}

#[test]
fn answers_after_one_that_does_not_fit_are_left_off_too() {
    let mut message = many_answers(3);
    message.answers[1].data = RecordData::Other(vec![0; 600]);
    message.answers[1].record_type = RecordType::Other(16);
    let bytes = encode(&message).unwrap();
    let read = decode(&bytes).unwrap();
    assert_eq!(read.answers.len(), 1);
    assert!(read.truncated);
}

#[test]
fn truncation_flag_of_the_message_is_kept() {
    let mut message = many_answers(1);
    message.truncated = true;
    let bytes = encode(&message).unwrap();
    assert_eq!(bytes[2] & 0x02, 0x02);
    assert_eq!(decode(&bytes), Ok(message));
}

#[test]
fn copies_are_equal_to_what_they_copy() {
    let message = sample();
    for answer in &message.answers {
        assert_eq!(&answer.clone(), answer);
        assert_eq!(&answer.name.clone(), &answer.name);
        assert_eq!(&answer.data.clone(), &answer.data);
    }
    for question in &message.questions {
        assert_eq!(&question.clone(), question);
    }
}
