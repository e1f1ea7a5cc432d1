use dns_packet::DnsError;
use dns_packet::DnsPacket;
use dns_packet::Opcode;
use dns_packet::QueryClass;
use dns_packet::QueryOrResponse;
use dns_packet::QueryType;
use dns_packet::Question;
use dns_packet::RecordData;
use dns_packet::RecordType;
use dns_packet::ResourceRecord;
use dns_packet::ResponseCode;

#[test]
fn query_round_trip() {
    let query = DnsPacket::new_query(0x1234, "example.com", RecordType::A);
    let buffer = query.to_buffer();
    let decoded = DnsPacket::from_buffer(&buffer).unwrap();
    assert_eq!(decoded.id, 0x1234);
    assert_eq!(decoded.query_or_response, QueryOrResponse::Query);
    assert_eq!(decoded.opcode, Opcode::StandardQuery);
    assert!(decoded.recursion_desired);
    assert!(!decoded.authoritative_answer);
    assert_eq!(decoded.questions.len(), 1);
    assert_eq!(decoded.questions[0].name, "example.com");
    assert_eq!(decoded.questions[0].query_type, QueryType::A);
    assert_eq!(decoded.questions[0].query_class, QueryClass::IN);
    assert_eq!(decoded.answers.len(), 0);
}

#[test]
fn query_round_trip_mx() {
    let query = DnsPacket::new_query(7, "mail.example.org", RecordType::MX);
    let decoded = DnsPacket::from_buffer(&query.to_buffer()).unwrap();
    assert_eq!(decoded.questions[0].name, "mail.example.org");
    assert_eq!(decoded.questions[0].query_type, QueryType::MX);
}

#[test]
fn query_encodes_exact_bytes() {
    let query = DnsPacket::new_query(1, "ab.c", RecordType::MX);
    let expected: Vec<u8> = vec![
        0, 1, // id
        1, 0, // flags: recursion desired only
        0, 1, // one question
        0, 0, // no answers
        0, 0, 0, 0, // reserved zero counts
        2, b'a', b'b', 1, b'c', 0, // name
        0, 15, // mail-exchange query type
        0, 1, // Internet class
    ];
    assert_eq!(query.to_buffer(), expected);
}

#[test]
fn header_flag_bytes_round_trip() {
    let packet = DnsPacket {
        id: 0,
        query_or_response: QueryOrResponse::Response,
        opcode: Opcode::StandardQuery,
        authoritative_answer: true,
        truncated: false,
        recursion_desired: false,
        recursion_available: true,
        response_code: ResponseCode::NameError,
        questions: vec![],
        answers: vec![],
    };
    let buffer = packet.to_buffer();
    assert_eq!(buffer[2], 0x84);
    assert_eq!(buffer[3], 0x83);

    let header: Vec<u8> = vec![0, 0, 0x84, 0x83, 0, 0, 0, 0, 0, 0, 0, 0];
    let decoded = DnsPacket::from_buffer(&header).unwrap();
    assert_eq!(decoded.query_or_response, QueryOrResponse::Response);
    assert_eq!(decoded.opcode, Opcode::StandardQuery);
    assert!(decoded.authoritative_answer);
    assert!(!decoded.truncated);
    assert!(!decoded.recursion_desired);
    assert!(decoded.recursion_available);
    assert_eq!(decoded.response_code, ResponseCode::NameError);
}

#[test]
fn short_header_is_malformed() {
    let buf: Vec<u8> = vec![0, 1, 2, 3, 4, 5, 6, 7];
    assert!(matches!(
        DnsPacket::from_buffer(&buf),
        Err(DnsError::MalformedInput)
    ));
}

#[test]
fn unknown_opcode_is_unknown_code() {
    let header: Vec<u8> = vec![0, 0, 7 << 3, 0, 0, 0, 0, 0, 0, 0, 0, 0];
    assert!(matches!(
        DnsPacket::from_buffer(&header),
        Err(DnsError::UnknownCode)
    ));
}

#[test]
fn unknown_response_code_is_unknown_code() {
    let header: Vec<u8> = vec![0, 0, 0, 10, 0, 0, 0, 0, 0, 0, 0, 0];
    assert!(matches!(
        DnsPacket::from_buffer(&header),
        Err(DnsError::UnknownCode)
    ));
}

#[test]
fn trailing_bytes_are_ignored() {
    let query = DnsPacket::new_query(9, "example.com", RecordType::A);
    let mut buffer = query.to_buffer();
    buffer.extend_from_slice(&[0xDE, 0xAD, 0xBE, 0xEF]);
    let decoded = DnsPacket::from_buffer(&buffer).unwrap();
    assert_eq!(decoded.id, 9);
    assert_eq!(decoded.questions[0].name, "example.com");
}

#[test]
fn unknown_query_type_in_question_is_unknown_code() {
    let buf: Vec<u8> = vec![3, b'c', b'o', b'm', 0, 0, 99, 0, 1];
    let mut offset: usize = 0;
    let result = Question::from_buffer(&buf, &mut offset);
    assert!(matches!(result, Err(DnsError::UnknownCode)));
}

#[test]
fn unknown_query_class_is_unknown_code() {
    let buf: Vec<u8> = vec![1, b'a', 0, 0, 1, 0, 2];
    let mut offset: usize = 0;
    let result = Question::from_buffer(&buf, &mut offset);
    assert!(matches!(result, Err(DnsError::UnknownCode)));
}

#[test]
fn question_round_trips_through_buffer() {
    let question = Question::new("example.com", RecordType::A);
    let mut buffer: Vec<u8> = Vec::new();
    question.extend_to_buffer(&mut buffer);
    let mut offset: usize = 0;
    let decoded = Question::from_buffer(&buffer, &mut offset).unwrap();
    assert_eq!(decoded.name, "example.com");
    assert_eq!(decoded.query_type, QueryType::A);
    assert_eq!(decoded.query_class, QueryClass::IN);
    assert_eq!(offset, buffer.len());
}

#[test]
fn query_type_codes() {
    assert_eq!(QueryType::A.to_u16(), 1);
    assert_eq!(QueryType::MX.to_u16(), 15);
    assert_eq!(QueryType::from_u16(1), Ok(QueryType::A));
    assert_eq!(QueryType::from_u16(15), Ok(QueryType::MX));
    assert_eq!(QueryType::from_u16(99), Err(DnsError::UnknownCode));
    assert_eq!(QueryClass::IN.to_u16(), 1);
    assert_eq!(QueryClass::from_u16(1), Ok(QueryClass::IN));
    assert_eq!(QueryClass::from_u16(2), Err(DnsError::UnknownCode));
}

fn address_record_bytes(data_length: u16) -> Vec<u8> {
    let mut buf: Vec<u8> = vec![1, b'a', 0]; // name "a"
    buf.extend_from_slice(&[0, 1]); // address query type
    buf.extend_from_slice(&[0, 1]); // Internet class
    buf.extend_from_slice(&[0, 0, 0, 60]); // ttl
    buf.extend_from_slice(&data_length.to_be_bytes());
    buf.extend_from_slice(&[192, 0, 2, 1]); // the address bytes
    buf
}

#[test]
fn address_record_decodes() {
    let buf = address_record_bytes(4);
    let mut offset: usize = 0;
    let record = ResourceRecord::from_buffer(&buf, &mut offset).unwrap();
    assert_eq!(record.name, "a");
    assert_eq!(record.query_type, QueryType::A);
    assert_eq!(record.ttl, 60);
    assert_eq!(record.data_length, 4);
    assert_eq!(record.record_data, RecordData::A(0xC0000201));
    assert_eq!(offset, buf.len());
}

#[test]
fn address_record_wrong_length_is_malformed() {
    let buf = address_record_bytes(5);
    let mut offset: usize = 0;
    assert!(matches!(
        ResourceRecord::from_buffer(&buf, &mut offset),
        Err(DnsError::MalformedInput)
    ));
    let buf3 = address_record_bytes(3);
    let mut offset3: usize = 0;
    assert!(matches!(
        ResourceRecord::from_buffer(&buf3, &mut offset3),
        Err(DnsError::MalformedInput)
    ));
}

fn mx_record_bytes(data_length: u16) -> Vec<u8> {
    let mut buf: Vec<u8> = vec![1, b'a', 0]; // name "a"
    buf.extend_from_slice(&[0, 15]); // mail-exchange query type
    buf.extend_from_slice(&[0, 1]); // Internet class
    buf.extend_from_slice(&[0, 0, 0, 60]); // ttl
    buf.extend_from_slice(&data_length.to_be_bytes());
    buf.extend_from_slice(&[0, 10]); // preference
    buf.extend_from_slice(&[2, b'm', b'x', 0]); // exchange name "mx"
    buf
}

#[test]
fn mx_record_decodes_when_length_agrees() {
    // preference (2 bytes) + "mx" encoded (4 bytes) = 6 bytes of payload.
    let buf = mx_record_bytes(6);
    let mut offset: usize = 0;
    let record = ResourceRecord::from_buffer(&buf, &mut offset).unwrap();
    assert_eq!(record.query_type, QueryType::MX);
    assert_eq!(record.data_length, 6);
    assert_eq!(
        record.record_data,
        RecordData::MX {
            preference: 10,
            exchange_name: String::from("mx"),
        }
    );
    assert_eq!(offset, buf.len());
}

#[test]
fn mx_record_length_mismatch_is_malformed() {
    for wrong in [5u16, 7u16] {
        let buf = mx_record_bytes(wrong);
        let mut offset: usize = 0;
        assert!(matches!(
            ResourceRecord::from_buffer(&buf, &mut offset),
            Err(DnsError::MalformedInput)
        ));
    }
}

#[test]
fn mx_record_pointer_counts_as_two_bytes() {
    // A standalone name "x" at offset 0; the record's exchange name is a
    // pointer to it, so the payload is preference + pointer = 4 bytes.
    let mut buf: Vec<u8> = vec![1, b'x', 0];
    let record_start = buf.len();
    buf.extend_from_slice(&[0]); // record name: the root, a lone terminator
    buf.extend_from_slice(&[0, 15]);
    buf.extend_from_slice(&[0, 1]);
    buf.extend_from_slice(&[0, 0, 0, 60]);
    buf.extend_from_slice(&[0, 4]); // payload: 2 preference + 2 pointer
    buf.extend_from_slice(&[0, 10]);
    buf.extend_from_slice(&[0xC0, 0x00]);
    let mut offset = record_start;
    let record = ResourceRecord::from_buffer(&buf, &mut offset).unwrap();
    assert_eq!(
        record.record_data,
        RecordData::MX {
            preference: 10,
            exchange_name: String::from("x"),
        }
    );
    assert_eq!(offset, buf.len());
}

#[test]
fn unrecognized_record_type_is_unsupported() {
    let mut buf: Vec<u8> = vec![1, b'a', 0];
    buf.extend_from_slice(&[0, 2]); // a name-server record: outside scope
    buf.extend_from_slice(&[0, 1]);
    buf.extend_from_slice(&[0, 0, 0, 60]);
    buf.extend_from_slice(&[0, 4]);
    buf.extend_from_slice(&[1, 2, 3, 4]);
    let mut offset: usize = 0;
    assert!(matches!(
        ResourceRecord::from_buffer(&buf, &mut offset),
        Err(DnsError::UnsupportedFeature)
    ));
}

#[test]
fn response_with_answer_round_trips() {
    // A response carrying the original question and one address answer
    // whose name is a pointer back to the question's name.
    let query = DnsPacket::new_query(3, "example.com", RecordType::A);
    let mut buf = query.to_buffer();
    buf[2] = 0x80; // a response now
    buf[7] = 1; // one answer
    buf.extend_from_slice(&[0xC0, 0x0C]); // answer name: pointer to offset 12
    buf.extend_from_slice(&[0, 1]);
    buf.extend_from_slice(&[0, 1]);
    buf.extend_from_slice(&[0, 0, 1, 0]);
    buf.extend_from_slice(&[0, 4]);
    buf.extend_from_slice(&[93, 184, 216, 34]);
    let decoded = DnsPacket::from_buffer(&buf).unwrap();
    assert_eq!(decoded.query_or_response, QueryOrResponse::Response);
    assert_eq!(decoded.questions.len(), 1);
    assert_eq!(decoded.answers.len(), 1);
    assert_eq!(decoded.answers[0].name, "example.com");
    assert_eq!(decoded.answers[0].ttl, 256);
    assert_eq!(
        decoded.answers[0].record_data,
        RecordData::A(u32::from_be_bytes([93, 184, 216, 34]))
    );
}

#[test]
fn question_count_beyond_bytes_is_malformed() {
    let query = DnsPacket::new_query(5, "example.com", RecordType::A);
    let mut buf = query.to_buffer();
    buf[5] = 2; // claim a second question that is not there
    assert!(matches!(
        DnsPacket::from_buffer(&buf),
        Err(DnsError::MalformedInput)
    ));
}

#[test]
fn new_query_fields() {
    let query = DnsPacket::new_query(42, "example.com", RecordType::MX);
    assert_eq!(query.id, 42);
    assert_eq!(query.query_or_response, QueryOrResponse::Query);
    assert_eq!(query.opcode, Opcode::StandardQuery);
    assert!(!query.authoritative_answer);
    assert!(!query.truncated);
    assert!(query.recursion_desired);
    assert!(!query.recursion_available);
    assert_eq!(query.response_code, ResponseCode::NoError);
    assert_eq!(query.questions.len(), 1);
    assert_eq!(query.questions[0].query_type, QueryType::MX);
    assert_eq!(query.answers.len(), 0);
}
