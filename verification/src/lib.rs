//! A verified codec for DNS messages on the wire: building a query message
//! for a domain name and record type, and parsing a received message
//! (header, questions, answer records), including the name-compression
//! scheme. Choosing servers, sockets and retries are a caller's business:
//! the codec is a pure function from byte buffers to values and back.

use vstd::prelude::*;

pub mod errors;
pub mod parse_name;
pub mod question;
pub mod record;

pub use errors::DnsError;
pub use parse_name::parse_name;
pub use parse_name::spec_parse_name;
pub use parse_name::MAX_POINTER_JUMPS;
pub use parse_name::first_dot;
pub use parse_name::is_valid_name;
pub use parse_name::lemma_label_overrun_is_malformed;
pub use parse_name::lemma_parse_encoded_name;
pub use parse_name::lemma_parse_name_end_bounds;
pub use parse_name::spec_encode_name;
pub use parse_name::valid_dns_name;
pub use parse_name::valid_label;
pub use question::Question;
pub use question::QuestionModel;
pub use question::spec_encode_question;
pub use question::lemma_parse_encoded_question;
pub use question::lemma_question_unknown_type_code;
pub use question::spec_parse_question;
pub use record::RecordData;
pub use record::RecordDataModel;
pub use record::RecordModel;
pub use record::ResourceRecord;
pub use record::spec_parse_record;
pub use record::lemma_address_record_length_mismatch;
pub use record::lemma_mx_record_length_mismatch;
pub use record::spec_parse_record_data;

verus! {

/// Whether a message is a query or a response: the top bit of the first
/// flag byte.
#[derive(Clone, Copy, Debug, PartialEq, Eq, Structural)]
pub enum QueryOrResponse {
    Query,
    Response,
}

/// The kind of request a message carries: bits 3 to 6 of the first flag byte.
#[derive(Clone, Copy, Debug, PartialEq, Eq, Structural)]
pub enum Opcode {
    StandardQuery,
    InverseQuery,
    ServerStatusRequest,
}

/// The responder's result code: the low four bits of the second flag byte.
#[derive(Clone, Copy, Debug, PartialEq, Eq, Structural)]
pub enum ResponseCode {
    NoError,
    FormatError,
    ServerFailure,
    NameError,
    NotImplemented,
    Refused,
}

/// The record types a query can ask for.
#[derive(Clone, Copy, Debug, PartialEq, Eq, Structural)]
pub enum RecordType {
    A,
    MX,
}

/// A query type as it appears on the wire: 1 for a host address,
/// 15 for a mail exchange.
#[derive(Clone, Copy, Debug, PartialEq, Eq, Structural)]
pub enum QueryType {
    A,
    MX,
}

/// A query class as it appears on the wire: only 1, the Internet class,
/// is representable.
#[derive(Clone, Copy, Debug, PartialEq, Eq, Structural)]
pub enum QueryClass {
    IN,
}

/// The value of two bytes read big-endian.
pub open spec fn spec_be16(hi: u8, lo: u8) -> u16 {
    (hi * 256 + lo) as u16
}

/// The big-endian bytes of a 16-bit value.
pub open spec fn spec_be16_bytes(v: u16) -> Seq<u8> {
    seq![(v / 256) as u8, (v % 256) as u8]
}

/// The value of four bytes read big-endian.
pub open spec fn spec_be32(b0: u8, b1: u8, b2: u8, b3: u8) -> u32 {
    (b0 * 0x1000000 + b1 * 0x10000 + b2 * 256 + b3) as u32
}

/// Writing a 16-bit value big-endian and reading it back is the identity.
pub proof fn lemma_be16_round_trip(v: u16)
    ensures
        spec_be16(spec_be16_bytes(v)[0], spec_be16_bytes(v)[1]) == v,
{
    assert(v / 256 <= 255);
    assert((v / 256) * 256 + v % 256 == v);
}

/// Reads the big-endian 16-bit value at `i`.
pub(crate) fn read_u16(buf: &[u8], i: usize) -> (r: u16)
    requires
        i + 2 <= buf@.len(),
    ensures
        r == spec_be16(buf@[i as int], buf@[i as int + 1]),
{
    let n = buf.len();
    let hi = *vstd::slice::slice_index_get(buf, i);
    let lo = *vstd::slice::slice_index_get(buf, i + 1);
    (hi as u16) * 256 + (lo as u16)
}

/// Reads the big-endian 32-bit value at `i`.
pub(crate) fn read_u32(buf: &[u8], i: usize) -> (r: u32)
    requires
        i + 4 <= buf@.len(),
    ensures
        r == spec_be32(buf@[i as int], buf@[i as int + 1], buf@[i as int + 2], buf@[i as int + 3]),
{
    let n = buf.len();
    let b0 = *vstd::slice::slice_index_get(buf, i);
    let b1 = *vstd::slice::slice_index_get(buf, i + 1);
    let b2 = *vstd::slice::slice_index_get(buf, i + 2);
    let b3 = *vstd::slice::slice_index_get(buf, i + 3);
    (b0 as u32) * 0x1000000 + (b1 as u32) * 0x10000 + (b2 as u32) * 256 + (b3 as u32)
}

/// Appends the big-endian bytes of `v`.
pub(crate) fn push_u16(buffer: &mut Vec<u8>, v: u16)
    ensures
        final(buffer)@ == old(buffer)@ + spec_be16_bytes(v),
{
    buffer.push((v / 256) as u8);
    buffer.push((v % 256) as u8);
    proof {
        assert(buffer@ =~= old(buffer)@ + spec_be16_bytes(v));
    }
}

/// The query type a query for a given record type carries.
pub open spec fn spec_query_type_for(record_type: RecordType) -> QueryType {
    match record_type {
        RecordType::A => QueryType::A,
        RecordType::MX => QueryType::MX,
    }
}

/// The numeric code a query type carries on the wire.
pub open spec fn spec_query_type_code(t: QueryType) -> u16 {
    match t {
        QueryType::A => 1,
        QueryType::MX => 15,
    }
}

/// The query type a numeric code names, if it is in the recognized set.
pub open spec fn spec_query_type_of(value: u16) -> Option<QueryType> {
    if value == 1 {
        Some(QueryType::A)
    } else if value == 15 {
        Some(QueryType::MX)
    } else {
        None
    }
}

/// The numeric code a query class carries on the wire.
pub open spec fn spec_query_class_code(c: QueryClass) -> u16 {
    match c {
        QueryClass::IN => 1,
    }
}

/// The query class a numeric code names, if it is in the recognized set.
pub open spec fn spec_query_class_of(value: u16) -> Option<QueryClass> {
    if value == 1 {
        Some(QueryClass::IN)
    } else {
        None
    }
}

/// 1 for true, 0 for false: the value of one header flag bit.
pub open spec fn spec_bit(b: bool) -> u8 {
    if b {
        1
    } else {
        0
    }
}

/// The query-or-response bit's value.
pub open spec fn spec_qr_bit(q: QueryOrResponse) -> u8 {
    match q {
        QueryOrResponse::Query => 0,
        QueryOrResponse::Response => 1,
    }
}

/// The numeric code an opcode carries on the wire.
pub open spec fn spec_opcode_code(o: Opcode) -> u8 {
    match o {
        Opcode::StandardQuery => 0,
        Opcode::InverseQuery => 1,
        Opcode::ServerStatusRequest => 2,
    }
}

/// The opcode a numeric code names, if it is in the recognized set.
pub open spec fn spec_opcode_of(value: u8) -> Option<Opcode> {
    if value == 0 {
        Some(Opcode::StandardQuery)
    } else if value == 1 {
        Some(Opcode::InverseQuery)
    } else if value == 2 {
        Some(Opcode::ServerStatusRequest)
    } else {
        None
    }
}

/// The numeric code a response code carries on the wire.
pub open spec fn spec_response_code_code(c: ResponseCode) -> u8 {
    match c {
        ResponseCode::NoError => 0,
        ResponseCode::FormatError => 1,
        ResponseCode::ServerFailure => 2,
        ResponseCode::NameError => 3,
        ResponseCode::NotImplemented => 4,
        ResponseCode::Refused => 5,
    }
}

/// The response code a numeric value names, if it is in the recognized set.
pub open spec fn spec_response_code_of(value: u8) -> Option<ResponseCode> {
    if value == 0 {
        Some(ResponseCode::NoError)
    } else if value == 1 {
        Some(ResponseCode::FormatError)
    } else if value == 2 {
        Some(ResponseCode::ServerFailure)
    } else if value == 3 {
        Some(ResponseCode::NameError)
    } else if value == 4 {
        Some(ResponseCode::NotImplemented)
    } else if value == 5 {
        Some(ResponseCode::Refused)
    } else {
        None
    }
}

impl QueryType {
    pub fn to_u16(&self) -> (r: u16)
        ensures
            r == spec_query_type_code(*self),
    {
        match self {
            QueryType::A => 1,
            QueryType::MX => 15,
        }
    }

    /// Maps a wire code to a query type; a code outside the recognized set
    /// is an unknown-code error, never a silently substituted default.
    pub fn from_u16(value: u16) -> (r: Result<QueryType, DnsError>)
        ensures
            match spec_query_type_of(value) {
                Some(t) => r == Ok::<QueryType, DnsError>(t),
                None => r == Err::<QueryType, DnsError>(DnsError::UnknownCode),
            },
    {
        match value {
            1 => Ok(QueryType::A),
            15 => Ok(QueryType::MX),
            _ => Err(DnsError::UnknownCode),
        }
    }
}

impl QueryClass {
    pub fn to_u16(&self) -> (r: u16)
        ensures
            r == spec_query_class_code(*self),
    {
        match self {
            QueryClass::IN => 1,
        }
    }

    /// Maps a wire code to a query class; a code outside the recognized set
    /// is an unknown-code error.
    pub fn from_u16(value: u16) -> (r: Result<QueryClass, DnsError>)
        ensures
            match spec_query_class_of(value) {
                Some(c) => r == Ok::<QueryClass, DnsError>(c),
                None => r == Err::<QueryClass, DnsError>(DnsError::UnknownCode),
            },
    {
        match value {
            1 => Ok(QueryClass::IN),
            _ => Err(DnsError::UnknownCode),
        }
    }
}

/// The mathematical value of a whole message.
#[verifier::ext_equal]
pub ghost struct PacketModel {
    pub id: u16,
    pub query_or_response: QueryOrResponse,
    pub opcode: Opcode,
    pub authoritative_answer: bool,
    pub truncated: bool,
    pub recursion_desired: bool,
    pub recursion_available: bool,
    pub response_code: ResponseCode,
    pub questions: Seq<QuestionModel>,
    pub answers: Seq<RecordModel>,
}

/// A DNS message: the header fields, the question section and the answer
/// section. The name-server and additional-record sections are out of this
/// codec's scope and always written as empty.
#[derive(Debug)]
pub struct DnsPacket {
    pub id: u16,
    pub query_or_response: QueryOrResponse,
    pub opcode: Opcode,
    pub authoritative_answer: bool,
    pub truncated: bool,
    pub recursion_desired: bool,
    pub recursion_available: bool,
    pub response_code: ResponseCode,
    pub questions: Vec<Question>,
    pub answers: Vec<ResourceRecord>,
}

/// The models of a sequence of questions, in order.
pub open spec fn seq_question_views(s: Seq<Question>) -> Seq<QuestionModel> {
    s.map_values(|q: Question| q@)
}

/// The models of a sequence of answer records, in order.
pub open spec fn seq_record_views(s: Seq<ResourceRecord>) -> Seq<RecordModel> {
    s.map_values(|r: ResourceRecord| r@)
}

impl View for DnsPacket {
    type V = PacketModel;

    open spec fn view(&self) -> PacketModel {
        PacketModel {
            id: self.id,
            query_or_response: self.query_or_response,
            opcode: self.opcode,
            authoritative_answer: self.authoritative_answer,
            truncated: self.truncated,
            recursion_desired: self.recursion_desired,
            recursion_available: self.recursion_available,
            response_code: self.response_code,
            questions: seq_question_views(self.questions@),
            answers: seq_record_views(self.answers@),
        }
    }
}

/// The first flag byte: query-or-response bit, opcode, authoritative,
/// truncated and recursion-desired bits.
pub open spec fn spec_flag_byte1(m: PacketModel) -> u8 {
    spec_qr_bit(m.query_or_response) << 7 | spec_opcode_code(m.opcode) << 3 | spec_bit(
        m.authoritative_answer,
    ) << 2 | spec_bit(m.truncated) << 1 | spec_bit(m.recursion_desired)
}

/// The second flag byte: recursion-available bit and response code.
pub open spec fn spec_flag_byte2(m: PacketModel) -> u8 {
    spec_bit(m.recursion_available) << 7 | spec_response_code_code(m.response_code)
}

/// The wire bytes of each question in order, concatenated.
pub open spec fn spec_encode_questions(qs: Seq<QuestionModel>) -> Seq<u8>
    decreases qs.len(),
{
    if qs.len() == 0 {
        Seq::empty()
    } else {
        spec_encode_question(qs[0]) + spec_encode_questions(qs.drop_first())
    }
}

/// The wire bytes of a whole message: the 12-byte header — id, the two
/// flag bytes, question count, answer count, and the two always-zero
/// counts of the sections out of scope — then each question in order.
/// Answers are never encoded: this codec only ever sends queries.
pub open spec fn spec_encode_packet(m: PacketModel) -> Seq<u8> {
    spec_be16_bytes(m.id) + seq![spec_flag_byte1(m), spec_flag_byte2(m)] + spec_be16_bytes(
        m.questions.len() as u16,
    ) + spec_be16_bytes(m.answers.len() as u16) + spec_be16_bytes(0) + spec_be16_bytes(0)
        + spec_encode_questions(m.questions)
}

/// What decoding `count` questions one after another from `offset` yields:
/// the questions and the offset just past them, or the first error.
pub open spec fn spec_parse_questions(buf: Seq<u8>, offset: int, count: int) -> Result<
    (Seq<QuestionModel>, int),
    DnsError,
>
    decreases count,
{
    if count <= 0 {
        Ok((Seq::empty(), offset))
    } else {
        match spec_parse_question(buf, offset) {
            Err(e) => Err(e),
            Ok(first) => match spec_parse_questions(buf, first.1, count - 1) {
                Err(e) => Err(e),
                Ok(rest) => Ok((seq![first.0] + rest.0, rest.1)),
            },
        }
    }
}

/// What decoding `count` answer records one after another from `offset`
/// yields: the records and the offset just past them, or the first error.
pub open spec fn spec_parse_records(buf: Seq<u8>, offset: int, count: int) -> Result<
    (Seq<RecordModel>, int),
    DnsError,
>
    decreases count,
{
    if count <= 0 {
        Ok((Seq::empty(), offset))
    } else {
        match spec_parse_record(buf, offset) {
            Err(e) => Err(e),
            Ok(first) => match spec_parse_records(buf, first.1, count - 1) {
                Err(e) => Err(e),
                Ok(rest) => Ok((seq![first.0] + rest.0, rest.1)),
            },
        }
    }
}

/// What decoding a whole message yields: the 12-byte header field by
/// field, then as many questions and answer records as the header
/// declares, read through one shared cursor; bytes beyond what the
/// declared counts consume are ignored. An opcode or response-code value
/// outside the recognized set is an unknown-code error.
pub open spec fn spec_parse_packet(buf: Seq<u8>) -> Result<PacketModel, DnsError> {
    if buf.len() < 12 {
        Err(DnsError::MalformedInput)
    } else {
        let b2 = buf[2];
        let b3 = buf[3];
        match spec_opcode_of((b2 >> 3) & 0x0F) {
            None => Err(DnsError::UnknownCode),
            Some(opcode) => match spec_response_code_of(b3 & 0x0F) {
                None => Err(DnsError::UnknownCode),
                Some(response_code) => {
                    let question_count = spec_be16(buf[4], buf[5]);
                    let answer_count = spec_be16(buf[6], buf[7]);
                    match spec_parse_questions(buf, 12, question_count as int) {
                        Err(e) => Err(e),
                        Ok(questions) => match spec_parse_records(
                            buf,
                            questions.1,
                            answer_count as int,
                        ) {
                            Err(e) => Err(e),
                            Ok(answers) => Ok(
                                PacketModel {
                                    id: spec_be16(buf[0], buf[1]),
                                    query_or_response: if b2 >> 7 == 1 {
                                        QueryOrResponse::Response
                                    } else {
                                        QueryOrResponse::Query
                                    },
                                    opcode,
                                    authoritative_answer: (b2 >> 2) & 1 == 1,
                                    truncated: (b2 >> 1) & 1 == 1,
                                    recursion_desired: b2 & 1 == 1,
                                    recursion_available: (b3 >> 7) & 1 == 1,
                                    response_code,
                                    questions: questions.0,
                                    answers: answers.0,
                                },
                            ),
                        },
                    }
                },
            },
        }
    }
}

/// The message `new_query` builds: a standard query with recursion
/// desired, one question in the Internet class, and no answers.
pub open spec fn spec_new_query(
    packet_id: u16,
    domain_name: Seq<char>,
    record_type: RecordType,
) -> PacketModel {
    PacketModel {
        id: packet_id,
        query_or_response: QueryOrResponse::Query,
        opcode: Opcode::StandardQuery,
        authoritative_answer: false,
        truncated: false,
        recursion_desired: true,
        recursion_available: false,
        response_code: ResponseCode::NoError,
        questions: seq![
            QuestionModel {
                name: domain_name,
                query_type: spec_query_type_for(record_type),
                query_class: QueryClass::IN,
            },
        ],
        answers: Seq::empty(),
    }
}

/// The five fields packed into the first flag byte unpack to themselves:
/// serializing a header's first flag byte and reading its bits back
/// reproduces the query-or-response bit, the opcode and the three flag
/// bits exactly.
pub proof fn lemma_flag_byte1_round_trip(qr: u8, op: u8, aa: u8, tc: u8, rd: u8)
    by (bit_vector)
    requires
        qr <= 1,
        op <= 15,
        aa <= 1,
        tc <= 1,
        rd <= 1,
    ensures
        (qr << 7 | op << 3 | aa << 2 | tc << 1 | rd) >> 7 == qr,
        ((qr << 7 | op << 3 | aa << 2 | tc << 1 | rd) >> 3) & 0x0F == op,
        ((qr << 7 | op << 3 | aa << 2 | tc << 1 | rd) >> 2) & 1 == aa,
        ((qr << 7 | op << 3 | aa << 2 | tc << 1 | rd) >> 1) & 1 == tc,
        (qr << 7 | op << 3 | aa << 2 | tc << 1 | rd) & 1 == rd,
{
}

/// The two fields packed into the second flag byte unpack to themselves:
/// the recursion-available bit and the response code come back exactly.
pub proof fn lemma_flag_byte2_round_trip(ra: u8, rc: u8)
    by (bit_vector)
    requires
        ra <= 1,
        rc <= 15,
    ensures
        ((ra << 7 | rc) >> 7) & 1 == ra,
        (ra << 7 | rc) & 0x0F == rc,
{
}

/// Header round trip: for any message, reading the bits of its two
/// serialized flag bytes back reproduces all six header fields — the
/// query-or-response bit, opcode, authoritative, truncated,
/// recursion-desired and recursion-available bits, and the response code.
pub proof fn lemma_header_flags_round_trip(m: PacketModel)
    ensures
        spec_flag_byte1(m) >> 7 == spec_qr_bit(m.query_or_response),
        spec_opcode_of((spec_flag_byte1(m) >> 3) & 0x0F) == Some(m.opcode),
        (spec_flag_byte1(m) >> 2) & 1 == spec_bit(m.authoritative_answer),
        (spec_flag_byte1(m) >> 1) & 1 == spec_bit(m.truncated),
        spec_flag_byte1(m) & 1 == spec_bit(m.recursion_desired),
        (spec_flag_byte2(m) >> 7) & 1 == spec_bit(m.recursion_available),
        spec_response_code_of(spec_flag_byte2(m) & 0x0F) == Some(m.response_code),
{
    lemma_flag_byte1_round_trip(
        spec_qr_bit(m.query_or_response),
        spec_opcode_code(m.opcode),
        spec_bit(m.authoritative_answer),
        spec_bit(m.truncated),
        spec_bit(m.recursion_desired),
    );
    lemma_flag_byte2_round_trip(
        spec_bit(m.recursion_available),
        spec_response_code_code(m.response_code),
    );
}

/// One more question at the end of a prefix extends its encoding by that
/// question's bytes.
pub proof fn lemma_encode_questions_snoc(qs: Seq<QuestionModel>, i: int)
    requires
        0 <= i < qs.len(),
    ensures
        spec_encode_questions(qs.take(i + 1)) == spec_encode_questions(qs.take(i))
            + spec_encode_question(qs[i]),
    decreases i,
{
    if i == 0 {
        assert(qs.take(1).drop_first() =~= qs.take(0));
        assert(qs.take(0).len() == 0);
        assert(qs.take(1).len() == 1 && qs.take(1)[0] == qs[0]);
        assert(spec_encode_questions(qs.take(1)) == spec_encode_question(qs[0])
            + spec_encode_questions(qs.take(0)));
        assert(spec_encode_questions(qs.take(1)) =~= spec_encode_question(qs[0]));
        assert(spec_encode_questions(qs.take(0)) + spec_encode_question(qs[0])
            =~= spec_encode_question(qs[0]));
    } else {
        lemma_encode_questions_snoc(qs.drop_first(), i - 1);
        assert(qs.take(i + 1).drop_first() =~= qs.drop_first().take(i));
        assert(qs.take(i).drop_first() =~= qs.drop_first().take(i - 1));
        assert(qs.take(i + 1)[0] == qs[0] && qs.take(i)[0] == qs[0]);
        assert(qs.drop_first()[i - 1] == qs[i]);
        assert(spec_encode_questions(qs.take(i + 1)) == spec_encode_question(qs[0])
            + spec_encode_questions(qs.drop_first().take(i)));
        assert(spec_encode_question(qs[0]) + (spec_encode_questions(qs.drop_first().take(i - 1))
            + spec_encode_question(qs[i])) =~= (spec_encode_question(qs[0])
            + spec_encode_questions(qs.drop_first().take(i - 1))) + spec_encode_question(qs[i]));
    }
}

impl DnsPacket {
    /// A message is well formed for encoding when each question's name can
    /// stand on the wire and both section lengths fit their 16-bit header
    /// counts.
    pub open spec fn wf(&self) -> bool {
        &&& self.questions@.len() <= 0xFFFF
        &&& self.answers@.len() <= 0xFFFF
        &&& forall|i: int|
            0 <= i < self.questions@.len() ==> (#[trigger] self.questions@[i]).wf()
    }

    /// A fresh query for `domain_name` and `record_type`: not a response,
    /// a standard query with recursion desired, every other flag clear,
    /// one question and no answers.
    pub fn new_query(packet_id: u16, domain_name: &str, record_type: RecordType) -> (r: DnsPacket)
        ensures
            r@ == spec_new_query(packet_id, domain_name@, record_type),
            valid_dns_name(domain_name@) ==> r.wf(),
    {
        let mut questions: Vec<Question> = Vec::new();
        questions.push(Question::new(domain_name, record_type));
        let packet = DnsPacket {
            id: packet_id,
            query_or_response: QueryOrResponse::Query,
            opcode: Opcode::StandardQuery,
            authoritative_answer: false,
            truncated: false,
            recursion_desired: true,
            recursion_available: false,
            response_code: ResponseCode::NoError,
            questions,
            answers: Vec::new(),
        };
        proof {
            assert(seq_question_views(packet.questions@) =~= spec_new_query(
                packet_id,
                domain_name@,
                record_type,
            ).questions);
            assert(seq_record_views(packet.answers@) =~= Seq::<RecordModel>::empty());
            assert(packet@ =~= spec_new_query(packet_id, domain_name@, record_type));
        }
        packet
    }

    /// Encodes this message for the wire: the 12-byte header, then each
    /// question in list order, names written in full without compression.
    /// Answers are never encoded: this codec only ever sends queries.
    pub fn to_buffer(&self) -> (r: Vec<u8>)
        requires
            self.wf(),
        ensures
            r@ == spec_encode_packet(self@),
    {
        let mut buffer: Vec<u8> = Vec::new();
        push_u16(&mut buffer, self.id);
        let query_or_response_bit: u8 = match self.query_or_response {
            QueryOrResponse::Query => 0,
            QueryOrResponse::Response => 1,
        };
        let opcode_code: u8 = match self.opcode {
            Opcode::StandardQuery => 0,
            Opcode::InverseQuery => 1,
            Opcode::ServerStatusRequest => 2,
        };
        let authoritative_bit: u8 = if self.authoritative_answer {
            1
        } else {
            0
        };
        let truncated_bit: u8 = if self.truncated {
            1
        } else {
            0
        };
        let recursion_desired_bit: u8 = if self.recursion_desired {
            1
        } else {
            0
        };
        let recursion_available_bit: u8 = if self.recursion_available {
            1
        } else {
            0
        };
        let response_code_code: u8 = match self.response_code {
            ResponseCode::NoError => 0,
            ResponseCode::FormatError => 1,
            ResponseCode::ServerFailure => 2,
            ResponseCode::NameError => 3,
            ResponseCode::NotImplemented => 4,
            ResponseCode::Refused => 5,
        };
        buffer.push(
            query_or_response_bit << 7 | opcode_code << 3 | authoritative_bit << 2 | truncated_bit
                << 1 | recursion_desired_bit,
        );
        buffer.push(recursion_available_bit << 7 | response_code_code);
        push_u16(&mut buffer, self.questions.len() as u16);
        push_u16(&mut buffer, self.answers.len() as u16);
        push_u16(&mut buffer, 0);
        push_u16(&mut buffer, 0);
        let ghost header = buffer@;
        let ghost question_views = seq_question_views(self.questions@);
        proof {
            assert(spec_encode_questions(question_views.take(0)).len() == 0);
            assert(buffer@ =~= header + spec_encode_questions(question_views.take(0)));
        }
        let mut idx: usize = 0;
        while idx < self.questions.len()
            invariant
                self.wf(),
                idx <= self.questions@.len(),
                header == spec_encode_packet(self@).take(12),
                question_views == seq_question_views(self.questions@),
                buffer@ == header + spec_encode_questions(question_views.take(idx as int)),
            decreases self.questions@.len() - idx,
        {
            let question = &self.questions[idx];
            question.extend_to_buffer(&mut buffer);
            proof {
                lemma_encode_questions_snoc(question_views, idx as int);
                assert(question_views[idx as int] == question@);
            }
            idx += 1;
        }
        proof {
            assert(question_views.take(self.questions@.len() as int) =~= question_views);
            assert(header + spec_encode_questions(question_views) =~= spec_encode_packet(self@));
        }
        buffer
    }

    /// Decodes a received message: the 12-byte header field by field, then
    /// as many questions and answer records as the header declares, read
    /// through one shared cursor. Bytes beyond what the declared counts
    /// consume are ignored; any failure aborts the decode with an error,
    /// never a silently substituted default.
    #[verifier::loop_isolation(false)]
    pub fn from_buffer(packet_buffer: &[u8]) -> (r: Result<DnsPacket, DnsError>)
        ensures
            match spec_parse_packet(packet_buffer@) {
                Ok(m) => r matches Ok(p) && p@ == m,
                Err(e) => r == Err::<DnsPacket, DnsError>(e),
            },
    {
        let len = packet_buffer.len();
        if len < 12 {
            return Err(DnsError::MalformedInput);
        }
        let id = read_u16(packet_buffer, 0);
        let b2 = *vstd::slice::slice_index_get(packet_buffer, 2);
        let b3 = *vstd::slice::slice_index_get(packet_buffer, 3);
        let query_or_response = if b2 >> 7 == 1 {
            QueryOrResponse::Response
        } else {
            QueryOrResponse::Query
        };
        let opcode = match (b2 >> 3) & 0x0F {
            0 => Opcode::StandardQuery,
            1 => Opcode::InverseQuery,
            2 => Opcode::ServerStatusRequest,
            _ => {
                return Err(DnsError::UnknownCode);
            },
        };
        let authoritative_answer = (b2 >> 2) & 1 == 1;
        let truncated = (b2 >> 1) & 1 == 1;
        let recursion_desired = b2 & 1 == 1;
        let recursion_available = (b3 >> 7) & 1 == 1;
        let response_code = match b3 & 0x0F {
            0 => ResponseCode::NoError,
            1 => ResponseCode::FormatError,
            2 => ResponseCode::ServerFailure,
            3 => ResponseCode::NameError,
            4 => ResponseCode::NotImplemented,
            5 => ResponseCode::Refused,
            _ => {
                return Err(DnsError::UnknownCode);
            },
        };
        let question_count = read_u16(packet_buffer, 4);
        let answer_count = read_u16(packet_buffer, 6);
        let mut offset: usize = 12;

        let mut questions: Vec<Question> = Vec::new();
        proof {
            assert(seq_question_views(questions@) + Seq::<QuestionModel>::empty()
                =~= seq_question_views(questions@));
        }
        let mut parsed_questions: u16 = 0;
        while parsed_questions < question_count
            invariant
                parsed_questions <= question_count,
                questions@.len() == parsed_questions as int,
                match spec_parse_questions(packet_buffer@, 12, question_count as int) {
                    Ok(all) => spec_parse_questions(
                        packet_buffer@,
                        offset as int,
                        question_count - parsed_questions,
                    ) matches Ok(rest) && all.0 == seq_question_views(questions@) + rest.0 && all.1
                        == rest.1,
                    Err(e) => spec_parse_questions(
                        packet_buffer@,
                        offset as int,
                        question_count - parsed_questions,
                    ) == Err::<(Seq<QuestionModel>, int), DnsError>(e),
                },
            decreases question_count - parsed_questions,
        {
            let ghost offset_before: int = offset as int;
            let ghost remaining: int = question_count - parsed_questions;
            let question = match Question::from_buffer(packet_buffer, &mut offset) {
                Ok(question) => question,
                Err(e) => {
                    proof {
                        assert(spec_parse_questions(packet_buffer@, offset_before, remaining)
                            == Err::<(Seq<QuestionModel>, int), DnsError>(e));
                        assert(spec_parse_questions(packet_buffer@, 12, question_count as int)
                            == Err::<(Seq<QuestionModel>, int), DnsError>(e));
                        assert(spec_parse_packet(packet_buffer@) == Err::<PacketModel, DnsError>(
                            e,
                        ));
                    }
                    return Err(e);
                },
            };
            questions.push(question);
            parsed_questions += 1;
            proof {
                let done = seq_question_views(questions@);
                assert(done =~= seq_question_views(questions@.drop_last()) + seq![question@]);
                if let Ok(rest) = spec_parse_questions(
                    packet_buffer@,
                    offset as int,
                    question_count - parsed_questions,
                ) {
                    assert((seq_question_views(questions@.drop_last()) + seq![question@]) + rest.0
                        =~= seq_question_views(questions@.drop_last()) + (seq![question@]
                        + rest.0));
                }
            }
        }
        proof {
            assert(spec_parse_questions(packet_buffer@, offset as int, 0) == Ok::<
                (Seq<QuestionModel>, int),
                DnsError,
            >((Seq::empty(), offset as int)));
            if let Ok(all) = spec_parse_questions(packet_buffer@, 12, question_count as int) {
                assert(seq_question_views(questions@) + Seq::<QuestionModel>::empty()
                    =~= seq_question_views(questions@));
            }
        }

        let mut answers: Vec<ResourceRecord> = Vec::new();
        let mut parsed_answers: u16 = 0;
        let ghost answers_start: int = offset as int;
        while parsed_answers < answer_count
            invariant
                parsed_answers <= answer_count,
                answers@.len() == parsed_answers as int,
                match spec_parse_records(packet_buffer@, answers_start, answer_count as int) {
                    Ok(all) => spec_parse_records(
                        packet_buffer@,
                        offset as int,
                        answer_count - parsed_answers,
                    ) matches Ok(rest) && all.0 == seq_record_views(answers@) + rest.0 && all.1
                        == rest.1,
                    Err(e) => spec_parse_records(
                        packet_buffer@,
                        offset as int,
                        answer_count - parsed_answers,
                    ) == Err::<(Seq<RecordModel>, int), DnsError>(e),
                },
            decreases answer_count - parsed_answers,
        {
            let ghost offset_before: int = offset as int;
            let ghost remaining: int = answer_count - parsed_answers;
            let answer = match ResourceRecord::from_buffer(packet_buffer, &mut offset) {
                Ok(answer) => answer,
                Err(e) => {
                    proof {
                        assert(spec_parse_records(packet_buffer@, offset_before, remaining)
                            == Err::<(Seq<RecordModel>, int), DnsError>(e));
                        assert(spec_parse_records(packet_buffer@, answers_start, answer_count as int)
                            == Err::<(Seq<RecordModel>, int), DnsError>(e));
                        assert(spec_parse_packet(packet_buffer@) == Err::<PacketModel, DnsError>(
                            e,
                        ));
                    }
                    return Err(e);
                },
            };
            answers.push(answer);
            parsed_answers += 1;
            proof {
                let done = seq_record_views(answers@);
                assert(done =~= seq_record_views(answers@.drop_last()) + seq![answer@]);
                if let Ok(rest) = spec_parse_records(
                    packet_buffer@,
                    offset as int,
                    answer_count - parsed_answers,
                ) {
                    assert((seq_record_views(answers@.drop_last()) + seq![answer@]) + rest.0
                        =~= seq_record_views(answers@.drop_last()) + (seq![answer@] + rest.0));
                }
            }
        }
        proof {
            assert(spec_parse_records(packet_buffer@, offset as int, 0) == Ok::<
                (Seq<RecordModel>, int),
                DnsError,
            >((Seq::empty(), offset as int)));
            assert(seq_record_views(answers@) + Seq::<RecordModel>::empty() =~= seq_record_views(
                answers@,
            ));
        }

        let packet = DnsPacket {
            id,
            query_or_response,
            opcode,
            authoritative_answer,
            truncated,
            recursion_desired,
            recursion_available,
            response_code,
            questions,
            answers,
        };
        proof {
            if let Ok(m) = spec_parse_packet(packet_buffer@) {
                assert(packet@ =~= m);
            }
        }
        Ok(packet)
    }
}

/// A decoded message holds exactly as many questions as the header
/// declares: the declared count and the list's length always agree.
pub proof fn lemma_parse_questions_count(buf: Seq<u8>, offset: int, count: int)
    requires
        count >= 0,
    ensures
        spec_parse_questions(buf, offset, count) matches Ok(qs) ==> qs.0.len() == count,
    decreases count,
{
    if count > 0 {
        if let Ok(first) = spec_parse_question(buf, offset) {
            lemma_parse_questions_count(buf, first.1, count - 1);
        }
    }
}

/// A decoded message holds exactly as many answer records as the header
/// declares: the declared count and the list's length always agree.
pub proof fn lemma_parse_records_count(buf: Seq<u8>, offset: int, count: int)
    requires
        count >= 0,
    ensures
        spec_parse_records(buf, offset, count) matches Ok(rs) ==> rs.0.len() == count,
    decreases count,
{
    if count > 0 {
        if let Ok(first) = spec_parse_record(buf, offset) {
            lemma_parse_records_count(buf, first.1, count - 1);
        }
    }
}

/// Round trip: any query `new_query` builds for a valid name decodes from
/// its own encoding back to the very same message, its question's name and
/// record type included.
#[verifier::rlimit(30)]
pub proof fn lemma_new_query_round_trip(
    packet_id: u16,
    domain_name: Seq<char>,
    record_type: RecordType,
)
    requires
        valid_dns_name(domain_name),
    ensures
        ({
            let m = spec_new_query(packet_id, domain_name, record_type);
            spec_parse_packet(spec_encode_packet(m)) == Ok::<PacketModel, DnsError>(m)
        }),
{
    let m = spec_new_query(packet_id, domain_name, record_type);
    let buf = spec_encode_packet(m);
    let qm = m.questions[0];
    let qenc = spec_encode_question(qm);
    let nenc = spec_encode_name(domain_name);
    let nlen = nenc.len() as int;

    assert(m.questions.len() == 1 && m.questions[0] == qm);
    assert(m.questions.drop_first() =~= Seq::<QuestionModel>::empty());
    assert(spec_encode_questions(m.questions.drop_first()).len() == 0);
    assert(spec_encode_questions(m.questions) =~= qenc);
    assert(m.questions.len() as u16 == 1 && m.answers.len() as u16 == 0);
    assert(qenc.len() == nlen + 4);
    assert(buf.len() == 12 + nlen + 4);

    // The header bytes land at their places in the concatenation.
    let f1 = spec_flag_byte1(m);
    let f2 = spec_flag_byte2(m);
    assert(buf[0] == spec_be16_bytes(packet_id)[0] && buf[1] == spec_be16_bytes(packet_id)[1]);
    assert(buf[2] == f1 && buf[3] == f2);
    assert(buf[4] == spec_be16_bytes(1)[0] && buf[5] == spec_be16_bytes(1)[1]);
    assert(buf[6] == spec_be16_bytes(0)[0] && buf[7] == spec_be16_bytes(0)[1]);
    lemma_be16_round_trip(packet_id);
    assert(spec_be16(buf[4], buf[5]) == 1);
    assert(spec_be16(buf[6], buf[7]) == 0);

    // The flag bytes decode to the fields they were built from.
    assert(spec_qr_bit(m.query_or_response) == 0 && spec_opcode_code(m.opcode) == 0);
    assert(spec_bit(m.authoritative_answer) == 0 && spec_bit(m.truncated) == 0);
    assert(spec_bit(m.recursion_desired) == 1);
    assert(spec_bit(m.recursion_available) == 0 && spec_response_code_code(m.response_code) == 0);
    lemma_flag_byte1_round_trip(0, 0, 0, 0, 1);
    lemma_flag_byte2_round_trip(0, 0);
    assert(f1 >> 7 == 0 && (f1 >> 3) & 0x0F == 0 && (f1 >> 2) & 1 == 0 && (f1 >> 1) & 1 == 0 && f1
        & 1 == 1);
    assert((f2 >> 7) & 1 == 0 && f2 & 0x0F == 0);
    assert(spec_opcode_of((buf[2] >> 3) & 0x0F) == Some(Opcode::StandardQuery));
    assert(spec_response_code_of(buf[3] & 0x0F) == Some(ResponseCode::NoError));

    // The one question decodes from its own bytes.
    let p = 12 + nlen;
    assert(buf.subrange(12, 12 + qenc.len() as int) =~= qenc) by {
        assert forall|k: int| 0 <= k < qenc.len() implies buf[12 + k] == qenc[k] by {}
    }
    question::lemma_parse_encoded_question(buf, 12, qm);

    // One question, no answers, and the whole model comes back.
    if let Ok(first) = spec_parse_question(buf, 12) {
        assert(spec_parse_questions(buf, first.1, 0) == Ok::<(Seq<QuestionModel>, int), DnsError>(
            (Seq::empty(), first.1),
        ));
        assert(spec_parse_questions(buf, 12, 1) matches Ok(qs) && qs.0 =~= m.questions && qs.1 == p
            + 4);
        assert(spec_parse_records(buf, p + 4, 0) == Ok::<(Seq<RecordModel>, int), DnsError>(
            (Seq::empty(), p + 4),
        ));
    }
    if let Ok(parsed) = spec_parse_packet(buf) {
        assert(parsed =~= m);
    } else {
        assert(false);
    }
}

} // verus!
