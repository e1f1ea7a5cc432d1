use vstd::prelude::*;
use vstd::string::StringSliceAdditionalSpecFns;
use vstd::string::StrSliceExecFns;
use vstd::utf8::encode_utf8;

use crate::errors::DnsError;
use crate::parse_name::first_dot;
use crate::parse_name::lemma_first_dot_is;
use crate::parse_name::parse_name;
use crate::parse_name::spec_encode_name;
use crate::parse_name::spec_parse_name;
use crate::parse_name::valid_dns_name;
use crate::parse_name::valid_label;
use crate::parse_name::MAX_POINTER_JUMPS;
use crate::read_u16;
use crate::push_u16;
use crate::spec_be16;
use crate::spec_be16_bytes;
use crate::spec_query_class_code;
use crate::spec_query_class_of;
use crate::spec_query_type_code;
use crate::spec_query_type_for;
use crate::spec_query_type_of;
use crate::QueryClass;
use crate::QueryType;
use crate::RecordType;

verus! {

/// The mathematical value of a question, free of its representation.
#[verifier::ext_equal]
pub ghost struct QuestionModel {
    pub name: Seq<char>,
    pub query_type: QueryType,
    pub query_class: QueryClass,
}

/// One entry of a message's question section: a domain name, the query
/// type asked about, and the query class.
#[derive(Debug)]
pub struct Question {
    pub name: String,
    pub query_type: QueryType,
    pub query_class: QueryClass,
}

impl View for Question {
    type V = QuestionModel;

    open spec fn view(&self) -> QuestionModel {
        QuestionModel {
            name: self.name@,
            query_type: self.query_type,
            query_class: self.query_class,
        }
    }
}

/// The wire bytes of one question: the name as uncompressed labels, then
/// the query type's and the query class's big-endian codes.
pub open spec fn spec_encode_question(q: QuestionModel) -> Seq<u8> {
    spec_encode_name(q.name) + spec_be16_bytes(spec_query_type_code(q.query_type))
        + spec_be16_bytes(spec_query_class_code(q.query_class))
}

/// What decoding one question at `offset` in `buf` yields: the question and
/// the offset just past it, or the error that aborts the decode. After the
/// name come two bytes of query type, then two bytes of query class; a code
/// outside the recognized set is an unknown-code error.
pub open spec fn spec_parse_question(buf: Seq<u8>, offset: int) -> Result<
    (QuestionModel, int),
    DnsError,
> {
    match spec_parse_name(buf, offset, MAX_POINTER_JUMPS as nat) {
        None => Err(DnsError::MalformedInput),
        Some(parsed_name) => {
            let p = parsed_name.1;
            if p + 2 > buf.len() {
                Err(DnsError::MalformedInput)
            } else {
                match spec_query_type_of(spec_be16(buf[p], buf[p + 1])) {
                    None => Err(DnsError::UnknownCode),
                    Some(query_type) => {
                        if p + 4 > buf.len() {
                            Err(DnsError::MalformedInput)
                        } else {
                            match spec_query_class_of(spec_be16(buf[p + 2], buf[p + 3])) {
                                None => Err(DnsError::UnknownCode),
                                Some(query_class) => Ok(
                                    (
                                        QuestionModel {
                                            name: parsed_name.0,
                                            query_type,
                                            query_class,
                                        },
                                        p + 4,
                                    ),
                                ),
                            }
                        }
                    },
                }
            }
        },
    }
}

/// A question whose query-type code is outside the recognized set is
/// rejected as an unknown code, never as a silently substituted type.
pub proof fn lemma_question_unknown_type_code(buf: Seq<u8>, offset: int)
    requires
        spec_parse_name(buf, offset, MAX_POINTER_JUMPS as nat) matches Some(parsed_name)
            && parsed_name.1 + 2 <= buf.len() && spec_query_type_of(
            spec_be16(buf[parsed_name.1], buf[parsed_name.1 + 1]),
        ) is None,
    ensures
        spec_parse_question(buf, offset) == Err::<(QuestionModel, int), DnsError>(
            DnsError::UnknownCode,
        ),
{
}

/// Parsing reads an encoded question back exactly: wherever the encoding
/// of a question with a valid name sits in a buffer, decoding at its start
/// yields that question and stops right after its bytes.
pub proof fn lemma_parse_encoded_question(buf: Seq<u8>, offset: int, qm: QuestionModel)
    requires
        valid_dns_name(qm.name),
        0 <= offset,
        offset + spec_encode_question(qm).len() <= buf.len(),
        buf.subrange(offset, offset + spec_encode_question(qm).len() as int)
            == spec_encode_question(qm),
    ensures
        spec_parse_question(buf, offset) matches Ok(parsed) && parsed.0 == qm && parsed.1 == offset
            + spec_encode_question(qm).len(),
{
    let qenc = spec_encode_question(qm);
    let nenc = spec_encode_name(qm.name);
    let nlen = nenc.len() as int;
    assert(qenc.len() == nlen + 4);
    assert(buf.subrange(offset, offset + nlen) =~= nenc) by {
        assert forall|k: int| 0 <= k < nlen implies buf[offset + k] == nenc[k] by {
            assert(buf[offset + k] == qenc[k]);
        }
    }
    crate::parse_name::lemma_parse_encoded_name(buf, offset, qm.name, MAX_POINTER_JUMPS as nat);
    let p = offset + nlen;
    let type_code = spec_query_type_code(qm.query_type);
    let class_code = spec_query_class_code(qm.query_class);
    assert(buf[p] == qenc[nlen] && buf[p + 1] == qenc[nlen + 1] && buf[p + 2] == qenc[nlen + 2]
        && buf[p + 3] == qenc[nlen + 3]);
    assert(buf[p] == spec_be16_bytes(type_code)[0] && buf[p + 1] == spec_be16_bytes(type_code)[1]);
    assert(buf[p + 2] == spec_be16_bytes(class_code)[0] && buf[p + 3] == spec_be16_bytes(
        class_code,
    )[1]);
    crate::lemma_be16_round_trip(type_code);
    crate::lemma_be16_round_trip(class_code);
    assert(spec_query_type_of(type_code) == Some(qm.query_type));
    assert(spec_query_class_of(class_code) == Some(qm.query_class));
    assert(spec_parse_question(buf, offset) matches Ok(parsed) && parsed.0 =~= qm && parsed.1 == p
        + 4);
}

/// Appends the uncompressed wire encoding of a valid name: each label as a
/// length byte followed by its UTF-8 bytes, closed by a zero byte.
pub(crate) fn push_name_bytes(name: &str, buffer: &mut Vec<u8>)
    requires
        valid_dns_name(name@),
    ensures
        final(buffer)@ == old(buffer)@ + spec_encode_name(name@),
    decreases name@.len(),
{
    let n = name.unicode_len();
    let mut i: usize = 0;
    while i < n && name.get_char(i) != '.'
        invariant
            i <= n,
            n == name@.len(),
            forall|j: int| 0 <= j < i ==> name@[j] != '.',
        decreases n - i,
    {
        i += 1;
    }
    proof {
        lemma_first_dot_is(name@, i as int);
    }
    let label = name.substring_char(0, i);
    let label_bytes = label.as_bytes();
    proof {
        assert(label@ =~= name@.take(i as int));
        if i == n {
            assert(label@ =~= name@);
        }
        assert(label_bytes@.len() <= 63);
    }
    buffer.push(label_bytes.len() as u8);
    buffer.extend_from_slice(label_bytes);
    if i < n {
        let rest = name.substring_char(i + 1, n);
        proof {
            assert(rest@ =~= name@.skip(i as int + 1));
        }
        push_name_bytes(rest, buffer);
        proof {
            assert(buffer@ =~= old(buffer)@ + spec_encode_name(name@));
        }
    } else {
        buffer.push(0);
        proof {
            assert(buffer@ =~= old(buffer)@ + spec_encode_name(name@));
        }
    }
}

impl Question {
    /// A question is well formed when its name can stand on the wire.
    pub open spec fn wf(&self) -> bool {
        valid_dns_name(self.name@)
    }

    /// A fresh question for `domain_name` in the Internet class, asking for
    /// the given record type.
    pub fn new(domain_name: &str, record_type: RecordType) -> (r: Question)
        ensures
            r@ == (QuestionModel {
                name: domain_name@,
                query_type: spec_query_type_for(record_type),
                query_class: QueryClass::IN,
            }),
    {
        Question {
            name: domain_name.to_owned(),
            query_type: match record_type {
                RecordType::A => QueryType::A,
                RecordType::MX => QueryType::MX,
            },
            query_class: QueryClass::IN,
        }
    }

    /// Appends this question's wire bytes: the name written in full,
    /// uncompressed, then the type and class codes.
    pub fn extend_to_buffer(&self, buffer: &mut Vec<u8>)
        requires
            self.wf(),
        ensures
            final(buffer)@ == old(buffer)@ + spec_encode_question(self@),
    {
        push_name_bytes(self.name.as_str(), buffer);
        push_u16(buffer, self.query_type.to_u16());
        push_u16(buffer, self.query_class.to_u16());
        proof {
            assert(buffer@ =~= old(buffer)@ + spec_encode_question(self@));
        }
    }

    /// Decodes one question at `*offset`, advancing the cursor just past
    /// it; a failure aborts the decode with the cursor's final position
    /// unspecified.
    pub fn from_buffer(packet_buffer: &[u8], offset: &mut usize) -> (r: Result<Question, DnsError>)
        ensures
            match spec_parse_question(packet_buffer@, *old(offset) as int) {
                Ok(parsed) => r matches Ok(q) && q@ == parsed.0 && *final(offset) == parsed.1,
                Err(e) => r == Err::<Question, DnsError>(e),
            },
    {
        let len = packet_buffer.len();
        let name = match parse_name(packet_buffer, offset) {
            Ok(name) => name,
            Err(e) => {
                return Err(e);
            },
        };
        let pos = *offset;
        proof {
            crate::parse_name::lemma_parse_name_end_bounds(
                packet_buffer@,
                *old(offset) as int,
                MAX_POINTER_JUMPS as nat,
            );
        }
        if len - pos < 2 {
            return Err(DnsError::MalformedInput);
        }
        let query_type = match QueryType::from_u16(read_u16(packet_buffer, pos)) {
            Ok(t) => t,
            Err(e) => {
                return Err(e);
            },
        };
        if len - pos < 4 {
            return Err(DnsError::MalformedInput);
        }
        let query_class = match QueryClass::from_u16(read_u16(packet_buffer, pos + 2)) {
            Ok(c) => c,
            Err(e) => {
                return Err(e);
            },
        };
        *offset = pos + 4;
        Ok(Question { name, query_type, query_class })
    }
}

} // verus!
