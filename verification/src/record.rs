use vstd::prelude::*;

use crate::errors::DnsError;
use crate::parse_name::lemma_parse_name_end_bounds;
use crate::parse_name::parse_name;
use crate::parse_name::spec_parse_name;
use crate::parse_name::MAX_POINTER_JUMPS;
use crate::read_u16;
use crate::read_u32;
use crate::spec_be16;
use crate::spec_be32;
use crate::spec_query_class_of;
use crate::spec_query_type_of;
use crate::QueryClass;
use crate::QueryType;

verus! {

/// The mathematical value of a record's payload.
#[verifier::ext_equal]
pub ghost enum RecordDataModel {
    A(u32),
    MX { preference: u16, exchange_name: Seq<char> },
}

/// A record's payload, interpreted according to its declared type: a
/// 32-bit host address, or a mail exchange's preference and name.
#[derive(Debug, PartialEq, Eq)]
pub enum RecordData {
    A(u32),
    MX { preference: u16, exchange_name: String },
}

impl View for RecordData {
    type V = RecordDataModel;

    open spec fn view(&self) -> RecordDataModel {
        match self {
            RecordData::A(address) => RecordDataModel::A(*address),
            RecordData::MX { preference, exchange_name } => RecordDataModel::MX {
                preference: *preference,
                exchange_name: exchange_name@,
            },
        }
    }
}

/// The mathematical value of one answer record.
#[verifier::ext_equal]
pub ghost struct RecordModel {
    pub name: Seq<char>,
    pub query_type: QueryType,
    pub query_class: QueryClass,
    pub ttl: u32,
    pub data_length: u16,
    pub record_data: RecordDataModel,
}

/// One entry of a message's answer section: a name, type, class,
/// time-to-live, the declared payload length, and the typed payload.
#[derive(Debug)]
pub struct ResourceRecord {
    pub name: String,
    pub query_type: QueryType,
    pub query_class: QueryClass,
    pub ttl: u32,
    pub data_length: u16,
    pub record_data: RecordData,
}

impl View for ResourceRecord {
    type V = RecordModel;

    open spec fn view(&self) -> RecordModel {
        RecordModel {
            name: self.name@,
            query_type: self.query_type,
            query_class: self.query_class,
            ttl: self.ttl,
            data_length: self.data_length,
            record_data: self.record_data@,
        }
    }
}

/// What decoding one answer record at `offset` in `buf` yields: the record
/// and the offset just past it, or the error that aborts the decode.
///
/// After the name come type (2 bytes), class (2), time-to-live (4) and the
/// declared payload length (2). A type code outside the recognized set is
/// an unsupported-feature error: the record may be well formed, but its
/// payload cannot be interpreted here. An address-type payload must declare
/// exactly 4 bytes. A mail-exchange payload is a 2-byte preference and an
/// exchange name, and the bytes consumed parsing the two must equal the
/// declared length exactly; any disagreement is malformed input.
pub open spec fn spec_parse_record(buf: Seq<u8>, offset: int) -> Result<
    (RecordModel, int),
    DnsError,
> {
    match spec_parse_name(buf, offset, MAX_POINTER_JUMPS as nat) {
        None => Err(DnsError::MalformedInput),
        Some(parsed_name) => {
            let p = parsed_name.1;
            if p + 2 > buf.len() {
                Err(DnsError::MalformedInput)
            } else {
                match spec_query_type_of(spec_be16(buf[p], buf[p + 1])) {
                    None => Err(DnsError::UnsupportedFeature),
                    Some(query_type) => {
                        if p + 4 > buf.len() {
                            Err(DnsError::MalformedInput)
                        } else {
                            match spec_query_class_of(spec_be16(buf[p + 2], buf[p + 3])) {
                                None => Err(DnsError::UnknownCode),
                                Some(query_class) => {
                                    if p + 10 > buf.len() {
                                        Err(DnsError::MalformedInput)
                                    } else {
                                        let ttl = spec_be32(
                                            buf[p + 4],
                                            buf[p + 5],
                                            buf[p + 6],
                                            buf[p + 7],
                                        );
                                        let data_length = spec_be16(buf[p + 8], buf[p + 9]);
                                        spec_parse_record_data(
                                            buf,
                                            parsed_name.0,
                                            query_type,
                                            query_class,
                                            ttl,
                                            data_length,
                                            p + 10,
                                        )
                                    }
                                },
                            }
                        }
                    },
                }
            }
        },
    }
}

/// What interpreting a record's payload at `p` yields, given the record's
/// declared type and payload length.
pub open spec fn spec_parse_record_data(
    buf: Seq<u8>,
    name: Seq<char>,
    query_type: QueryType,
    query_class: QueryClass,
    ttl: u32,
    data_length: u16,
    p: int,
) -> Result<(RecordModel, int), DnsError> {
    match query_type {
        QueryType::A => {
            if data_length != 4 {
                Err(DnsError::MalformedInput)
            } else if p + 4 > buf.len() {
                Err(DnsError::MalformedInput)
            } else {
                Ok(
                    (
                        RecordModel {
                            name,
                            query_type,
                            query_class,
                            ttl,
                            data_length,
                            record_data: RecordDataModel::A(
                                spec_be32(buf[p], buf[p + 1], buf[p + 2], buf[p + 3]),
                            ),
                        },
                        p + 4,
                    ),
                )
            }
        },
        QueryType::MX => {
            if p + 2 > buf.len() {
                Err(DnsError::MalformedInput)
            } else {
                let preference = spec_be16(buf[p], buf[p + 1]);
                match spec_parse_name(buf, p + 2, MAX_POINTER_JUMPS as nat) {
                    None => Err(DnsError::MalformedInput),
                    Some(exchange) => {
                        if exchange.1 - p != data_length {
                            Err(DnsError::MalformedInput)
                        } else {
                            Ok(
                                (
                                    RecordModel {
                                        name,
                                        query_type,
                                        query_class,
                                        ttl,
                                        data_length,
                                        record_data: RecordDataModel::MX {
                                            preference,
                                            exchange_name: exchange.0,
                                        },
                                    },
                                    exchange.1,
                                ),
                            )
                        }
                    },
                }
            }
        },
    }
}

/// An address-type record whose declared payload length is anything but 4
/// is rejected as malformed input.
pub proof fn lemma_address_record_length_mismatch(
    buf: Seq<u8>,
    name: Seq<char>,
    query_class: QueryClass,
    ttl: u32,
    data_length: u16,
    p: int,
)
    requires
        data_length != 4,
    ensures
        spec_parse_record_data(buf, name, QueryType::A, query_class, ttl, data_length, p)
            == Err::<(RecordModel, int), DnsError>(DnsError::MalformedInput),
{
}

/// A mail-exchange record is rejected as malformed input whenever the
/// bytes consumed decoding its preference and exchange name differ from
/// the declared payload length.
pub proof fn lemma_mx_record_length_mismatch(
    buf: Seq<u8>,
    name: Seq<char>,
    query_class: QueryClass,
    ttl: u32,
    data_length: u16,
    p: int,
)
    requires
        p + 2 <= buf.len(),
        spec_parse_name(buf, p + 2, MAX_POINTER_JUMPS as nat) matches Some(exchange)
            && exchange.1 - p != data_length,
    ensures
        spec_parse_record_data(buf, name, QueryType::MX, query_class, ttl, data_length, p)
            == Err::<(RecordModel, int), DnsError>(DnsError::MalformedInput),
{
}

impl ResourceRecord {
    /// Decodes one answer record at `*offset`, advancing the cursor just
    /// past it; a failure aborts the decode with the cursor's final
    /// position unspecified.
    pub fn from_buffer(packet_buffer: &[u8], offset: &mut usize) -> (r: Result<
        ResourceRecord,
        DnsError,
    >)
        ensures
            match spec_parse_record(packet_buffer@, *old(offset) as int) {
                Ok(parsed) => r matches Ok(record) && record@ == parsed.0 && *final(offset)
                    == parsed.1,
                Err(e) => r == Err::<ResourceRecord, DnsError>(e),
            },
    {
        let len = packet_buffer.len();
        let name = match parse_name(packet_buffer, offset) {
            Ok(name) => name,
            Err(e) => {
                return Err(e);
            },
        };
        let p = *offset;
        proof {
            lemma_parse_name_end_bounds(
                packet_buffer@,
                *old(offset) as int,
                MAX_POINTER_JUMPS as nat,
            );
        }
        if len - p < 2 {
            return Err(DnsError::MalformedInput);
        }
        let query_type = match QueryType::from_u16(read_u16(packet_buffer, p)) {
            Ok(t) => t,
            Err(_) => {
                return Err(DnsError::UnsupportedFeature);
            },
        };
        if len - p < 4 {
            return Err(DnsError::MalformedInput);
        }
        let query_class = match QueryClass::from_u16(read_u16(packet_buffer, p + 2)) {
            Ok(c) => c,
            Err(e) => {
                return Err(e);
            },
        };
        if len - p < 10 {
            return Err(DnsError::MalformedInput);
        }
        let ttl = read_u32(packet_buffer, p + 4);
        let data_length = read_u16(packet_buffer, p + 8);
        let data_start = p + 10;
        match query_type {
            QueryType::A => {
                if data_length != 4 {
                    return Err(DnsError::MalformedInput);
                }
                if len - data_start < 4 {
                    return Err(DnsError::MalformedInput);
                }
                let address = read_u32(packet_buffer, data_start);
                *offset = data_start + 4;
                Ok(
                    ResourceRecord {
                        name,
                        query_type,
                        query_class,
                        ttl,
                        data_length,
                        record_data: RecordData::A(address),
                    },
                )
            },
            QueryType::MX => {
                if len - data_start < 2 {
                    return Err(DnsError::MalformedInput);
                }
                let preference = read_u16(packet_buffer, data_start);
                let mut name_pos = data_start + 2;
                let exchange_name = match parse_name(packet_buffer, &mut name_pos) {
                    Ok(exchange_name) => exchange_name,
                    Err(e) => {
                        return Err(e);
                    },
                };
                proof {
                    lemma_parse_name_end_bounds(
                        packet_buffer@,
                        data_start + 2,
                        MAX_POINTER_JUMPS as nat,
                    );
                }
                let parsed_data_length = name_pos - data_start;
                if parsed_data_length != data_length as usize {
                    return Err(DnsError::MalformedInput);
                }
                *offset = name_pos;
                Ok(
                    ResourceRecord {
                        name,
                        query_type,
                        query_class,
                        ttl,
                        data_length,
                        record_data: RecordData::MX { preference, exchange_name },
                    },
                )
            },
        }
    }
}

} // verus!
