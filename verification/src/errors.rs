use vstd::prelude::*;

verus! {

/// The ways a DNS message can fail to encode or decode.
#[derive(Clone, Copy, Debug, PartialEq, Eq, Structural)]
pub enum DnsError {
    /// The buffer is too short for a declared field, a label or a compression
    /// pointer reaches outside the buffer, a label is not valid UTF-8, or a
    /// declared record data length disagrees with the parsed content.
    MalformedInput,
    /// A numeric opcode, response-code, query-type or query-class value
    /// outside the recognized set.
    UnknownCode,
    /// A well-formed message using a capability outside this codec's scope,
    /// such as an answer record of a type other than address or mail-exchange.
    UnsupportedFeature,
}

} // verus!
