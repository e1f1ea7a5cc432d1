use vstd::prelude::*;
use vstd::slice::slice_index_get;
use vstd::slice::slice_subrange;
use vstd::string::StrSliceExecFns;
use vstd::string::StringExecFns;
use vstd::string::StringSliceAdditionalSpecFns;
use vstd::utf8::decode_utf8;
use vstd::utf8::encode_utf8;
use vstd::utf8::valid_utf8;

use crate::errors::DnsError;

verus! {

/// How many compression pointers one name may follow before decoding gives
/// up. Pointers can in principle chain or cycle; bounding the chain keeps
/// decoding terminating on every buffer, and no honest name inside a
/// 512-byte datagram comes near this many jumps.
pub const MAX_POINTER_JUMPS: u8 = 64;

/// What decoding a domain name at `offset` in `buf` yields, following at
/// most `jumps` compression pointers: the name's characters and the offset
/// just past the name's own encoding, or `None` when the bytes are
/// malformed.
///
/// Each step reads one label-header byte. Top bits `11`: the remaining 14
/// bits are an absolute offset into the same buffer, the name decoded there
/// is the tail of this name, and the cursor ends just past the 2 pointer
/// bytes. Top bits `00`: a label length; 0 terminates the name, otherwise
/// that many bytes are a UTF-8 label. Any other top bits, a read past the
/// end of the buffer, invalid UTF-8, or a pointer chain longer than `jumps`
/// are malformed.
pub open spec fn spec_parse_name(buf: Seq<u8>, offset: int, jumps: nat) -> Option<(Seq<char>, int)>
    decreases jumps, buf.len() - offset,
{
    if offset < 0 || offset >= buf.len() {
        None
    } else {
        let header = buf[offset];
        if header & 0xC0 == 0xC0 {
            if offset + 1 >= buf.len() {
                None
            } else if jumps == 0 {
                None
            } else {
                let pointer = (header & 0x3F) * 256 + buf[offset + 1];
                match spec_parse_name(buf, pointer as int, (jumps - 1) as nat) {
                    Some(tail) => Some((tail.0, offset + 2)),
                    None => None,
                }
            }
        } else if header & 0xC0 != 0 {
            None
        } else if header == 0 {
            Some((Seq::empty(), offset + 1))
        } else if offset + 1 + header > buf.len() {
            None
        } else {
            let label_bytes = buf.subrange(offset + 1, offset + 1 + header);
            if !valid_utf8(label_bytes) {
                None
            } else {
                let label = decode_utf8(label_bytes);
                let next = offset + 1 + header;
                match spec_parse_name(buf, next, jumps) {
                    Some(tail) => {
                        if buf[next] == 0 {
                            Some((label, tail.1))
                        } else {
                            Some((label + seq!['.'] + tail.0, tail.1))
                        }
                    },
                    None => None,
                }
            }
        }
    }
}

/// Turns a byte slice into a string slice when the bytes are valid UTF-8.
///
/// Relies on core::str::from_utf8: it returns `Ok` exactly when the bytes
/// are valid UTF-8, and the returned string slice is those very bytes.
#[verifier::external_body]
fn bytes_to_str(bytes: &[u8]) -> (r: Option<&str>)
    ensures
        r is Some <==> valid_utf8(bytes@),
        r matches Some(s) ==> s.spec_bytes() == bytes@,
{
    match core::str::from_utf8(bytes) {
        Ok(s) => Some(s),
        Err(_) => None,
    }
}

/// Decodes the domain name starting at `start`, following at most `jumps`
/// compression pointers, and returns the name with the offset just past its
/// encoding.
fn parse_name_at(packet_buffer: &[u8], start: usize, jumps: u8) -> (r: Result<
    (String, usize),
    DnsError,
>)
    ensures
        match spec_parse_name(packet_buffer@, start as int, jumps as nat) {
            Some(parsed) => r matches Ok(ok) && ok.0@ == parsed.0 && ok.1 == parsed.1,
            None => r == Err::<(String, usize), DnsError>(DnsError::MalformedInput),
        },
    decreases jumps as int, packet_buffer@.len() - start,
{
    let len = packet_buffer.len();
    if start >= len {
        return Err(DnsError::MalformedInput);
    }
    let header = *slice_index_get(packet_buffer, start);
    if header & 0xC0 == 0xC0 {
        if start + 1 >= len {
            return Err(DnsError::MalformedInput);
        }
        if jumps == 0 {
            return Err(DnsError::MalformedInput);
        }
        let second = *slice_index_get(packet_buffer, start + 1);
        let pointer = ((header & 0x3F) as usize) * 256 + second as usize;
        match parse_name_at(packet_buffer, pointer, jumps - 1) {
            Ok(tail) => Ok((tail.0, start + 2)),
            Err(e) => Err(e),
        }
    } else if header & 0xC0 != 0 {
        Err(DnsError::MalformedInput)
    } else if header == 0 {
        Ok((String::new(), start + 1))
    } else if len - start - 1 < header as usize {
        Err(DnsError::MalformedInput)
    } else {
        let next = start + 1 + header as usize;
        let label_bytes = slice_subrange(packet_buffer, start + 1, next);
        let label = match bytes_to_str(label_bytes) {
            Some(s) => s,
            None => {
                return Err(DnsError::MalformedInput);
            },
        };
        proof {
            vstd::utf8::encode_utf8_decode_utf8(label@);
        }
        match parse_name_at(packet_buffer, next, jumps) {
            Ok(tail) => {
                let mut name = label.to_owned();
                if *slice_index_get(packet_buffer, next) != 0 {
                    proof {
                        reveal_strlit(".");
                        assert("."@ =~= seq!['.']);
                    }
                    name.append(".");
                    name.append(tail.0.as_str());
                }
                Ok((name, tail.1))
            },
            Err(e) => Err(e),
        }
    }
}

/// The index of the first `.` in `s`, or `s.len()` when there is none.
pub open spec fn first_dot(s: Seq<char>) -> int
    decreases s.len(),
{
    if s.len() == 0 {
        0
    } else if s[0] == '.' {
        0
    } else {
        1 + first_dot(s.drop_first())
    }
}

/// A label that can stand on the wire: 1 to 63 bytes once UTF-8 encoded
/// (a length byte keeps its top two bits clear), and free of dots.
pub open spec fn valid_label(label: Seq<char>) -> bool {
    &&& 1 <= encode_utf8(label).len() <= 63
    &&& forall|j: int| 0 <= j < label.len() ==> label[j] != '.'
}

/// A domain name this codec can write on the wire and read back: a
/// dot-separated sequence of valid labels, so no empty label and no leading
/// or trailing dot.
pub open spec fn valid_dns_name(name: Seq<char>) -> bool
    decreases name.len(),
{
    let i = first_dot(name);
    if i == name.len() {
        valid_label(name)
    } else if 0 <= i < name.len() {
        valid_label(name.take(i)) && valid_dns_name(name.skip(i + 1))
    } else {
        false
    }
}

/// The uncompressed wire encoding of a domain name: each label as a length
/// byte followed by its UTF-8 bytes, closed by a zero byte.
pub open spec fn spec_encode_name(name: Seq<char>) -> Seq<u8>
    decreases name.len(),
{
    let i = first_dot(name);
    if 0 <= i < name.len() {
        seq![encode_utf8(name.take(i)).len() as u8] + encode_utf8(name.take(i))
            + spec_encode_name(name.skip(i + 1))
    } else {
        seq![encode_utf8(name).len() as u8] + encode_utf8(name) + seq![0u8]
    }
}

pub proof fn lemma_first_dot(s: Seq<char>)
    ensures
        0 <= first_dot(s) <= s.len(),
        first_dot(s) < s.len() ==> s[first_dot(s)] == '.',
        forall|j: int| 0 <= j < first_dot(s) ==> s[j] != '.',
    decreases s.len(),
{
    if s.len() == 0 {
    } else if s[0] == '.' {
    } else {
        lemma_first_dot(s.drop_first());
        assert forall|j: int| 0 <= j < first_dot(s) implies s[j] != '.' by {
            if j > 0 {
                assert(s.drop_first()[j - 1] != '.');
            }
        }
    }
}

/// An index with no dot before it that sits on a dot, or at the end of a
/// dotless string, is the first dot.
pub proof fn lemma_first_dot_is(s: Seq<char>, i: int)
    requires
        0 <= i <= s.len(),
        i < s.len() ==> s[i] == '.',
        forall|j: int| 0 <= j < i ==> s[j] != '.',
    ensures
        first_dot(s) == i,
    decreases s.len(),
{
    if s.len() == 0 {
    } else if s[0] == '.' {
        assert(i == 0);
    } else {
        assert(i >= 1);
        lemma_first_dot_is(s.drop_first(), i - 1);
    }
}

/// The encoding of a valid name opens with the first label's length byte:
/// at least 1 and at most 63, never a terminator and never a pointer mark.
pub proof fn lemma_encode_name_head(name: Seq<char>)
    requires
        valid_dns_name(name),
    ensures
        spec_encode_name(name).len() >= 3,
        1 <= spec_encode_name(name)[0] <= 63,
    decreases name.len(),
{
    lemma_first_dot(name);
    let i = first_dot(name);
    if i == name.len() {
        assert(spec_encode_name(name)[0] == encode_utf8(name).len() as u8);
    } else {
        lemma_encode_name_head(name.skip(i + 1));
        assert(spec_encode_name(name)[0] == encode_utf8(name.take(i)).len() as u8);
    }
}

/// A label length that would read past the end of the buffer yields no
/// name: `parse_name` then reports malformed input rather than panicking
/// or truncating the read.
pub proof fn lemma_label_overrun_is_malformed(buf: Seq<u8>, offset: int, jumps: nat)
    requires
        0 <= offset < buf.len(),
        buf[offset] & 0xC0 == 0,
        buf[offset] != 0,
        offset + 1 + buf[offset] > buf.len(),
    ensures
        spec_parse_name(buf, offset, jumps) is None,
{
}

/// A successfully decoded name moves the cursor forward and never past the
/// end of the buffer.
pub proof fn lemma_parse_name_end_bounds(buf: Seq<u8>, offset: int, jumps: nat)
    ensures
        spec_parse_name(buf, offset, jumps) matches Some(parsed) ==> offset < parsed.1
            <= buf.len(),
    decreases jumps, buf.len() - offset,
{
    if 0 <= offset < buf.len() {
        let header = buf[offset];
        if header & 0xC0 == 0xC0 {
        } else if header & 0xC0 != 0 {
        } else if header == 0 {
        } else if offset + 1 + header > buf.len() {
        } else {
            lemma_parse_name_end_bounds(buf, offset + 1 + header, jumps);
        }
    }
}

/// Parsing reads an uncompressed valid name back exactly: wherever the
/// encoding of `name` sits in a buffer, decoding at its start yields `name`
/// and stops right after the encoding, whatever the pointer budget.
pub proof fn lemma_parse_encoded_name(buf: Seq<u8>, offset: int, name: Seq<char>, jumps: nat)
    requires
        valid_dns_name(name),
        0 <= offset,
        offset + spec_encode_name(name).len() <= buf.len(),
        buf.subrange(offset, offset + spec_encode_name(name).len() as int) == spec_encode_name(
            name,
        ),
    ensures
        spec_parse_name(buf, offset, jumps) == Some(
            (name, offset + spec_encode_name(name).len() as int),
        ),
    decreases name.len(),
{
    broadcast use vstd::utf8::encode_utf8_valid_utf8;

    lemma_first_dot(name);
    let i = first_dot(name);
    let enc = spec_encode_name(name);
    let label = if i == name.len() {
        name
    } else {
        name.take(i)
    };
    let lb = encode_utf8(label);
    let ll = lb.len() as int;
    let header = buf[offset];
    assert(header == enc[0]);
    assert(header == ll as u8);
    assert(header == ll);
    assert(header & 0xC0 != 0xC0 && header & 0xC0 == 0 && header != 0) by (bit_vector)
        requires
            1 <= header <= 63,
    ;
    let next = offset + 1 + ll;
    assert(buf.subrange(offset + 1, next) =~= lb) by {
        assert forall|k: int| 0 <= k < ll implies buf[offset + 1 + k] == lb[k] by {
            assert(buf[offset + 1 + k] == enc[1 + k]);
        }
    }
    vstd::utf8::encode_utf8_decode_utf8(label);
    if i == name.len() {
        assert(buf[next] == enc[1 + ll]);
        let terminator = buf[next];
        assert(terminator == 0);
        assert(terminator & 0xC0 != 0xC0 && terminator & 0xC0 == 0) by (bit_vector)
            requires
                terminator == 0,
        ;
        assert(spec_parse_name(buf, next, jumps) == Some((Seq::<char>::empty(), next + 1)));
        assert(spec_parse_name(buf, offset, jumps) == Some((label, next + 1)));
        assert(next + 1 == offset + enc.len());
    } else {
        let rest = name.skip(i + 1);
        let renc = spec_encode_name(rest);
        assert(enc.len() == 1 + ll + renc.len());
        assert(buf.subrange(next, next + renc.len()) =~= renc) by {
            assert forall|k: int| 0 <= k < renc.len() implies buf[next + k] == renc[k] by {
                assert(buf[next + k] == enc[1 + ll + k]);
            }
        }
        lemma_parse_encoded_name(buf, next, rest, jumps);
        lemma_encode_name_head(rest);
        assert(buf[next] == renc[0]);
        assert(buf[next] != 0);
        assert(name =~= label + seq!['.'] + rest);
        assert(spec_parse_name(buf, offset, jumps) == Some((name, offset + enc.len())));
    }
}

/// Decides whether a name can stand on the wire, so that a caller can test
/// a name before asking for its encoding.
pub fn is_valid_name(name: &str) -> (r: bool)
    ensures
        r == valid_dns_name(name@),
    decreases name@.len(),
{
    let n = name.unicode_len();
    let mut i: usize = 0;
    while i < n && name.get_char(i) != '.'
        invariant
            i <= n,
            n == name@.len(),
            forall|j: int| 0 <= j < i ==> name@[j] != '.',
        decreases n - i,
    {
        i += 1;
    }
    proof {
        lemma_first_dot_is(name@, i as int);
    }
    let label = name.substring_char(0, i);
    let label_len = label.as_bytes().len();
    proof {
        assert(label@ =~= name@.take(i as int));
        assert(label_len == encode_utf8(label@).len());
        assert(forall|j: int| 0 <= j < label@.len() ==> label@[j] == name@[j] && label@[j] != '.');
        if i == n {
            assert(label@ =~= name@);
        }
    }
    if label_len < 1 || label_len > 63 {
        assert(!valid_label(name@.take(i as int)));
        return false;
    }
    assert(valid_label(name@.take(i as int)));
    if i < n {
        let rest = name.substring_char(i + 1, n);
        proof {
            assert(rest@ =~= name@.skip(i as int + 1));
        }
        is_valid_name(rest)
    } else {
        true
    }
}

/// Decodes a possibly-compressed domain name from `packet_buffer` at
/// `*offset`, advancing the cursor just past the name's own encoding: past
/// the terminating zero byte, or, when the name ends in a compression
/// pointer, past the 2 pointer bytes. Out-of-bounds reads, label headers
/// with top bits `01` or `10`, invalid UTF-8 in a label and over-long
/// pointer chains are malformed input; the cursor is then left unchanged.
pub fn parse_name(packet_buffer: &[u8], offset: &mut usize) -> (r: Result<String, DnsError>)
    ensures
        match spec_parse_name(packet_buffer@, *old(offset) as int, MAX_POINTER_JUMPS as nat) {
            Some(parsed) => r matches Ok(name) && name@ == parsed.0 && *final(offset) == parsed.1,
            None => r == Err::<String, DnsError>(DnsError::MalformedInput) && *final(offset)
                == *old(offset),
        },
{
    match parse_name_at(packet_buffer, *offset, MAX_POINTER_JUMPS) {
        Ok((name, end)) => {
            *offset = end;
            Ok(name)
        },
        Err(e) => Err(e),
    }
}

} // verus!
