//! The twelve-byte header that tags a half with its range.
//!
//! A header is the four bytes of [`TAG`], then the start and the end of the
//! range, each as four little-endian bytes.

use vstd::prelude::*;
use vstd::string::*;
use crate::decimal::{decimal, decimal_string};
use crate::error::SplitError;

verus! {

/// Length of a header in bytes.
pub const LEN: usize = 12;

/// The bytes every header begins with: `epi:` in ASCII.
pub const TAG: [u8; 4] = [0x65, 0x70, 0x69, 0x3a];

/// The byte range, in the coordinates of the original file, that a half stands for.
#[derive(Clone, Copy, Debug, PartialEq, Eq, Structural)]
pub struct Signature {
    pub start_offset: u32,
    pub end_offset: u32,
}

/// The tag as a sequence of bytes.
pub open spec fn tag() -> Seq<u8> {
    TAG@
}

/// The four little-endian bytes of `x`, least significant first.
pub open spec fn le_bytes(x: u32) -> Seq<u8> {
    seq![
        (x % 256) as u8,
        (x / 256 % 256) as u8,
        (x / 65536 % 256) as u8,
        (x / 16777216) as u8,
    ]
}

/// The number whose little-endian bytes are the first four of `b`.
pub open spec fn le_value(b: Seq<u8>) -> int {
    b[0] + 256 * b[1] + 65536 * b[2] + 16777216 * b[3]
}

/// A range as text: start, hyphen, end.
pub open spec fn range_text(sig: Signature) -> Seq<char> {
    decimal(sig.start_offset as nat) + seq!['-'] + decimal(sig.end_offset as nat)
}

/// The header of a range: tag, start, end.
pub open spec fn header_bytes(sig: Signature) -> Seq<u8> {
    tag() + le_bytes(sig.start_offset) + le_bytes(sig.end_offset)
}

/// A buffer is tagged when it is longer than a header and begins with the tag.
/// A buffer of exactly twelve bytes has no payload to split and is never tagged.
pub open spec fn is_tagged(bytes: Seq<u8>) -> bool {
    bytes.len() > LEN && bytes.subrange(0, 4) == tag()
}

/// The range that the two fields of a header spell out, ordered or not.
pub open spec fn header_fields(bytes: Seq<u8>) -> Signature {
    Signature {
        start_offset: le_value(bytes.subrange(4, 8)) as u32,
        end_offset: le_value(bytes.subrange(8, 12)) as u32,
    }
}

/// What decoding a buffer gives: nothing for an untagged buffer, the range of a
/// tagged one, and an error where that range ends before it starts.
pub open spec fn decode_spec(bytes: Seq<u8>) -> Result<Option<Signature>, SplitError> {
    if !is_tagged(bytes) {
        Ok(None)
    } else if header_fields(bytes).is_ordered() {
        Ok(Some(header_fields(bytes)))
    } else {
        Err(SplitError::CorruptSignature)
    }
}

impl Signature {
    /// A range is ordered when it does not end before it starts.
    pub open spec fn is_ordered(&self) -> bool {
        self.start_offset <= self.end_offset
    }

    /// The range from `start_offset` to `end_offset`.
    pub fn new(start_offset: u32, end_offset: u32) -> (sig: Signature)
        ensures
            sig == (Signature { start_offset, end_offset }),
    {
        Signature { start_offset, end_offset }
    }

    /// The range as text: start and end in decimal with a hyphen between them.
    pub fn range_str(&self) -> (text: String)
        ensures
            text@ == range_text(*self),
    {
        let mut text = decimal_string(self.start_offset);
        proof {
            reveal_strlit("-");
        }
        text.append("-");
        let end = decimal_string(self.end_offset);
        text.append(end.as_str());
        text
    }

    /// The header for this range: `TAG`, then start and end, little-endian.
    pub fn as_bytes(&self) -> (out: [u8; 12])
        ensures
            out@ == header_bytes(*self),
    {
        let s = self.start_offset;
        let e = self.end_offset;
        let out: [u8; 12] = [
            TAG[0],
            TAG[1],
            TAG[2],
            TAG[3],
            (s % 256) as u8,
            (s / 256 % 256) as u8,
            (s / 65536 % 256) as u8,
            (s / 16777216) as u8,
            (e % 256) as u8,
            (e / 256 % 256) as u8,
            (e / 65536 % 256) as u8,
            (e / 16777216) as u8,
        ];
        assert(out@ =~= header_bytes(*self));
        out
    }

    /// Reads the header of `buffer`, if it has one.
    pub fn decode(buffer: &[u8]) -> (r: Result<Option<Signature>, SplitError>)
        ensures
            r == decode_spec(buffer@),
    {
        if buffer.len() <= LEN || buffer[0] != TAG[0] || buffer[1] != TAG[1] || buffer[2] != TAG[2]
            || buffer[3] != TAG[3] {
            proof {
                if buffer@.len() > 12 {
                    assert(buffer@.subrange(0, 4)[0] == buffer@[0]);
                    assert(buffer@.subrange(0, 4)[1] == buffer@[1]);
                    assert(buffer@.subrange(0, 4)[2] == buffer@[2]);
                    assert(buffer@.subrange(0, 4)[3] == buffer@[3]);
                }
            }
            return Ok(None);
        }
        assert(buffer@.subrange(0, 4) =~= tag());
        let start_offset = read_le(buffer, 4);
        let end_offset = read_le(buffer, 8);
        if start_offset > end_offset {
            return Err(SplitError::CorruptSignature);
        }
        Ok(Some(Signature { start_offset, end_offset }))
    }
}

impl Default for Signature {
    /// The empty range at the start of the file.
    fn default() -> (sig: Signature)
        ensures
            sig == (Signature { start_offset: 0, end_offset: 0 }),
    {
        Signature { start_offset: 0, end_offset: 0 }
    }
}

/// Four little-endian bytes spell the number they were made from.
pub proof fn lemma_le_roundtrip(x: u32)
    ensures
        le_bytes(x).len() == 4,
        le_value(le_bytes(x)) == x,
{
}

/// A buffer no longer than a header is untagged, whatever it holds: even a
/// well-formed header alone has no payload left to split.
pub proof fn lemma_short_buffer_untagged(bytes: Seq<u8>)
    requires
        bytes.len() <= 12,
    ensures
        decode_spec(bytes) == Ok::<Option<Signature>, SplitError>(None),
{
}

/// The fields of a header are the range it was encoded from, for every range
/// and whatever follows the header.
pub proof fn lemma_header_fields_roundtrip(sig: Signature, payload: Seq<u8>)
    ensures
        header_bytes(sig).len() == 12,
        header_fields(header_bytes(sig) + payload) == sig,
{
    let buffer = header_bytes(sig) + payload;
    lemma_le_roundtrip(sig.start_offset);
    lemma_le_roundtrip(sig.end_offset);
    assert(buffer.subrange(4, 8) =~= le_bytes(sig.start_offset));
    assert(buffer.subrange(8, 12) =~= le_bytes(sig.end_offset));
}

/// Decoding what was encoded gives the range back: a header in front of a
/// payload of at least one byte decodes to the ordered range it was made from.
pub proof fn lemma_encode_decode_roundtrip(sig: Signature, payload: Seq<u8>)
    requires
        sig.is_ordered(),
        payload.len() > 0,
    ensures
        decode_spec(header_bytes(sig) + payload) == Ok::<_, SplitError>(Some(sig)),
{
    let buffer = header_bytes(sig) + payload;
    lemma_header_fields_roundtrip(sig, payload);
    assert(buffer.subrange(0, 4) =~= tag());
}

/// A header whose range ends before it starts is refused, whatever follows it.
pub proof fn lemma_disordered_header_refused(sig: Signature, payload: Seq<u8>)
    requires
        !sig.is_ordered(),
        payload.len() > 0,
    ensures
        decode_spec(header_bytes(sig) + payload) == Err::<Option<Signature>, _>(
            SplitError::CorruptSignature,
        ),
{
    let buffer = header_bytes(sig) + payload;
    lemma_header_fields_roundtrip(sig, payload);
    assert(buffer.subrange(0, 4) =~= tag());
}

/// The little-endian number in the four bytes of `buffer` from `at` on.
fn read_le(buffer: &[u8], at: usize) -> (x: u32)
    requires
        at + 4 <= buffer@.len(),
    ensures
        x == le_value(buffer@.subrange(at as int, at + 4)),
{
    let b0 = buffer[at] as u32;
    let b1 = buffer[at + 1] as u32;
    let b2 = buffer[at + 2] as u32;
    let b3 = buffer[at + 3] as u32;
    b0 + 256 * b1 + 65536 * b2 + 16777216 * b3
}

} // verus!
