//! The container around the payload of a save file: a fixed header, the
//! length of the payload as an unsigned LEB128 integer, the payload itself,
//! which is UTF-8 text, and one sentinel byte.

use crate::leb128::{
    decode, decoding, encode, encoding, lemma_decode_inverts_encode, lemma_decoding_bounds,
    lemma_decoding_ignores_what_follows,
};
use vstd::prelude::*;
use vstd::utf8::*;

verus! {

/// The 22 bytes that every save file starts with.
pub const SAVEFILE_HEADER: [u8; 22] = [
    0x00, 0x01, 0x00, 0x00, 0x00, 0xff, 0xff, 0xff, 0xff, 0x01, 0x00, 0x00, 0x00, 0x00, 0x00, 0x00,
    0x00, 0x06, 0x01, 0x00, 0x00, 0x00,
];

/// The byte that follows the payload. It is written, and not looked at
/// when a file is read.
pub const SENTINEL: u8 = 0x0B;

/// Why a buffer is not a save file.
#[derive(Debug, Clone, Copy, PartialEq, Eq, Structural)]
pub enum ParseError {
    /// The buffer does not start with the header.
    HeaderMismatch,
    /// No length can be decoded after the header.
    TruncatedLength,
    /// The buffer ends before the payload does.
    TruncatedPayload,
    /// The payload is not UTF-8 text.
    InvalidEncoding,
    /// The payload is not a document of the four dictionaries.
    MalformedPayload,
}

/// `bytes` starts with the header.
pub open spec fn has_header(bytes: Seq<u8>) -> bool {
    bytes.len() >= 22 && bytes.subrange(0, 22) == SAVEFILE_HEADER@
}

/// Where the payload lies in `bytes`: the index of its first byte and the
/// index after its last.
pub open spec fn framing(bytes: Seq<u8>) -> Result<(nat, nat), ParseError> {
    if !has_header(bytes) {
        Err(ParseError::HeaderMismatch)
    } else {
        match decoding(bytes.skip(22)) {
            Err(_) => Err(ParseError::TruncatedLength),
            Ok((length, used)) => if 22 + used + length > bytes.len() {
                Err(ParseError::TruncatedPayload)
            } else {
                Ok((22 + used, 22 + used + length))
            },
        }
    }
}

/// The text of the payload that lies in `bytes`.
pub open spec fn payload_text_of(bytes: Seq<u8>) -> Result<Seq<char>, ParseError> {
    match framing(bytes) {
        Err(e) => Err(e),
        Ok((start, end)) => {
            let payload = bytes.subrange(start as int, end as int);
            if valid_utf8(payload) {
                Ok(decode_utf8(payload))
            } else {
                Err(ParseError::InvalidEncoding)
            }
        },
    }
}

/// The container around a payload.
pub open spec fn container_of(payload: Seq<u8>) -> Seq<u8> {
    SAVEFILE_HEADER@ + encoding(payload.len()) + payload + seq![SENTINEL]
}

/// A buffer that is shorter than the header, or differs from it in one of
/// its first 22 bytes, is rejected for its header.
pub proof fn lemma_header_rejection(bytes: Seq<u8>)
    requires
        bytes.len() < 22 || exists|i: int| 0 <= i < 22 && bytes[i] != SAVEFILE_HEADER@[i],
    ensures
        framing(bytes) == Err::<(nat, nat), ParseError>(ParseError::HeaderMismatch),
{
    if bytes.len() >= 22 {
        let i = choose|i: int| 0 <= i < 22 && bytes[i] != SAVEFILE_HEADER@[i];
        assert(bytes.subrange(0, 22)[i] == bytes[i]);
    }
}

/// After the header and a length that decodes, the payload is found exactly
/// when the buffer holds as many bytes as the length says, or more.
pub proof fn lemma_length_prefix_boundary(bytes: Seq<u8>)
    requires
        has_header(bytes),
        decoding(bytes.skip(22)) is Ok,
    ensures
        ({
            let (length, used) = decoding(bytes.skip(22))->Ok_0;
            let remaining = bytes.len() - 22 - used;
            &&& remaining >= 0
            &&& length > remaining ==> framing(bytes) == Err::<(nat, nat), ParseError>(
                ParseError::TruncatedPayload,
            )
            &&& length <= remaining ==> framing(bytes) == Ok::<(nat, nat), ParseError>(
                (22 + used, 22 + used + length),
            )
        }),
{
    lemma_decoding_bounds(bytes.skip(22), 0);
}

/// Once the payload is found, nothing after it is looked at: whatever bytes
/// follow, the sentinel among them, the payload is the same.
pub proof fn lemma_payload_ignores_what_follows(bytes: Seq<u8>, tail: Seq<u8>)
    requires
        framing(bytes) is Ok,
    ensures
        framing(bytes + tail) == framing(bytes),
        payload_text_of(bytes + tail) == payload_text_of(bytes),
{
    let longer = bytes + tail;
    assert(longer.subrange(0, 22) == bytes.subrange(0, 22));
    assert(longer.skip(22) == bytes.skip(22) + tail);
    lemma_decoding_ignores_what_follows(bytes.skip(22), tail, 0);
    let (start, end) = framing(bytes)->Ok_0;
    assert(longer.subrange(start as int, end as int) == bytes.subrange(start as int, end as int));
}

/// The payload of a container is found where it was put.
pub proof fn lemma_framing_of_container(payload: Seq<u8>)
    requires
        payload.len() <= u64::MAX,
    ensures
        ({
            let start = 22 + encoding(payload.len()).len();
            &&& framing(container_of(payload)) == Ok::<(nat, nat), ParseError>(
                (start, start + payload.len()),
            )
            &&& container_of(payload).subrange(start as int, (start + payload.len()) as int) == payload
        }),
{
    let bytes = container_of(payload);
    let prefix = encoding(payload.len());
    assert(bytes.subrange(0, 22) =~= SAVEFILE_HEADER@);
    assert(bytes.skip(22) =~= prefix + (payload + seq![SENTINEL]));
    lemma_decode_inverts_encode(payload.len() as u64, payload + seq![SENTINEL]);
    let start = 22 + prefix.len();
    assert(bytes.subrange(start as int, (start + payload.len()) as int) =~= payload);
}

/// The text of a container is the text that was put in it.
pub proof fn lemma_payload_text_of_container(text: Seq<char>)
    requires
        encode_utf8(text).len() <= u64::MAX,
    ensures
        payload_text_of(container_of(encode_utf8(text))) == Ok::<Seq<char>, ParseError>(text),
{
    lemma_framing_of_container(encode_utf8(text));
    encode_utf8_valid_utf8(text);
    encode_utf8_decode_utf8(text);
}

/// Calls `std::str::from_utf8`. The claim: it gives the text whose UTF-8
/// encoding the bytes are, and none where they are no valid UTF-8.
#[verifier::external_body]
fn text_of_bytes(bytes: &[u8]) -> (r: Option<&str>)
    ensures
        match r {
            Some(text) => valid_utf8(bytes@) && encode_utf8(text@) == bytes@,
            None => !valid_utf8(bytes@),
        },
{
    std::str::from_utf8(bytes).ok()
}

/// Whether `bytes` starts with the header.
pub fn starts_with_header(bytes: &[u8]) -> (r: bool)
    ensures
        r == has_header(bytes@),
{
    if bytes.len() < 22 {
        return false;
    }
    let mut i: usize = 0;
    while i < 22
        invariant
            i <= 22,
            bytes@.len() >= 22,
            forall|j: int| 0 <= j < i ==> bytes@[j] == SAVEFILE_HEADER@[j],
        decreases 22 - i,
    {
        if bytes[i] != SAVEFILE_HEADER[i] {
            assert(bytes@.subrange(0, 22)[i as int] != SAVEFILE_HEADER@[i as int]);
            return false;
        }
        i += 1;
    }
    assert(bytes@.subrange(0, 22) =~= SAVEFILE_HEADER@);
    true
}

/// Finds the payload in `bytes`: the index of its first byte and the index
/// after its last. The byte after the payload is not looked at.
pub fn payload_window(bytes: &[u8]) -> (r: Result<(usize, usize), ParseError>)
    ensures
        match r {
            Ok((start, end)) => framing(bytes@) == Ok::<(nat, nat), ParseError>(
                (start as nat, end as nat),
            ) && 22 < start <= end <= bytes@.len(),
            Err(e) => framing(bytes@) == Err::<(nat, nat), ParseError>(e),
        },
{
    if !starts_with_header(bytes) {
        return Err(ParseError::HeaderMismatch);
    }
    let rest = &bytes[22..bytes.len()];
    assert(rest@ == bytes@.skip(22));
    match decode(rest) {
        Err(_) => Err(ParseError::TruncatedLength),
        Ok((length, used)) => {
            let remaining: usize = rest.len() - used;
            if length > remaining as u64 {
                Err(ParseError::TruncatedPayload)
            } else {
                let start: usize = 22 + used;
                Ok((start, start + length as usize))
            }
        },
    }
}

/// The text of the payload that lies in `bytes`.
pub fn payload_text(bytes: &[u8]) -> (r: Result<&str, ParseError>)
    ensures
        match r {
            Ok(text) => payload_text_of(bytes@) == Ok::<Seq<char>, ParseError>(text@),
            Err(e) => payload_text_of(bytes@) == Err::<Seq<char>, ParseError>(e),
        },
{
    let (start, end) = match payload_window(bytes) {
        Ok(window) => window,
        Err(e) => {
            return Err(e);
        },
    };
    let payload = &bytes[start..end];
    match text_of_bytes(payload) {
        Some(text) => {
            proof {
                encode_utf8_decode_utf8(text@);
            }
            Ok(text)
        },
        None => Err(ParseError::InvalidEncoding),
    }
}

/// Appends `bytes` to `out`.
pub fn append_bytes(out: &mut Vec<u8>, bytes: &[u8])
    ensures
        final(out)@ == old(out)@ + bytes@,
{
    let mut i: usize = 0;
    while i < bytes.len()
        invariant
            i <= bytes@.len(),
            out@ == old(out)@ + bytes@.take(i as int),
        decreases bytes@.len() - i,
    {
        out.push(bytes[i]);
        assert(bytes@.take(i + 1) =~= bytes@.take(i as int).push(bytes@[i as int]));
        i += 1;
    }
    assert(bytes@.take(bytes@.len() as int) =~= bytes@);
}

/// Appends the container around `payload` to `out`: the header, the length
/// of the payload in bytes, the payload, and the sentinel.
pub fn write_container(payload: &str, out: &mut Vec<u8>)
    ensures
        final(out)@ == old(out)@ + container_of(encode_utf8(payload@)),
{
    let bytes = payload.as_bytes();
    let prefix = encode(bytes.len() as u64);
    append_bytes(out, &SAVEFILE_HEADER);
    append_bytes(out, prefix.as_slice());
    append_bytes(out, bytes);
    out.push(SENTINEL);
    assert(out@ =~= old(out)@ + container_of(encode_utf8(payload@)));
}

} // verus!
