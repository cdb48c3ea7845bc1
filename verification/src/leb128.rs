//! Unsigned LEB128: a variable-length integer code with seven value bits per
//! byte, least significant group first, and the high bit of a byte set when
//! more bytes follow.

use nano_leb128::{LEB128DecodeError, ULEB128};
use vstd::prelude::*;

verus! {

/// Why a length prefix could not be decoded.
#[derive(Debug, Clone, Copy, PartialEq, Eq, Structural)]
pub enum LengthError {
    /// The input ended before a byte with a clear high bit was found.
    MalformedLength,
    /// The encoded value does not fit in 64 bits.
    IntegerOverflow,
}

/// The bytes that encode `value`.
pub open spec fn encoding(value: nat) -> Seq<u8>
    decreases value,
{
    if value < 128 {
        seq![value as u8]
    } else {
        seq![(value % 128 + 128) as u8] + encoding(value / 128)
    }
}

/// Decoding of `bytes` when `depth` groups have already been read. The
/// tenth group holds the one bit that is left of a 64-bit value, so a tenth
/// byte above one overflows, whether or not its high bit is set.
pub open spec fn decoding_from(bytes: Seq<u8>, depth: nat) -> Result<(nat, nat), LengthError>
    decreases bytes.len(),
{
    if bytes.len() == 0 {
        Err(LengthError::MalformedLength)
    } else if depth == 9 && bytes[0] > 1 {
        Err(LengthError::IntegerOverflow)
    } else if bytes[0] < 128 {
        Ok((bytes[0] as nat, 1))
    } else {
        match decoding_from(bytes.skip(1), depth + 1) {
            Ok((rest, used)) => Ok(((bytes[0] - 128) as nat + 128 * rest, used + 1)),
            Err(e) => Err(e),
        }
    }
}

/// The value at the front of `bytes` and the number of bytes it occupies.
pub open spec fn decoding(bytes: Seq<u8>) -> Result<(nat, nat), LengthError> {
    decoding_from(bytes, 0)
}

/// Calls `ULEB128::read_from` of nano-leb128. The claim: it reads groups of
/// seven bits from the front of the buffer until a byte with a clear high
/// bit, reports a buffer overflow when the bytes run out first, and an
/// integer overflow when a tenth byte is above one; on success it returns
/// the value and the number of bytes read.
#[verifier::external_body]
fn read_uleb128(bytes: &[u8]) -> (r: Result<(u64, usize), LengthError>)
    ensures
        match r {
            Ok((value, used)) => decoding(bytes@) == Ok::<(nat, nat), LengthError>(
                (value as nat, used as nat),
            ),
            Err(e) => decoding(bytes@) == Err::<(nat, nat), LengthError>(e),
        },
{
    match ULEB128::read_from(bytes) {
        Ok((value, used)) => Ok((u64::from(value), used)),
        Err(LEB128DecodeError::BufferOverflow) => Err(LengthError::MalformedLength),
        Err(LEB128DecodeError::IntegerOverflow) => Err(LengthError::IntegerOverflow),
    }
}

/// Calls `ULEB128::write_into` of nano-leb128 on a buffer of ten bytes, the
/// most a 64-bit value takes. The claim: it writes the low seven bits of the
/// value, with the high bit set while higher bits remain, and goes on with
/// the value shifted right by seven; the bytes written are returned.
#[verifier::external_body]
fn write_uleb128(value: u64) -> (r: Option<Vec<u8>>)
    ensures
        match r {
            Some(bytes) => bytes@ == encoding(value as nat),
            None => false,
        },
{
    let mut buffer = [0u8; 10];
    match ULEB128::from(value).write_into(&mut buffer) {
        Ok(written) => Some(buffer[..written].to_vec()),
        Err(_) => None,
    }
}

/// One more than the largest value that may still follow once `depth`
/// groups of seven bits have been read: two to the power `64 - 7 * depth`.
pub open spec fn headroom(depth: nat) -> nat {
    if depth == 0 {
        0x1_0000_0000_0000_0000
    } else if depth == 1 {
        0x200_0000_0000_0000
    } else if depth == 2 {
        0x4_0000_0000_0000
    } else if depth == 3 {
        0x800_0000_0000
    } else if depth == 4 {
        0x10_0000_0000
    } else if depth == 5 {
        0x2000_0000
    } else if depth == 6 {
        0x40_0000
    } else if depth == 7 {
        0x8000
    } else if depth == 8 {
        0x100
    } else {
        2
    }
}

/// A successful decoding reads between one and ten bytes, none past the end
/// of the input, and yields a value that fits in 64 bits.
pub proof fn lemma_decoding_bounds(bytes: Seq<u8>, depth: nat)
    requires
        depth <= 9,
        decoding_from(bytes, depth) is Ok,
    ensures
        1 <= decoding_from(bytes, depth)->Ok_0.1 <= bytes.len(),
        decoding_from(bytes, depth)->Ok_0.1 + depth <= 10,
        decoding_from(bytes, depth)->Ok_0.0 < headroom(depth),
    decreases bytes.len(),
{
    if bytes[0] >= 128 {
        lemma_decoding_bounds(bytes.skip(1), depth + 1);
    }
}

/// A successful decoding looks at the bytes it reads and at no others: it
/// is the same whatever follows them.
pub proof fn lemma_decoding_ignores_what_follows(bytes: Seq<u8>, tail: Seq<u8>, depth: nat)
    requires
        decoding_from(bytes, depth) is Ok,
    ensures
        decoding_from(bytes + tail, depth) == decoding_from(bytes, depth),
    decreases bytes.len(),
{
    if bytes[0] >= 128 && !(depth == 9 && bytes[0] > 1) {
        lemma_decoding_ignores_what_follows(bytes.skip(1), tail, depth + 1);
        assert((bytes + tail).skip(1) == bytes.skip(1) + tail);
    }
}

/// Every 64-bit value is encoded in one to ten bytes.
pub proof fn lemma_encoding_len(value: nat, depth: nat)
    requires
        depth <= 9,
        value < headroom(depth),
    ensures
        1 <= encoding(value).len(),
        encoding(value).len() + depth <= 10,
    decreases value,
{
    if value >= 128 {
        lemma_encoding_len(value / 128, depth + 1);
    }
}

/// Decoding inverts encoding: the bytes of a value, followed by anything,
/// decode to that value and to the number of bytes that encode it.
pub proof fn lemma_decoding_of_encoding(value: nat, rest: Seq<u8>, depth: nat)
    requires
        depth <= 9,
        value < headroom(depth),
    ensures
        decoding_from(encoding(value) + rest, depth) == Ok::<(nat, nat), LengthError>(
            (value, encoding(value).len()),
        ),
    decreases value,
{
    let bytes = encoding(value) + rest;
    if value >= 128 {
        lemma_decoding_of_encoding(value / 128, rest, depth + 1);
        assert(bytes.skip(1) == encoding(value / 128) + rest);
    }
}

/// Decoding inverts encoding for every 64-bit value.
pub proof fn lemma_decode_inverts_encode(value: u64, rest: Seq<u8>)
    ensures
        decoding(encoding(value as nat) + rest) == Ok::<(nat, nat), LengthError>(
            (value as nat, encoding(value as nat).len()),
        ),
        1 <= encoding(value as nat).len() <= 10,
{
    lemma_decoding_of_encoding(value as nat, rest, 0);
    lemma_encoding_len(value as nat, 0);
}

/// Encodes `value` in one to ten bytes.
pub fn encode(value: u64) -> (bytes: Vec<u8>)
    ensures
        bytes@ == encoding(value as nat),
        1 <= bytes@.len() <= 10,
{
    proof {
        lemma_encoding_len(value as nat, 0);
    }
    write_uleb128(value).unwrap()
}

/// Decodes the value at the front of `bytes` and reports how many bytes it
/// occupies.
pub fn decode(bytes: &[u8]) -> (r: Result<(u64, usize), LengthError>)
    ensures
        match r {
            Ok((value, used)) => {
                &&& decoding(bytes@) == Ok::<(nat, nat), LengthError>((value as nat, used as nat))
                &&& 1 <= used <= bytes@.len()
                &&& used <= 10
            },
            Err(e) => decoding(bytes@) == Err::<(nat, nat), LengthError>(e),
        },
{
    let r = read_uleb128(bytes);
    proof {
        if r is Ok {
            lemma_decoding_bounds(bytes@, 0);
        }
    }
    r
}

} // verus!
