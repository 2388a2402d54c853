//! Primitive encodings of the wire format: variable-length unsigned integers,
//! booleans, length-prefixed byte strings and UTF-8 strings.
//!
//! Every encoding is self-delimiting: a reader that knows which kind of value
//! comes next can tell from the bytes alone where it ends.

use vstd::prelude::*;
use vstd::slice::{slice_subrange, slice_to_vec};
use vstd::utf8::{decode_utf8, encode_utf8, valid_utf8};

verus! {

/// Why a byte sequence is not the encoding of a value.
#[derive(Clone, Copy, Debug, PartialEq, Eq, Structural)]
pub enum DecodeFailure {
    /// The input ends before the value does.
    UnexpectedEnd,
    /// An integer starts with a marker that its type does not admit.
    InvalidInteger,
    /// A boolean is neither 0 nor 1.
    InvalidBoolean,
    /// A string is not valid UTF-8.
    InvalidUtf8,
    /// A length cannot be held in memory on this machine.
    LengthOutOfRange,
    /// A variant index names no variant of the type.
    UnexpectedVariant,
}

/// Highest marker byte that a 32-bit integer may start with.
pub const MAX_MARKER_U32: u8 = 252;

/// Highest marker byte that a 64-bit integer may start with.
pub const MAX_MARKER_U64: u8 = 253;

/// `256` to the power `width`.
pub open spec fn radix(width: nat) -> nat
    decreases width,
{
    if width == 0 {
        1
    } else {
        256 * radix((width - 1) as nat)
    }
}

/// The `width` low-order bytes of `v`, least significant first.
pub open spec fn le_bytes(v: nat, width: nat) -> Seq<u8>
    decreases width,
{
    if width == 0 {
        Seq::empty()
    } else {
        seq![(v % 256) as u8] + le_bytes(v / 256, (width - 1) as nat)
    }
}

/// The number whose little-endian bytes are `bytes`.
pub open spec fn le_value(bytes: Seq<u8>) -> nat
    decreases bytes.len(),
{
    if bytes.len() == 0 {
        0
    } else {
        bytes[0] as nat + 256 * le_value(bytes.skip(1))
    }
}

/// The variable-length encoding of an unsigned integer: values up to 250 are
/// one byte; larger ones are a marker byte followed by the value in 2, 4 or 8
/// little-endian bytes, whichever is the shortest that holds it.
pub open spec fn varint(v: nat) -> Seq<u8> {
    if v <= 250 {
        seq![v as u8]
    } else if v < 0x1_0000 {
        seq![251u8] + le_bytes(v, 2)
    } else if v < 0x1_0000_0000 {
        seq![252u8] + le_bytes(v, 4)
    } else {
        seq![253u8] + le_bytes(v, 8)
    }
}

/// Number of payload bytes that follow the marker byte `marker`.
pub open spec fn marker_width(marker: u8) -> nat {
    if marker == 251 {
        2
    } else if marker == 252 {
        4
    } else if marker == 253 {
        8
    } else {
        0
    }
}

/// Reads a variable-length unsigned integer from the front of `bytes`,
/// admitting markers up to `max_marker` (252 for 32-bit values, 253 for 64-bit
/// ones). Gives the value and the number of bytes it occupies. A longer form
/// than necessary is accepted; what follows the integer is ignored.
pub open spec fn parse_varint(bytes: Seq<u8>, max_marker: u8) -> Result<(nat, nat), DecodeFailure> {
    if bytes.len() == 0 {
        Err(DecodeFailure::UnexpectedEnd)
    } else if bytes[0] <= 250 {
        Ok((bytes[0] as nat, 1))
    } else if bytes[0] > max_marker {
        Err(DecodeFailure::InvalidInteger)
    } else if bytes.len() < 1 + marker_width(bytes[0]) {
        Err(DecodeFailure::UnexpectedEnd)
    } else {
        Ok(
            (
                le_value(bytes.subrange(1, 1 + marker_width(bytes[0]) as int)),
                1 + marker_width(bytes[0]),
            ),
        )
    }
}

/// The encoding of a boolean: one byte, 0 or 1.
pub open spec fn bool_byte(b: bool) -> Seq<u8> {
    if b {
        seq![1u8]
    } else {
        seq![0u8]
    }
}

/// Reads a boolean from the front of `bytes`.
pub open spec fn parse_bool(bytes: Seq<u8>) -> Result<(bool, nat), DecodeFailure> {
    if bytes.len() == 0 {
        Err(DecodeFailure::UnexpectedEnd)
    } else if bytes[0] == 0 {
        Ok((false, 1))
    } else if bytes[0] == 1 {
        Ok((true, 1))
    } else {
        Err(DecodeFailure::InvalidBoolean)
    }
}

/// The encoding of a byte string: its length as a variable-length integer,
/// then the bytes themselves.
pub open spec fn bytes_field(data: Seq<u8>) -> Seq<u8> {
    varint(data.len()) + data
}

/// Reads a length-prefixed byte string from the front of `bytes`.
pub open spec fn parse_bytes(bytes: Seq<u8>) -> Result<(Seq<u8>, nat), DecodeFailure> {
    match parse_varint(bytes, MAX_MARKER_U64) {
        Err(e) => Err(e),
        Ok((len, n)) => {
            if len > usize::MAX {
                Err(DecodeFailure::LengthOutOfRange)
            } else if bytes.len() - n < len {
                Err(DecodeFailure::UnexpectedEnd)
            } else {
                Ok((bytes.subrange(n as int, (n + len) as int), n + len))
            }
        },
    }
}

/// The encoding of a string: its UTF-8 bytes as a byte string.
pub open spec fn string_field(s: Seq<char>) -> Seq<u8> {
    bytes_field(encode_utf8(s))
}

/// Reads a length-prefixed UTF-8 string from the front of `bytes`.
pub open spec fn parse_string(bytes: Seq<u8>) -> Result<(Seq<char>, nat), DecodeFailure> {
    match parse_bytes(bytes) {
        Err(e) => Err(e),
        Ok((data, n)) => {
            if valid_utf8(data) {
                Ok((decode_utf8(data), n))
            } else {
                Err(DecodeFailure::InvalidUtf8)
            }
        },
    }
}

/// Reads a 32-bit integer at position `pos` of `bytes`; gives it with the
/// position just behind it.
pub open spec fn u32_at(bytes: Seq<u8>, pos: nat) -> Result<(u32, nat), DecodeFailure> {
    match parse_varint(bytes.skip(pos as int), MAX_MARKER_U32) {
        Ok((v, n)) => Ok((v as u32, pos + n)),
        Err(e) => Err(e),
    }
}

/// Reads a 64-bit integer at position `pos` of `bytes`; gives it with the
/// position just behind it.
pub open spec fn u64_at(bytes: Seq<u8>, pos: nat) -> Result<(u64, nat), DecodeFailure> {
    match parse_varint(bytes.skip(pos as int), MAX_MARKER_U64) {
        Ok((v, n)) => Ok((v as u64, pos + n)),
        Err(e) => Err(e),
    }
}

/// Reads a boolean at position `pos` of `bytes`; gives it with the position
/// just behind it.
pub open spec fn bool_at(bytes: Seq<u8>, pos: nat) -> Result<(bool, nat), DecodeFailure> {
    match parse_bool(bytes.skip(pos as int)) {
        Ok((b, n)) => Ok((b, pos + n)),
        Err(e) => Err(e),
    }
}

/// Reads a byte string at position `pos` of `bytes`; gives it with the
/// position just behind it.
pub open spec fn bytes_at(bytes: Seq<u8>, pos: nat) -> Result<(Seq<u8>, nat), DecodeFailure> {
    match parse_bytes(bytes.skip(pos as int)) {
        Ok((data, n)) => Ok((data, pos + n)),
        Err(e) => Err(e),
    }
}

/// Reads a string at position `pos` of `bytes`; gives it with the position
/// just behind it.
pub open spec fn string_at(bytes: Seq<u8>, pos: nat) -> Result<(Seq<char>, nat), DecodeFailure> {
    match parse_string(bytes.skip(pos as int)) {
        Ok((s, n)) => Ok((s, pos + n)),
        Err(e) => Err(e),
    }
}

/// The powers of 256 that bound 2-, 4- and 8-byte integers.
pub proof fn lemma_radix_values()
    ensures
        radix(1) == 0x100,
        radix(2) == 0x1_0000,
        radix(4) == 0x1_0000_0000,
        radix(8) == 0x1_0000_0000_0000_0000,
{
    reveal_with_fuel(radix, 9);
}

/// `le_bytes` gives exactly `width` bytes.
pub proof fn lemma_le_bytes_len(v: nat, width: nat)
    ensures
        le_bytes(v, width).len() == width,
    decreases width,
{
    if width > 0 {
        lemma_le_bytes_len(v / 256, (width - 1) as nat);
    }
}

/// A little-endian number of `n` bytes is below `256` to the `n`.
pub proof fn lemma_le_value_bound(bytes: Seq<u8>)
    ensures
        le_value(bytes) < radix(bytes.len()),
    decreases bytes.len(),
{
    if bytes.len() > 0 {
        lemma_le_value_bound(bytes.skip(1));
    }
}

/// Reading back the little-endian bytes of a number that fits gives the number.
pub proof fn lemma_le_round_trip(v: nat, width: nat)
    requires
        v < radix(width),
    ensures
        le_value(le_bytes(v, width)) == v,
    decreases width,
{
    if width > 0 {
        let tail = le_bytes(v / 256, (width - 1) as nat);
        lemma_le_round_trip(v / 256, (width - 1) as nat);
        lemma_le_bytes_len(v / 256, (width - 1) as nat);
        assert(le_bytes(v, width).skip(1) =~= tail);
    }
}

/// An encoded integer is 1, 3, 5 or 9 bytes long.
pub proof fn lemma_varint_len(v: nat)
    ensures
        varint(v).len() == if v <= 250 {
            1nat
        } else if v < 0x1_0000 {
            3nat
        } else if v < 0x1_0000_0000 {
            5nat
        } else {
            9nat
        },
{
    lemma_le_bytes_len(v, 2);
    lemma_le_bytes_len(v, 4);
    lemma_le_bytes_len(v, 8);
}

/// What `parse_varint` reads fits the integer type that `max_marker` stands
/// for, and lies within the input.
pub proof fn lemma_parse_varint_bounds(bytes: Seq<u8>, max_marker: u8)
    requires
        max_marker == MAX_MARKER_U32 || max_marker == MAX_MARKER_U64,
    ensures
        parse_varint(bytes, max_marker) matches Ok((v, n)) ==> {
            &&& 1 <= n <= bytes.len()
            &&& n <= 9
            &&& v <= u64::MAX
            &&& max_marker == MAX_MARKER_U32 ==> v <= u32::MAX
        },
{
    lemma_radix_values();
    if bytes.len() > 0 && bytes[0] > 250 && bytes[0] <= max_marker && bytes.len() >= 1
        + marker_width(bytes[0]) {
        lemma_le_value_bound(bytes.subrange(1, 1 + marker_width(bytes[0]) as int));
    }
}

/// Reading an encoded integer gives the integer back and stops where its
/// encoding ends, whatever follows.
pub proof fn lemma_varint_round_trip(v: nat, rest: Seq<u8>, max_marker: u8)
    requires
        v <= u64::MAX,
        max_marker == MAX_MARKER_U64 || (max_marker == MAX_MARKER_U32 && v <= u32::MAX),
    ensures
        parse_varint(varint(v) + rest, max_marker) == Ok::<(nat, nat), DecodeFailure>(
            (v, varint(v).len()),
        ),
{
    lemma_radix_values();
    lemma_varint_len(v);
    let bytes = varint(v) + rest;
    if v > 250 {
        let width: nat = if v < 0x1_0000 {
            2
        } else if v < 0x1_0000_0000 {
            4
        } else {
            8
        };
        lemma_le_bytes_len(v, width);
        lemma_le_round_trip(v, width);
        assert(bytes.subrange(1, 1 + width as int) =~= le_bytes(v, width));
    }
}

/// Reading an encoded boolean gives it back.
pub proof fn lemma_bool_round_trip(b: bool, rest: Seq<u8>)
    ensures
        parse_bool(bool_byte(b) + rest) == Ok::<(bool, nat), DecodeFailure>((b, 1)),
        bool_byte(b).len() == 1,
{
}

/// Reading an encoded byte string gives it back and stops where its encoding
/// ends, whatever follows.
pub proof fn lemma_bytes_round_trip(data: Seq<u8>, rest: Seq<u8>)
    requires
        data.len() <= usize::MAX,
    ensures
        parse_bytes(bytes_field(data) + rest) == Ok::<(Seq<u8>, nat), DecodeFailure>(
            (data, bytes_field(data).len()),
        ),
{
    let head = varint(data.len());
    let bytes = bytes_field(data) + rest;
    assert(bytes =~= head + (data + rest));
    lemma_varint_round_trip(data.len(), data + rest, MAX_MARKER_U64);
    assert(bytes.subrange(head.len() as int, (head.len() + data.len()) as int) =~= data);
}

/// Reading an encoded string gives it back and stops where its encoding ends,
/// whatever follows.
pub proof fn lemma_string_round_trip(s: Seq<char>, rest: Seq<u8>)
    requires
        encode_utf8(s).len() <= usize::MAX,
    ensures
        parse_string(string_field(s) + rest) == Ok::<(Seq<char>, nat), DecodeFailure>(
            (s, string_field(s).len()),
        ),
{
    lemma_bytes_round_trip(encode_utf8(s), rest);
    vstd::utf8::encode_utf8_valid_utf8(s);
    vstd::utf8::encode_utf8_decode_utf8(s);
}

/// Where the bytes from `pos` on are `field` followed by `rest`, the bytes
/// from behind `field` on are `rest`.
pub proof fn lemma_advance(bytes: Seq<u8>, pos: nat, field: Seq<u8>, rest: Seq<u8>)
    requires
        pos <= bytes.len(),
        bytes.skip(pos as int) == field + rest,
    ensures
        pos + field.len() <= bytes.len(),
        bytes.skip((pos + field.len()) as int) == rest,
{
    assert(bytes.skip(pos as int).len() == field.len() + rest.len());
    assert(bytes.skip((pos + field.len()) as int) =~= bytes.skip(pos as int).skip(
        field.len() as int,
    ));
    assert((field + rest).skip(field.len() as int) =~= rest);
}

/// Where the bytes from `pos` on begin with the encoding of `v`, reading a
/// 32-bit integer at `pos` gives `v` and the position behind the encoding.
pub proof fn lemma_u32_at(bytes: Seq<u8>, pos: nat, v: u32, rest: Seq<u8>)
    requires
        pos <= bytes.len(),
        bytes.skip(pos as int) == varint(v as nat) + rest,
    ensures
        u32_at(bytes, pos) == Ok::<(u32, nat), DecodeFailure>((v, pos + varint(v as nat).len())),
        pos + varint(v as nat).len() <= bytes.len(),
        bytes.skip((pos + varint(v as nat).len()) as int) == rest,
{
    lemma_varint_round_trip(v as nat, rest, MAX_MARKER_U32);
    lemma_advance(bytes, pos, varint(v as nat), rest);
}

/// Where the bytes from `pos` on begin with the encoding of `v`, reading a
/// 64-bit integer at `pos` gives `v` and the position behind the encoding.
pub proof fn lemma_u64_at(bytes: Seq<u8>, pos: nat, v: u64, rest: Seq<u8>)
    requires
        pos <= bytes.len(),
        bytes.skip(pos as int) == varint(v as nat) + rest,
    ensures
        u64_at(bytes, pos) == Ok::<(u64, nat), DecodeFailure>((v, pos + varint(v as nat).len())),
        pos + varint(v as nat).len() <= bytes.len(),
        bytes.skip((pos + varint(v as nat).len()) as int) == rest,
{
    lemma_varint_round_trip(v as nat, rest, MAX_MARKER_U64);
    lemma_advance(bytes, pos, varint(v as nat), rest);
}

/// Where the bytes from `pos` on begin with the encoding of `b`, reading a
/// boolean at `pos` gives `b` and the next position.
pub proof fn lemma_bool_at(bytes: Seq<u8>, pos: nat, b: bool, rest: Seq<u8>)
    requires
        pos <= bytes.len(),
        bytes.skip(pos as int) == bool_byte(b) + rest,
    ensures
        bool_at(bytes, pos) == Ok::<(bool, nat), DecodeFailure>((b, pos + 1)),
        bool_byte(b).len() == 1,
        pos + 1 <= bytes.len(),
        bytes.skip((pos + 1) as int) == rest,
{
    lemma_bool_round_trip(b, rest);
    lemma_advance(bytes, pos, bool_byte(b), rest);
}

/// Where the bytes from `pos` on begin with the encoding of `data`, reading a
/// byte string at `pos` gives `data` and the position behind the encoding.
pub proof fn lemma_bytes_at(bytes: Seq<u8>, pos: nat, data: Seq<u8>, rest: Seq<u8>)
    requires
        pos <= bytes.len(),
        data.len() <= usize::MAX,
        bytes.skip(pos as int) == bytes_field(data) + rest,
    ensures
        bytes_at(bytes, pos) == Ok::<(Seq<u8>, nat), DecodeFailure>(
            (data, pos + bytes_field(data).len()),
        ),
        pos + bytes_field(data).len() <= bytes.len(),
        bytes.skip((pos + bytes_field(data).len()) as int) == rest,
{
    lemma_bytes_round_trip(data, rest);
    lemma_advance(bytes, pos, bytes_field(data), rest);
}

/// Where the bytes from `pos` on begin with the encoding of `s`, reading a
/// string at `pos` gives `s` and the position behind the encoding.
pub proof fn lemma_string_at(bytes: Seq<u8>, pos: nat, s: Seq<char>, rest: Seq<u8>)
    requires
        pos <= bytes.len(),
        encode_utf8(s).len() <= usize::MAX,
        bytes.skip(pos as int) == string_field(s) + rest,
    ensures
        string_at(bytes, pos) == Ok::<(Seq<char>, nat), DecodeFailure>(
            (s, pos + string_field(s).len()),
        ),
        pos + string_field(s).len() <= bytes.len(),
        bytes.skip((pos + string_field(s).len()) as int) == rest,
{
    lemma_string_round_trip(s, rest);
    lemma_advance(bytes, pos, string_field(s), rest);
}

/// More input behind it changes nothing of what an integer reads as, unless
/// the input ended before the integer did. What is read lies within the
/// input.
pub proof fn lemma_varint_extends(bytes: Seq<u8>, pos: nat, more: Seq<u8>, max_marker: u8)
    requires
        pos <= bytes.len(),
        max_marker == MAX_MARKER_U32 || max_marker == MAX_MARKER_U64,
    ensures
        (bytes + more).skip(pos as int) == bytes.skip(pos as int) + more,
        parse_varint(bytes.skip(pos as int), max_marker) != Err::<(nat, nat), DecodeFailure>(
            DecodeFailure::UnexpectedEnd,
        ) ==> parse_varint((bytes + more).skip(pos as int), max_marker) == parse_varint(
            bytes.skip(pos as int),
            max_marker,
        ),
        parse_varint(bytes.skip(pos as int), max_marker) matches Ok(p) ==> pos + p.1
            <= bytes.len(),
{
    let here = bytes.skip(pos as int);
    assert((bytes + more).skip(pos as int) =~= here + more);
    lemma_parse_varint_bounds(here, max_marker);
    if here.len() > 0 && here[0] > 250 && here[0] <= max_marker && here.len() >= 1 + marker_width(
        here[0],
    ) {
        let w = marker_width(here[0]);
        assert((here + more).subrange(1, 1 + w as int) =~= here.subrange(1, 1 + w as int));
    }
}

/// More input behind it changes nothing of what a 32-bit integer at `pos`
/// reads as, unless the input ended before the integer did.
pub proof fn lemma_u32_at_extends(bytes: Seq<u8>, pos: nat, more: Seq<u8>)
    requires
        pos <= bytes.len(),
    ensures
        u32_at(bytes, pos) != Err::<(u32, nat), DecodeFailure>(DecodeFailure::UnexpectedEnd) ==> u32_at(
            bytes + more,
            pos,
        ) == u32_at(bytes, pos),
        u32_at(bytes, pos) matches Ok(p) ==> pos < p.1 <= bytes.len(),
{
    lemma_varint_extends(bytes, pos, more, MAX_MARKER_U32);
    lemma_parse_varint_bounds(bytes.skip(pos as int), MAX_MARKER_U32);
}

/// More input behind it changes nothing of what a 64-bit integer at `pos`
/// reads as, unless the input ended before the integer did.
pub proof fn lemma_u64_at_extends(bytes: Seq<u8>, pos: nat, more: Seq<u8>)
    requires
        pos <= bytes.len(),
    ensures
        u64_at(bytes, pos) != Err::<(u64, nat), DecodeFailure>(DecodeFailure::UnexpectedEnd) ==> u64_at(
            bytes + more,
            pos,
        ) == u64_at(bytes, pos),
        u64_at(bytes, pos) matches Ok(p) ==> pos < p.1 <= bytes.len(),
{
    lemma_varint_extends(bytes, pos, more, MAX_MARKER_U64);
    lemma_parse_varint_bounds(bytes.skip(pos as int), MAX_MARKER_U64);
}

/// More input behind it changes nothing of what a boolean at `pos` reads as,
/// unless the input ended in front of it.
pub proof fn lemma_bool_at_extends(bytes: Seq<u8>, pos: nat, more: Seq<u8>)
    requires
        pos <= bytes.len(),
    ensures
        bool_at(bytes, pos) != Err::<(bool, nat), DecodeFailure>(DecodeFailure::UnexpectedEnd)
            ==> bool_at(bytes + more, pos) == bool_at(bytes, pos),
        bool_at(bytes, pos) matches Ok(p) ==> pos < p.1 <= bytes.len(),
{
    assert((bytes + more).skip(pos as int) =~= bytes.skip(pos as int) + more);
}

/// More input behind it changes nothing of what a byte string at `pos` reads
/// as, unless the input ended before the byte string did.
pub proof fn lemma_bytes_at_extends(bytes: Seq<u8>, pos: nat, more: Seq<u8>)
    requires
        pos <= bytes.len(),
    ensures
        bytes_at(bytes, pos) != Err::<(Seq<u8>, nat), DecodeFailure>(DecodeFailure::UnexpectedEnd)
            ==> bytes_at(bytes + more, pos) == bytes_at(bytes, pos),
        bytes_at(bytes, pos) matches Ok(p) ==> pos < p.1 <= bytes.len(),
{
    let here = bytes.skip(pos as int);
    lemma_varint_extends(bytes, pos, more, MAX_MARKER_U64);
    lemma_parse_varint_bounds(here, MAX_MARKER_U64);
    match parse_varint(here, MAX_MARKER_U64) {
        Ok((len, n)) => {
            if len <= usize::MAX && here.len() - n >= len {
                assert((here + more).subrange(n as int, (n + len) as int) =~= here.subrange(
                    n as int,
                    (n + len) as int,
                ));
            }
        },
        Err(_) => {},
    }
}

/// More input behind it changes nothing of what a string at `pos` reads as,
/// unless the input ended before the string did.
pub proof fn lemma_string_at_extends(bytes: Seq<u8>, pos: nat, more: Seq<u8>)
    requires
        pos <= bytes.len(),
    ensures
        string_at(bytes, pos) != Err::<(Seq<char>, nat), DecodeFailure>(DecodeFailure::UnexpectedEnd)
            ==> string_at(bytes + more, pos) == string_at(bytes, pos),
        string_at(bytes, pos) matches Ok(p) ==> pos < p.1 <= bytes.len(),
{
    lemma_bytes_at_extends(bytes, pos, more);
}

/// A message that is a variant index followed by fields reads back as that
/// index, and the fields start right behind it.
pub proof fn lemma_tagged(bytes: Seq<u8>, tag: u32, fields: Seq<u8>, rest: Seq<u8>)
    requires
        bytes == varint(tag as nat) + fields + rest,
    ensures
        u32_at(bytes, 0) == Ok::<(u32, nat), DecodeFailure>((tag, varint(tag as nat).len())),
        varint(tag as nat).len() <= bytes.len(),
        bytes.skip(varint(tag as nat).len() as int) == fields + rest,
{
    assert(bytes.skip(0) =~= varint(tag as nat) + (fields + rest));
    lemma_u32_at(bytes, 0, tag, fields + rest);
}

/// `bincode::error::EncodeError`: why bincode could not encode a value.
/// Nothing is read from it.
#[verifier::external_type_specification]
#[verifier::external_body]
pub struct ExEncodeError(bincode::error::EncodeError);

/// `bincode::error::DecodeError`: why bincode could not decode a value.
/// Nothing is read from it: which error of this library applies is decided
/// from the bytes.
#[verifier::external_type_specification]
#[verifier::external_body]
pub struct ExDecodeError(bincode::error::DecodeError);

/// `std::string::FromUtf8Error`: why bytes are not a string. Nothing is read
/// from it.
#[verifier::external_type_specification]
#[verifier::external_body]
pub struct ExFromUtf8Error(std::string::FromUtf8Error);

/// `bincode::encode_to_vec` on a `u64` with `bincode::config::standard()`.
/// That configuration is little-endian with variable-length integers, and
/// writing into a vector cannot fail: the result is always `Ok` and holds
/// exactly the variable-length encoding of `v`.
#[verifier::external_body]
fn bincode_encode_u64(v: u64) -> (out: Result<Vec<u8>, bincode::error::EncodeError>)
    ensures
        out is Ok,
        out->Ok_0@ == varint(v as nat),
{
    bincode::encode_to_vec(v, bincode::config::standard())
}

/// `bincode::encode_to_vec` on a `u32` with `bincode::config::standard()`:
/// always `Ok`, holding the variable-length encoding of `v`.
#[verifier::external_body]
fn bincode_encode_u32(v: u32) -> (out: Result<Vec<u8>, bincode::error::EncodeError>)
    ensures
        out is Ok,
        out->Ok_0@ == varint(v as nat),
{
    bincode::encode_to_vec(v, bincode::config::standard())
}

/// `bincode::decode_from_slice` for a `u64` with `bincode::config::standard()`.
/// It succeeds exactly where `parse_varint` with markers up to 253 does, and
/// then gives the same value and the same number of bytes read.
#[verifier::external_body]
fn bincode_decode_u64(bytes: &[u8]) -> (out: Result<(u64, usize), bincode::error::DecodeError>)
    ensures
        out is Ok <==> parse_varint(bytes@, MAX_MARKER_U64) is Ok,
        out matches Ok(p) ==> parse_varint(bytes@, MAX_MARKER_U64)->Ok_0 == (p.0 as nat, p.1 as nat),
{
    bincode::decode_from_slice::<u64, _>(bytes, bincode::config::standard())
}

/// `bincode::decode_from_slice` for a `u32` with `bincode::config::standard()`.
/// It succeeds exactly where `parse_varint` with markers up to 252 does, and
/// then gives the same value and the same number of bytes read.
#[verifier::external_body]
fn bincode_decode_u32(bytes: &[u8]) -> (out: Result<(u32, usize), bincode::error::DecodeError>)
    ensures
        out is Ok <==> parse_varint(bytes@, MAX_MARKER_U32) is Ok,
        out matches Ok(p) ==> parse_varint(bytes@, MAX_MARKER_U32)->Ok_0 == (p.0 as nat, p.1 as nat),
{
    bincode::decode_from_slice::<u32, _>(bytes, bincode::config::standard())
}

/// `String::from_utf8`: succeeds exactly where the bytes are well-formed
/// UTF-8, and the string it gives has the input as its UTF-8 bytes.
#[verifier::external_body]
fn string_from_utf8(bytes: Vec<u8>) -> (out: Result<String, std::string::FromUtf8Error>)
    ensures
        out is Ok <==> valid_utf8(bytes@),
        out matches Ok(s) ==> encode_utf8(s@) == bytes@,
{
    String::from_utf8(bytes)
}

/// The string that the bytes spell, where they are well-formed UTF-8.
pub fn utf8_to_string(bytes: Vec<u8>) -> (out: Option<String>)
    ensures
        match out {
            Some(s) => valid_utf8(bytes@) && s@ == decode_utf8(bytes@),
            None => !valid_utf8(bytes@),
        },
{
    match string_from_utf8(bytes) {
        Ok(s) => {
            proof {
                vstd::utf8::encode_utf8_decode_utf8(s@);
            }
            Some(s)
        },
        Err(_) => None,
    }
}

/// Appends the encoding of `v` to `out`.
pub fn put_u64(out: &mut Vec<u8>, v: u64)
    ensures
        final(out)@ == old(out)@ + varint(v as nat),
{
    match bincode_encode_u64(v) {
        Ok(mut bytes) => {
            out.append(&mut bytes);
        },
        Err(_) => {},
    }
}

/// Appends the encoding of `v` to `out`.
pub fn put_u32(out: &mut Vec<u8>, v: u32)
    ensures
        final(out)@ == old(out)@ + varint(v as nat),
{
    match bincode_encode_u32(v) {
        Ok(mut bytes) => {
            out.append(&mut bytes);
        },
        Err(_) => {},
    }
}

/// Appends the encoding of `b` to `out`.
pub fn put_bool(out: &mut Vec<u8>, b: bool)
    ensures
        final(out)@ == old(out)@ + bool_byte(b),
{
    let byte: u8 = if b {
        1
    } else {
        0
    };
    out.push(byte);
    assert(out@ =~= old(out)@ + bool_byte(b));
}

/// Appends the encoding of the byte string `data` to `out`.
pub fn put_bytes(out: &mut Vec<u8>, data: &[u8])
    ensures
        final(out)@ == old(out)@ + bytes_field(data@),
        data@.len() <= usize::MAX,
{
    put_u64(out, data.len() as u64);
    let mut copy = slice_to_vec(data);
    out.append(&mut copy);
    assert(out@ =~= old(out)@ + bytes_field(data@));
}

/// Appends the encoding of the string `s` to `out`.
pub fn put_str(out: &mut Vec<u8>, s: &str)
    ensures
        final(out)@ == old(out)@ + string_field(s@),
        encode_utf8(s@).len() <= usize::MAX,
{
    let utf8 = s.as_bytes();
    let _len: usize = utf8.len();
    put_bytes(out, utf8);
}

/// Which error a failed read of an integer at the front of `rest` stands for.
fn varint_failure(rest: &[u8], max_marker: u8) -> (e: DecodeFailure)
    requires
        max_marker >= 250,
        parse_varint(rest@, max_marker) is Err,
    ensures
        parse_varint(rest@, max_marker) == Err::<(nat, nat), DecodeFailure>(e),
{
    if rest.len() > 0 && rest[0] > max_marker {
        DecodeFailure::InvalidInteger
    } else {
        DecodeFailure::UnexpectedEnd
    }
}

/// Reads a 64-bit integer at `pos`; on success gives it with the position
/// just behind it.
pub fn take_u64(bytes: &[u8], pos: usize) -> (res: Result<(u64, usize), DecodeFailure>)
    requires
        pos <= bytes@.len(),
    ensures
        match u64_at(bytes@, pos as nat) {
            Ok((v, end)) => res matches Ok(p) && p.0 == v && p.1 == end && pos < end
                <= bytes@.len(),
            Err(e) => res matches Err(f) && f == e,
        },
{
    let rest = slice_subrange(bytes, pos, bytes.len());
    assert(rest@ =~= bytes@.skip(pos as int));
    proof {
        lemma_parse_varint_bounds(rest@, MAX_MARKER_U64);
    }
    match bincode_decode_u64(rest) {
        Ok((v, n)) => Ok((v, pos + n)),
        Err(_) => Err(varint_failure(rest, MAX_MARKER_U64)),
    }
}

/// Reads a 32-bit integer at `pos`; on success gives it with the position
/// just behind it.
pub fn take_u32(bytes: &[u8], pos: usize) -> (res: Result<(u32, usize), DecodeFailure>)
    requires
        pos <= bytes@.len(),
    ensures
        match u32_at(bytes@, pos as nat) {
            Ok((v, end)) => res matches Ok(p) && p.0 == v && p.1 == end && pos < end
                <= bytes@.len(),
            Err(e) => res matches Err(f) && f == e,
        },
{
    let rest = slice_subrange(bytes, pos, bytes.len());
    assert(rest@ =~= bytes@.skip(pos as int));
    proof {
        lemma_parse_varint_bounds(rest@, MAX_MARKER_U32);
    }
    match bincode_decode_u32(rest) {
        Ok((v, n)) => Ok((v, pos + n)),
        Err(_) => Err(varint_failure(rest, MAX_MARKER_U32)),
    }
}

/// Reads a boolean at `pos`; on success gives it with the position just
/// behind it.
pub fn take_bool(bytes: &[u8], pos: usize) -> (res: Result<(bool, usize), DecodeFailure>)
    requires
        pos <= bytes@.len(),
    ensures
        match bool_at(bytes@, pos as nat) {
            Ok((b, end)) => res matches Ok(p) && p.0 == b && p.1 == end && pos < end
                <= bytes@.len(),
            Err(e) => res matches Err(f) && f == e,
        },
{
    if pos >= bytes.len() {
        return Err(DecodeFailure::UnexpectedEnd);
    }
    let byte: u8 = bytes[pos];
    assert(bytes@.skip(pos as int)[0] == byte);
    if byte == 0 {
        Ok((false, pos + 1))
    } else if byte == 1 {
        Ok((true, pos + 1))
    } else {
        Err(DecodeFailure::InvalidBoolean)
    }
}

/// Reads a length-prefixed byte string at `pos`; on success gives it with the
/// position just behind it. Nothing is allocated before the input is known to
/// hold as many bytes as the prefix announces.
pub fn take_bytes(bytes: &[u8], pos: usize) -> (res: Result<(Vec<u8>, usize), DecodeFailure>)
    requires
        pos <= bytes@.len(),
    ensures
        match bytes_at(bytes@, pos as nat) {
            Ok((data, end)) => res matches Ok(p) && p.0@ == data && p.1 == end && pos < end
                <= bytes@.len(),
            Err(e) => res matches Err(f) && f == e,
        },
{
    proof {
        lemma_parse_varint_bounds(bytes@.skip(pos as int), MAX_MARKER_U64);
    }
    let (len, start) = match take_u64(bytes, pos) {
        Ok(p) => p,
        Err(e) => {
            return Err(e);
        },
    };
    if len > usize::MAX as u64 {
        return Err(DecodeFailure::LengthOutOfRange);
    }
    let len: usize = len as usize;
    if len > bytes.len() - start {
        return Err(DecodeFailure::UnexpectedEnd);
    }
    let data = slice_to_vec(slice_subrange(bytes, start, start + len));
    assert(data@ =~= bytes@.skip(pos as int).subrange(start - pos, start - pos + len));
    Ok((data, start + len))
}

/// Reads a length-prefixed UTF-8 string at `pos`; on success gives it with
/// the position just behind it.
pub fn take_string(bytes: &[u8], pos: usize) -> (res: Result<(String, usize), DecodeFailure>)
    requires
        pos <= bytes@.len(),
    ensures
        match string_at(bytes@, pos as nat) {
            Ok((s, end)) => res matches Ok(p) && p.0@ == s && p.1 == end && pos < end
                <= bytes@.len(),
            Err(e) => res matches Err(f) && f == e,
        },
{
    let (data, end) = match take_bytes(bytes, pos) {
        Ok(p) => p,
        Err(e) => {
            return Err(e);
        },
    };
    match utf8_to_string(data) {
        Some(s) => Ok((s, end)),
        None => Err(DecodeFailure::InvalidUtf8),
    }
}

} // verus!
