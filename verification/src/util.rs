//! Primitive reads: fixed-width integers, raw bytes, UTF-8 text, base-128
//! varints, and the length-prefixed strings and collections built from them.
//!
//! Every read has a mathematical counterpart, a `parse_*` function from the
//! unread bytes to either a value and the bytes that follow it, or the fault.
//! The executable read is proved to return what its counterpart says and to
//! leave the cursor where its counterpart says.

use crate::collections::{texts, StringMap, StringSet};
use crate::cursor::{
    copy_to_vec, get_i64, get_u32, get_u32_le, get_u64, get_u8, i64_be, remaining, u32_be, u32_le,
    u64_be, unread,
};
use bytes::Bytes;
use std::string::FromUtf8Error;
use vstd::prelude::*;
use vstd::utf8::{decode_utf8, valid_utf8};

verus! {

/// Length in bytes of every identifier in the format.
pub const ID_LENGTH: usize = 16;

/// A fault of the cursor or of a primitive decoder.
#[derive(Debug, Clone, Copy, PartialEq, Eq, Structural)]
pub enum ReadError {
    /// The input ended before the requested bytes.
    UnexpectedEof,
    /// The requested span is not valid UTF-8.
    InvalidEncoding,
    /// A varint went on past the bytes its width allows.
    VarIntOverflow,
}

/// `after` is the end of `before`: what is left of `before` when the bytes in
/// front of `after` are skipped.
#[verifier::opaque]
pub open spec fn is_end_of(after: Seq<u8>, before: Seq<u8>) -> bool {
    after =~= before.skip(before.len() - after.len())
}

/// `after` is `before` with some bytes taken off its front: a cursor that held
/// `before` and now holds `after` has only moved forward, and not past the end.
pub open spec fn advanced(before: Seq<u8>, after: Seq<u8>) -> bool {
    after.len() <= before.len() && is_end_of(after, before)
}

/// Where a read leaves the cursor, given what its parse says: never before
/// where it was, and after a success exactly at the rest that the parse names.
pub open spec fn left_by<T, E>(
    parsed: Result<(T, Seq<u8>), E>,
    before: Seq<u8>,
    after: Seq<u8>,
) -> bool {
    advanced(before, after) && (parsed matches Ok((_, rest)) ==> after == rest)
}

/// Skipping bytes moves forward.
pub proof fn lemma_advanced_skip(s: Seq<u8>, n: int)
    requires
        0 <= n <= s.len(),
    ensures
        advanced(s, s.skip(n)),
{
    reveal(is_end_of);
}

/// Moving forward twice is moving forward.
pub proof fn lemma_advanced_trans(a: Seq<u8>, b: Seq<u8>, c: Seq<u8>)
    requires
        advanced(a, b),
        advanced(b, c),
    ensures
        advanced(a, c),
{
    reveal(is_end_of);
}

/// Staying in place is moving forward, by nothing.
pub proof fn lemma_advanced_refl(s: Seq<u8>)
    ensures
        advanced(s, s),
{
    reveal(is_end_of);
}

/// One byte.
pub open spec fn parse_u8(s: Seq<u8>) -> Result<(u8, Seq<u8>), ReadError> {
    if s.len() < 1 {
        Err(ReadError::UnexpectedEof)
    } else {
        Ok((s[0], s.skip(1)))
    }
}

/// Four bytes, most significant first.
pub open spec fn parse_u32_be(s: Seq<u8>) -> Result<(u32, Seq<u8>), ReadError> {
    if s.len() < 4 {
        Err(ReadError::UnexpectedEof)
    } else {
        Ok((u32_be(s), s.skip(4)))
    }
}

/// Four bytes, least significant first.
pub open spec fn parse_u32_le(s: Seq<u8>) -> Result<(u32, Seq<u8>), ReadError> {
    if s.len() < 4 {
        Err(ReadError::UnexpectedEof)
    } else {
        Ok((u32_le(s), s.skip(4)))
    }
}

/// Eight bytes, most significant first.
pub open spec fn parse_u64_be(s: Seq<u8>) -> Result<(u64, Seq<u8>), ReadError> {
    if s.len() < 8 {
        Err(ReadError::UnexpectedEof)
    } else {
        Ok((u64_be(s), s.skip(8)))
    }
}

/// Eight bytes in two's complement, most significant first.
pub open spec fn parse_i64_be(s: Seq<u8>) -> Result<(i64, Seq<u8>), ReadError> {
    if s.len() < 8 {
        Err(ReadError::UnexpectedEof)
    } else {
        Ok((i64_be(s), s.skip(8)))
    }
}

/// The next `length` bytes as they are.
pub open spec fn parse_bytes(s: Seq<u8>, length: nat) -> Result<(Seq<u8>, Seq<u8>), ReadError> {
    if s.len() < length {
        Err(ReadError::UnexpectedEof)
    } else {
        Ok((s.take(length as int), s.skip(length as int)))
    }
}

/// The next `length` bytes as UTF-8 text.
pub open spec fn parse_utf8(s: Seq<u8>, length: nat) -> Result<(Seq<char>, Seq<u8>), ReadError> {
    match parse_bytes(s, length) {
        Err(e) => Err(e),
        Ok((raw, rest)) => if valid_utf8(raw) {
            Ok((decode_utf8(raw), rest))
        } else {
            Err(ReadError::InvalidEncoding)
        },
    }
}

/// An identifier: the next [`ID_LENGTH`] bytes.
pub open spec fn parse_id(s: Seq<u8>) -> Result<(Seq<u8>, Seq<u8>), ReadError> {
    parse_bytes(s, ID_LENGTH as nat)
}

/// `std::string::FromUtf8Error`, declared so that the result of
/// `String::from_utf8` can be named. Verus sees nothing inside a value of it.
#[verifier::external_type_specification]
#[verifier::external_body]
pub struct ExFromUtf8Error(FromUtf8Error);

/// `String::from_utf8` succeeds exactly on valid UTF-8, and the string it
/// gives is the text that the bytes encode.
pub assume_specification[ String::from_utf8 ](vec: Vec<u8>) -> (r: Result<String, FromUtf8Error>)
    ensures
        r is Ok <==> valid_utf8(vec@),
        r matches Ok(text) ==> text@ == decode_utf8(vec@),
;

/// Reads one byte.
pub fn read_u8(bytes: &mut Bytes) -> (r: Result<u8, ReadError>)
    ensures
        match parse_u8(unread(*old(bytes))) {
            Ok((value, _)) => r == Ok::<u8, ReadError>(value),
            Err(e) => r == Err::<u8, ReadError>(e),
        },
        left_by(parse_u8(unread(*old(bytes))), unread(*old(bytes)), unread(*final(bytes))),
        r is Err ==> unread(*final(bytes)) == unread(*old(bytes)),
{
    if remaining(bytes) < 1 {
        proof {
            lemma_advanced_refl(unread(*bytes));
        }
        return Err(ReadError::UnexpectedEof);
    }
    proof {
        lemma_advanced_skip(unread(*bytes), 1);
    }
    Ok(get_u8(bytes))
}

/// Reads a big-endian `u32`.
pub fn read_u32_be(bytes: &mut Bytes) -> (r: Result<u32, ReadError>)
    ensures
        match parse_u32_be(unread(*old(bytes))) {
            Ok((value, _)) => r == Ok::<u32, ReadError>(value),
            Err(e) => r == Err::<u32, ReadError>(e),
        },
        left_by(parse_u32_be(unread(*old(bytes))), unread(*old(bytes)), unread(*final(bytes))),
        r is Err ==> unread(*final(bytes)) == unread(*old(bytes)),
{
    if remaining(bytes) < 4 {
        proof {
            lemma_advanced_refl(unread(*bytes));
        }
        return Err(ReadError::UnexpectedEof);
    }
    proof {
        lemma_advanced_skip(unread(*bytes), 4);
    }
    Ok(get_u32(bytes))
}

/// Reads a little-endian `u32`.
pub fn read_u32_le(bytes: &mut Bytes) -> (r: Result<u32, ReadError>)
    ensures
        match parse_u32_le(unread(*old(bytes))) {
            Ok((value, _)) => r == Ok::<u32, ReadError>(value),
            Err(e) => r == Err::<u32, ReadError>(e),
        },
        left_by(parse_u32_le(unread(*old(bytes))), unread(*old(bytes)), unread(*final(bytes))),
        r is Err ==> unread(*final(bytes)) == unread(*old(bytes)),
{
    if remaining(bytes) < 4 {
        proof {
            lemma_advanced_refl(unread(*bytes));
        }
        return Err(ReadError::UnexpectedEof);
    }
    proof {
        lemma_advanced_skip(unread(*bytes), 4);
    }
    Ok(get_u32_le(bytes))
}

/// Reads a big-endian `u64`.
pub fn read_u64_be(bytes: &mut Bytes) -> (r: Result<u64, ReadError>)
    ensures
        match parse_u64_be(unread(*old(bytes))) {
            Ok((value, _)) => r == Ok::<u64, ReadError>(value),
            Err(e) => r == Err::<u64, ReadError>(e),
        },
        left_by(parse_u64_be(unread(*old(bytes))), unread(*old(bytes)), unread(*final(bytes))),
        r is Err ==> unread(*final(bytes)) == unread(*old(bytes)),
{
    if remaining(bytes) < 8 {
        proof {
            lemma_advanced_refl(unread(*bytes));
        }
        return Err(ReadError::UnexpectedEof);
    }
    proof {
        lemma_advanced_skip(unread(*bytes), 8);
    }
    Ok(get_u64(bytes))
}

/// Reads a big-endian `i64`.
pub fn read_i64_be(bytes: &mut Bytes) -> (r: Result<i64, ReadError>)
    ensures
        match parse_i64_be(unread(*old(bytes))) {
            Ok((value, _)) => r == Ok::<i64, ReadError>(value),
            Err(e) => r == Err::<i64, ReadError>(e),
        },
        left_by(parse_i64_be(unread(*old(bytes))), unread(*old(bytes)), unread(*final(bytes))),
        r is Err ==> unread(*final(bytes)) == unread(*old(bytes)),
{
    if remaining(bytes) < 8 {
        proof {
            lemma_advanced_refl(unread(*bytes));
        }
        return Err(ReadError::UnexpectedEof);
    }
    proof {
        lemma_advanced_skip(unread(*bytes), 8);
    }
    Ok(get_i64(bytes))
}

/// Reads the next `length` bytes.
pub fn read_bytes(bytes: &mut Bytes, length: usize) -> (r: Result<Vec<u8>, ReadError>)
    ensures
        match parse_bytes(unread(*old(bytes)), length as nat) {
            Ok((raw, _)) => r matches Ok(taken) && taken@ == raw,
            Err(e) => r == Err::<Vec<u8>, ReadError>(e),
        },
        left_by(
            parse_bytes(unread(*old(bytes)), length as nat),
            unread(*old(bytes)),
            unread(*final(bytes)),
        ),
        r is Err ==> unread(*final(bytes)) == unread(*old(bytes)),
{
    if remaining(bytes) < length {
        proof {
            lemma_advanced_refl(unread(*bytes));
        }
        return Err(ReadError::UnexpectedEof);
    }
    proof {
        lemma_advanced_skip(unread(*bytes), length as int);
    }
    Ok(copy_to_vec(bytes, length))
}

/// Reads the next `length` bytes as UTF-8 text.
pub fn read_string_fixed(bytes: &mut Bytes, length: usize) -> (r: Result<String, ReadError>)
    ensures
        match parse_utf8(unread(*old(bytes)), length as nat) {
            Ok((text, _)) => r matches Ok(s) && s@ == text,
            Err(e) => r == Err::<String, ReadError>(e),
        },
        left_by(
            parse_utf8(unread(*old(bytes)), length as nat),
            unread(*old(bytes)),
            unread(*final(bytes)),
        ),
{
    let raw = read_bytes(bytes, length)?;
    match String::from_utf8(raw) {
        Ok(text) => Ok(text),
        Err(_) => Err(ReadError::InvalidEncoding),
    }
}

/// Reads an identifier of [`ID_LENGTH`] bytes.
pub fn read_id(bytes: &mut Bytes) -> (r: Result<Vec<u8>, ReadError>)
    ensures
        match parse_id(unread(*old(bytes))) {
            Ok((raw, _)) => r matches Ok(id) && id@ == raw,
            Err(e) => r == Err::<Vec<u8>, ReadError>(e),
        },
        left_by(parse_id(unread(*old(bytes))), unread(*old(bytes)), unread(*final(bytes))),
        r is Err ==> unread(*final(bytes)) == unread(*old(bytes)),
{
    read_bytes(bytes, ID_LENGTH)
}

/// Bytes a 32-bit varint may take.
pub const MAX_VINT_BYTES: u8 = 5;

/// Bytes a 64-bit varint may take.
pub const MAX_VLONG_BYTES: u8 = 10;

/// A base-128 varint of at most `max_bytes` bytes: each byte carries seven
/// bits, least significant group first, and a set high bit says that another
/// byte follows. The value is not reduced to any width here.
pub open spec fn parse_varint(s: Seq<u8>, max_bytes: nat) -> Result<(nat, Seq<u8>), ReadError>
    decreases max_bytes,
{
    if max_bytes == 0 {
        Err(ReadError::VarIntOverflow)
    } else if s.len() == 0 {
        Err(ReadError::UnexpectedEof)
    } else if s[0] < 0x80 {
        Ok((s[0] as nat, s.skip(1)))
    } else {
        match parse_varint(s.skip(1), (max_bytes - 1) as nat) {
            Ok((high, rest)) => Ok(((s[0] - 0x80) as nat + 128 * high, rest)),
            Err(e) => Err(e),
        }
    }
}

/// A varint of at most five bytes, as a `u32`. Bits past the 32nd, which only
/// the fifth byte can carry, are dropped.
pub open spec fn parse_vint(s: Seq<u8>) -> Result<(u32, Seq<u8>), ReadError> {
    match parse_varint(s, MAX_VINT_BYTES as nat) {
        Ok((value, rest)) => Ok(((value % 0x1_0000_0000) as u32, rest)),
        Err(e) => Err(e),
    }
}

/// A varint of at most ten bytes, as a `u64`. Bits past the 64th, which only
/// the tenth byte can carry, are dropped.
pub open spec fn parse_vlong(s: Seq<u8>) -> Result<(u64, Seq<u8>), ReadError> {
    match parse_varint(s, MAX_VLONG_BYTES as nat) {
        Ok((value, rest)) => Ok(((value % 0x1_0000_0000_0000_0000) as u64, rest)),
        Err(e) => Err(e),
    }
}

/// A varint length, then that many bytes as UTF-8 text.
pub open spec fn parse_string(s: Seq<u8>) -> Result<(Seq<char>, Seq<u8>), ReadError> {
    match parse_vint(s) {
        Err(e) => Err(e),
        Ok((length, rest)) => parse_utf8(rest, length as nat),
    }
}

/// 128 to the power `n`: the weight of the varint group at index `n`.
pub open spec fn pow128(n: nat) -> nat
    decreases n,
{
    if n == 0 {
        1
    } else {
        128 * pow128((n - 1) as nat)
    }
}

proof fn lemma_pow128_positive(n: nat)
    ensures
        pow128(n) >= 1,
    decreases n,
{
    if n > 0 {
        lemma_pow128_positive((n - 1) as nat);
    }
}

proof fn lemma_pow128_bound(n: nat)
    requires
        n <= 10,
    ensures
        1 <= pow128(n) <= 0x40_0000_0000_0000_0000,
        n < 10 ==> pow128(n) <= 0x8000_0000_0000_0000,
        n <= 5 ==> pow128(n) <= 0x8_0000_0000,
{
    reveal_with_fuel(pow128, 11);
}

/// A varint never yields more than its bytes can carry, and what follows it
/// is a suffix of the input.
pub proof fn lemma_parse_varint_bounds(s: Seq<u8>, max_bytes: nat)
    ensures
        parse_varint(s, max_bytes) matches Ok((value, rest)) ==> value < pow128(max_bytes)
            && advanced(s, rest) && rest.len() < s.len(),
    decreases max_bytes,
{
    if max_bytes > 0 && s.len() > 0 {
        lemma_pow128_positive((max_bytes - 1) as nat);
        lemma_advanced_skip(s, 1);
        if s[0] >= 0x80 {
            lemma_parse_varint_bounds(s.skip(1), (max_bytes - 1) as nat);
            if let Ok((_, rest)) = parse_varint(s.skip(1), (max_bytes - 1) as nat) {
                lemma_advanced_trans(s, s.skip(1), rest);
            }
        }
    }
}

/// Reads a varint of at most `max_bytes` bytes without reducing its value.
fn read_varint(bytes: &mut Bytes, max_bytes: u8) -> (r: Result<u128, ReadError>)
    requires
        max_bytes <= 10,
    ensures
        match parse_varint(unread(*old(bytes)), max_bytes as nat) {
            Ok((value, _)) => r matches Ok(wide) && wide == value,
            Err(e) => r == Err::<u128, ReadError>(e),
        },
        left_by(
            parse_varint(unread(*old(bytes)), max_bytes as nat),
            unread(*old(bytes)),
            unread(*final(bytes)),
        ),
{
    let ghost start = unread(*bytes);
    proof {
        lemma_advanced_refl(start);
    }
    let mut value: u128 = 0;
    let mut weight: u128 = 1;
    let mut count: u8 = 0;
    loop
        invariant
            max_bytes <= 10,
            count <= max_bytes,
            start == unread(*old(bytes)),
            weight == pow128(count as nat),
            value < weight,
            advanced(start, unread(*bytes)),
            parse_varint(start, max_bytes as nat) == match parse_varint(
                unread(*bytes),
                (max_bytes - count) as nat,
            ) {
                Ok((high, rest)) => Ok::<(nat, Seq<u8>), ReadError>(
                    ((value + weight * high) as nat, rest),
                ),
                Err(e) => Err(e),
            },
        decreases max_bytes - count,
    {
        let ghost here = unread(*bytes);
        proof {
            lemma_pow128_bound(count as nat);
        }
        if count == max_bytes {
            return Err(ReadError::VarIntOverflow);
        }
        if remaining(bytes) < 1 {
            return Err(ReadError::UnexpectedEof);
        }
        let byte = get_u8(bytes);
        let low = byte & 0x7f;
        proof {
            assert(byte & 0x7f == byte % 0x80) by (bit_vector);
            assert((byte & 0x80 == 0) <==> byte < 0x80) by (bit_vector);
            lemma_advanced_skip(here, 1);
            lemma_advanced_trans(start, here, here.skip(1));
            assert(weight * low <= weight * 127) by (nonlinear_arith)
                requires
                    low <= 127,
                    weight >= 0,
            ;
        }
        if byte & 0x80 == 0 {
            return Ok(value + weight * (low as u128));
        }
        proof {
            let high_part = parse_varint(here.skip(1), (max_bytes - count - 1) as nat);
            if let Ok((high, rest)) = high_part {
                assert(value + weight * ((byte - 0x80) + 128 * high) == (value + weight * low) + (
                weight * 128) * high) by (nonlinear_arith)
                    requires
                        low == byte - 0x80,
                ;
            }
            assert(value + weight * low < weight * 128) by (nonlinear_arith)
                requires
                    value < weight,
                    low <= 127,
            ;
        }
        value = value + weight * (low as u128);
        weight = weight * 128;
        count = count + 1;
    }
}

/// Reads a base-128 varint of up to five bytes as a `u32`.
pub fn read_vint(bytes: &mut Bytes) -> (r: Result<u32, ReadError>)
    ensures
        match parse_vint(unread(*old(bytes))) {
            Ok((value, _)) => r == Ok::<u32, ReadError>(value),
            Err(e) => r == Err::<u32, ReadError>(e),
        },
        left_by(parse_vint(unread(*old(bytes))), unread(*old(bytes)), unread(*final(bytes))),
{
    let wide = read_varint(bytes, MAX_VINT_BYTES)?;
    Ok((wide % 0x1_0000_0000) as u32)
}

/// Reads a base-128 varint of up to ten bytes as a `u64`.
pub fn read_vlong(bytes: &mut Bytes) -> (r: Result<u64, ReadError>)
    ensures
        match parse_vlong(unread(*old(bytes))) {
            Ok((value, _)) => r == Ok::<u64, ReadError>(value),
            Err(e) => r == Err::<u64, ReadError>(e),
        },
        left_by(parse_vlong(unread(*old(bytes))), unread(*old(bytes)), unread(*final(bytes))),
{
    let wide = read_varint(bytes, MAX_VLONG_BYTES)?;
    Ok((wide % 0x1_0000_0000_0000_0000) as u64)
}

/// What follows raw bytes or text of a given length is a suffix of the input.
pub proof fn lemma_parse_utf8_advances(s: Seq<u8>, length: nat)
    ensures
        parse_utf8(s, length) matches Ok((_, rest)) ==> advanced(s, rest),
        parse_bytes(s, length) matches Ok((_, rest)) ==> advanced(s, rest),
{
    if s.len() >= length {
        lemma_advanced_skip(s, length as int);
    }
}

/// What follows a fixed-width value is a suffix of the input.
pub proof fn lemma_parse_fixed_advances(s: Seq<u8>)
    ensures
        parse_u8(s) matches Ok((_, rest)) ==> advanced(s, rest),
        parse_u32_be(s) matches Ok((_, rest)) ==> advanced(s, rest),
        parse_u32_le(s) matches Ok((_, rest)) ==> advanced(s, rest),
        parse_u64_be(s) matches Ok((_, rest)) ==> advanced(s, rest),
        parse_i64_be(s) matches Ok((_, rest)) ==> advanced(s, rest),
        parse_id(s) matches Ok((_, rest)) ==> advanced(s, rest),
{
    if s.len() >= 1 {
        lemma_advanced_skip(s, 1);
    }
    if s.len() >= 4 {
        lemma_advanced_skip(s, 4);
    }
    if s.len() >= 8 {
        lemma_advanced_skip(s, 8);
    }
    if s.len() >= 16 {
        lemma_advanced_skip(s, 16);
    }
}

/// Reads a varint length and then that many bytes as UTF-8 text.
pub fn read_string(bytes: &mut Bytes) -> (r: Result<String, ReadError>)
    ensures
        match parse_string(unread(*old(bytes))) {
            Ok((text, _)) => r matches Ok(s) && s@ == text,
            Err(e) => r == Err::<String, ReadError>(e),
        },
        left_by(parse_string(unread(*old(bytes))), unread(*old(bytes)), unread(*final(bytes))),
{
    let length = read_vint(bytes)?;
    let ghost middle = unread(*bytes);
    let r = read_string_fixed(bytes, length as usize);
    proof {
        lemma_advanced_trans(unread(*old(bytes)), middle, unread(*bytes));
    }
    r
}


/// `count` pairs of length-prefixed strings, put into `so_far` in the order
/// in which they stand, so that a key that comes again replaces its value.
pub open spec fn parse_map_entries(
    s: Seq<u8>,
    count: nat,
    so_far: Map<Seq<char>, Seq<char>>,
) -> Result<(Map<Seq<char>, Seq<char>>, Seq<u8>), ReadError>
    decreases count,
{
    if count == 0 {
        Ok((so_far, s))
    } else {
        match parse_string(s) {
            Err(e) => Err(e),
            Ok((key, after_key)) => match parse_string(after_key) {
                Err(e) => Err(e),
                Ok((value, rest)) => parse_map_entries(
                    rest,
                    (count - 1) as nat,
                    so_far.insert(key, value),
                ),
            },
        }
    }
}

/// A varint count, then that many pairs of length-prefixed strings.
pub open spec fn parse_map(s: Seq<u8>) -> Result<(Map<Seq<char>, Seq<char>>, Seq<u8>), ReadError> {
    match parse_vint(s) {
        Err(e) => Err(e),
        Ok((count, rest)) => parse_map_entries(rest, count as nat, Map::empty()),
    }
}

/// `count` length-prefixed strings, added to `so_far`.
pub open spec fn parse_set_items(s: Seq<u8>, count: nat, so_far: Set<Seq<char>>) -> Result<
    (Set<Seq<char>>, Seq<u8>),
    ReadError,
>
    decreases count,
{
    if count == 0 {
        Ok((so_far, s))
    } else {
        match parse_string(s) {
            Err(e) => Err(e),
            Ok((item, rest)) => parse_set_items(rest, (count - 1) as nat, so_far.insert(item)),
        }
    }
}

/// A varint count, then that many length-prefixed strings, as a set.
pub open spec fn parse_set(s: Seq<u8>) -> Result<(Set<Seq<char>>, Seq<u8>), ReadError> {
    match parse_vint(s) {
        Err(e) => Err(e),
        Ok((count, rest)) => parse_set_items(rest, count as nat, Set::empty()),
    }
}

/// `count` length-prefixed strings, appended to `so_far`.
pub open spec fn parse_list_items(s: Seq<u8>, count: nat, so_far: Seq<Seq<char>>) -> Result<
    (Seq<Seq<char>>, Seq<u8>),
    ReadError,
>
    decreases count,
{
    if count == 0 {
        Ok((so_far, s))
    } else {
        match parse_string(s) {
            Err(e) => Err(e),
            Ok((item, rest)) => parse_list_items(rest, (count - 1) as nat, so_far.push(item)),
        }
    }
}

/// A varint count, then that many length-prefixed strings, in order.
pub open spec fn parse_list(s: Seq<u8>) -> Result<(Seq<Seq<char>>, Seq<u8>), ReadError> {
    match parse_vint(s) {
        Err(e) => Err(e),
        Ok((count, rest)) => parse_list_items(rest, count as nat, Seq::empty()),
    }
}

/// What follows a varint or a length-prefixed string is a suffix of the
/// input.
pub proof fn lemma_parse_string_advances(s: Seq<u8>)
    ensures
        parse_vint(s) matches Ok((_, rest)) ==> advanced(s, rest),
        parse_vlong(s) matches Ok((_, rest)) ==> advanced(s, rest),
        parse_string(s) matches Ok((_, rest)) ==> advanced(s, rest),
{
    lemma_parse_varint_bounds(s, MAX_VINT_BYTES as nat);
    lemma_parse_varint_bounds(s, MAX_VLONG_BYTES as nat);
    if let Ok((length, middle)) = parse_vint(s) {
        lemma_parse_utf8_advances(middle, length as nat);
        if let Ok((_, rest)) = parse_utf8(middle, length as nat) {
            lemma_advanced_trans(s, middle, rest);
        }
    }
}

/// Reads a map from strings to strings: a varint count, then that many pairs
/// of length-prefixed strings. A key that comes twice keeps its last value.
pub fn read_map(bytes: &mut Bytes) -> (r: Result<StringMap<String>, ReadError>)
    ensures
        match parse_map(unread(*old(bytes))) {
            Ok((map, _)) => r matches Ok(m) && m@ == map,
            Err(e) => r matches Err(x) && x == e,
        },
        left_by(parse_map(unread(*old(bytes))), unread(*old(bytes)), unread(*final(bytes))),
{
    let count = read_vint(bytes)?;
    let mut map: StringMap<String> = StringMap::new();
    let mut done: u32 = 0;
    while done < count
        invariant
            done <= count,
            advanced(unread(*old(bytes)), unread(*bytes)),
            parse_map(unread(*old(bytes))) == parse_map_entries(
                unread(*bytes),
                (count - done) as nat,
                map@,
            ),
        decreases count - done,
    {
        let ghost here = unread(*bytes);
        let key = match read_string(bytes) {
            Ok(key) => key,
            Err(e) => {
                proof {
                    lemma_advanced_trans(unread(*old(bytes)), here, unread(*bytes));
                }
                return Err(e);
            },
        };
        let ghost middle = unread(*bytes);
        proof {
            lemma_advanced_trans(unread(*old(bytes)), here, middle);
        }
        let value = match read_string(bytes) {
            Ok(value) => value,
            Err(e) => {
                proof {
                    lemma_advanced_trans(unread(*old(bytes)), middle, unread(*bytes));
                }
                return Err(e);
            },
        };
        proof {
            lemma_advanced_trans(unread(*old(bytes)), middle, unread(*bytes));
        }
        map.insert(key, value);
        done = done + 1;
    }
    Ok(map)
}

/// Reads a set of strings: a varint count, then that many length-prefixed
/// strings. A string that comes twice is kept once.
pub fn read_set(bytes: &mut Bytes) -> (r: Result<StringSet, ReadError>)
    ensures
        match parse_set(unread(*old(bytes))) {
            Ok((set, _)) => r matches Ok(x) && x@ == set,
            Err(e) => r matches Err(x) && x == e,
        },
        left_by(parse_set(unread(*old(bytes))), unread(*old(bytes)), unread(*final(bytes))),
{
    let count = read_vint(bytes)?;
    let mut set = StringSet::new();
    let mut done: u32 = 0;
    while done < count
        invariant
            done <= count,
            advanced(unread(*old(bytes)), unread(*bytes)),
            parse_set(unread(*old(bytes))) == parse_set_items(
                unread(*bytes),
                (count - done) as nat,
                set@,
            ),
        decreases count - done,
    {
        let ghost here = unread(*bytes);
        let item = match read_string(bytes) {
            Ok(item) => item,
            Err(e) => {
                proof {
                    lemma_advanced_trans(unread(*old(bytes)), here, unread(*bytes));
                }
                return Err(e);
            },
        };
        proof {
            lemma_advanced_trans(unread(*old(bytes)), here, unread(*bytes));
        }
        set.insert(item);
        done = done + 1;
    }
    Ok(set)
}

/// Reads a list of strings: a varint count, then that many length-prefixed
/// strings, kept in order and with their repetitions.
pub fn read_vec(bytes: &mut Bytes) -> (r: Result<Vec<String>, ReadError>)
    ensures
        match parse_list(unread(*old(bytes))) {
            Ok((list, _)) => r matches Ok(v) && texts(v@) == list,
            Err(e) => r matches Err(x) && x == e,
        },
        left_by(parse_list(unread(*old(bytes))), unread(*old(bytes)), unread(*final(bytes))),
{
    let count = read_vint(bytes)?;
    let mut list: Vec<String> = Vec::new();
    assert(texts(list@) =~= Seq::<Seq<char>>::empty());
    let mut done: u32 = 0;
    while done < count
        invariant
            done <= count,
            advanced(unread(*old(bytes)), unread(*bytes)),
            parse_list(unread(*old(bytes))) == parse_list_items(
                unread(*bytes),
                (count - done) as nat,
                texts(list@),
            ),
        decreases count - done,
    {
        let ghost here = unread(*bytes);
        let ghost before = texts(list@);
        let item = match read_string(bytes) {
            Ok(item) => item,
            Err(e) => {
                proof {
                    lemma_advanced_trans(unread(*old(bytes)), here, unread(*bytes));
                }
                return Err(e);
            },
        };
        proof {
            lemma_advanced_trans(unread(*old(bytes)), here, unread(*bytes));
        }
        list.push(item);
        proof {
            assert(texts(list@) =~= before.push(item@));
        }
        done = done + 1;
    }
    Ok(list)
}


/// Whether two byte strings are equal.
pub(crate) fn same_bytes(a: &Vec<u8>, b: &Vec<u8>) -> (same: bool)
    ensures
        same == (a@ == b@),
{
    if a.len() != b.len() {
        return false;
    }
    let mut i: usize = 0;
    while i < a.len()
        invariant
            i <= a.len(),
            a.len() == b.len(),
            forall|j: int| 0 <= j < i ==> a[j] == b[j],
        decreases a.len() - i,
    {
        if a[i] != b[i] {
            return false;
        }
        i += 1;
    }
    assert(a@ =~= b@);
    true
}


} // verus!
