//! The forward-only byte cursor that every decoder in this crate reads from.
//!
//! The cursor is a [`bytes::Bytes`]. Verus cannot look inside one, so this file
//! names what a cursor still holds ([`unread`]) and states, for each method of
//! `bytes` that the decoders call, what that method does to it. Nothing in this
//! file is proved: everything else in the crate is proved from it.

use bytes::Buf;
use bytes::Bytes;
use vstd::prelude::*;

verus! {

/// `bytes::Bytes`, declared so that it can stand in signatures and fields.
/// Verus sees nothing inside a value of it.
#[verifier::external_type_specification]
#[verifier::external_body]
pub struct ExBytes(bytes::Bytes);

/// The bytes that a cursor has not handed out yet, in reading order.
pub uninterp spec fn unread(cursor: Bytes) -> Seq<u8>;

/// The unsigned value of the first four bytes of `s`, most significant first.
pub open spec fn u32_be(s: Seq<u8>) -> u32 {
    (s[0] as int * 0x100_0000 + s[1] as int * 0x1_0000 + s[2] as int * 0x100 + s[3] as int) as u32
}

/// The unsigned value of the first four bytes of `s`, least significant first.
pub open spec fn u32_le(s: Seq<u8>) -> u32 {
    (s[3] as int * 0x100_0000 + s[2] as int * 0x1_0000 + s[1] as int * 0x100 + s[0] as int) as u32
}

/// The unsigned value of the first eight bytes of `s`, most significant first.
pub open spec fn u64_be(s: Seq<u8>) -> u64 {
    (u32_be(s) as int * 0x1_0000_0000 + u32_be(s.skip(4)) as int) as u64
}

/// The two's-complement value of the first eight bytes of `s`, most
/// significant first.
pub open spec fn i64_be(s: Seq<u8>) -> i64 {
    if u64_be(s) < 0x8000_0000_0000_0000 {
        u64_be(s) as i64
    } else {
        (u64_be(s) as int - 0x1_0000_0000_0000_0000) as i64
    }
}

/// `Bytes::from(Vec<u8>)`: a cursor at the start of `data`, with all of it
/// unread.
#[verifier::external_body]
pub(crate) fn cursor_over(data: Vec<u8>) -> (cursor: Bytes)
    ensures
        unread(cursor) == data@,
{
    Bytes::from(data)
}

/// `Buf::remaining` on a `Bytes`: the number of unread bytes.
#[verifier::external_body]
pub(crate) fn remaining(cursor: &Bytes) -> (n: usize)
    ensures
        n == unread(*cursor).len(),
{
    cursor.remaining()
}

/// `Buf::get_u8`: hands out the next byte and steps over it. The call panics
/// on an exhausted cursor, which `requires` leaves out.
#[verifier::external_body]
pub(crate) fn get_u8(cursor: &mut Bytes) -> (value: u8)
    requires
        unread(*old(cursor)).len() >= 1,
    ensures
        value == unread(*old(cursor))[0],
        unread(*final(cursor)) == unread(*old(cursor)).skip(1),
{
    cursor.get_u8()
}

/// `Buf::get_u32`: hands out the next four bytes as a big-endian integer and
/// steps over them. The call panics on fewer than four unread bytes.
#[verifier::external_body]
pub(crate) fn get_u32(cursor: &mut Bytes) -> (value: u32)
    requires
        unread(*old(cursor)).len() >= 4,
    ensures
        value == u32_be(unread(*old(cursor))),
        unread(*final(cursor)) == unread(*old(cursor)).skip(4),
{
    cursor.get_u32()
}

/// `Buf::get_u32_le`: hands out the next four bytes as a little-endian integer
/// and steps over them. The call panics on fewer than four unread bytes.
#[verifier::external_body]
pub(crate) fn get_u32_le(cursor: &mut Bytes) -> (value: u32)
    requires
        unread(*old(cursor)).len() >= 4,
    ensures
        value == u32_le(unread(*old(cursor))),
        unread(*final(cursor)) == unread(*old(cursor)).skip(4),
{
    cursor.get_u32_le()
}

/// `Buf::get_u64`: hands out the next eight bytes as a big-endian integer and
/// steps over them. The call panics on fewer than eight unread bytes.
#[verifier::external_body]
pub(crate) fn get_u64(cursor: &mut Bytes) -> (value: u64)
    requires
        unread(*old(cursor)).len() >= 8,
    ensures
        value == u64_be(unread(*old(cursor))),
        unread(*final(cursor)) == unread(*old(cursor)).skip(8),
{
    cursor.get_u64()
}

/// `Buf::get_i64`: hands out the next eight bytes as a big-endian
/// two's-complement integer and steps over them. The call panics on fewer
/// than eight unread bytes.
#[verifier::external_body]
pub(crate) fn get_i64(cursor: &mut Bytes) -> (value: i64)
    requires
        unread(*old(cursor)).len() >= 8,
    ensures
        value == i64_be(unread(*old(cursor))),
        unread(*final(cursor)) == unread(*old(cursor)).skip(8),
{
    cursor.get_i64()
}

/// `Buf::copy_to_bytes` on a `Bytes`, which splits off the next `len` bytes,
/// followed by `to_vec` on what was split off. The call panics when `len`
/// exceeds what is unread.
#[verifier::external_body]
pub(crate) fn copy_to_vec(cursor: &mut Bytes, len: usize) -> (taken: Vec<u8>)
    requires
        len <= unread(*old(cursor)).len(),
    ensures
        taken@ == unread(*old(cursor)).take(len as int),
        unread(*final(cursor)) == unread(*old(cursor)).skip(len as int),
{
    cursor.copy_to_bytes(len).to_vec()
}

} // verus!
