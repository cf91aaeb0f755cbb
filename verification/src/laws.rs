//! What holds of the primitive decoders on every input: a varint that was
//! written is read back, an empty collection is one byte, a spent input gives
//! nothing, a field that was cut short is never mistaken for a whole one, and
//! every read depends on the bytes it takes and on no others.

use crate::util::{
    advanced, lemma_advanced_refl, lemma_advanced_trans, lemma_parse_fixed_advances,
    lemma_parse_string_advances, lemma_parse_utf8_advances, lemma_parse_varint_bounds,
    parse_bytes, parse_i64_be, parse_id, parse_list, parse_list_items, parse_map,
    parse_map_entries, parse_set, parse_set_items, parse_string, parse_u32_be, parse_u32_le,
    parse_u64_be, parse_u8, parse_utf8, parse_varint, parse_vint, parse_vlong, pow128, ReadError,
    MAX_VINT_BYTES, MAX_VLONG_BYTES,
};
use vstd::prelude::*;

verus! {

/// The base-128 encoding of `value`: seven bits to a byte, the least
/// significant seven first, and the high bit set on every byte but the last.
pub open spec fn varint_encoding(value: nat) -> Seq<u8>
    decreases value,
{
    if value < 0x80 {
        seq![value as u8]
    } else {
        seq![(value % 0x80 + 0x80) as u8] + varint_encoding(value / 0x80)
    }
}

/// The number of bytes that a parse of `s` took, where it succeeded.
pub open spec fn taken<T, E>(parsed: Result<(T, Seq<u8>), E>, s: Seq<u8>) -> int {
    match parsed {
        Ok((_, rest)) => s.len() - rest.len(),
        Err(_) => 0,
    }
}

/// The fault of an input that ends too early.
pub open spec fn eof<T>() -> Result<(T, Seq<u8>), ReadError> {
    Err(ReadError::UnexpectedEof)
}

proof fn lemma_varint_round_trip(value: nat, max_bytes: nat, rest: Seq<u8>)
    requires
        max_bytes >= 1,
        value < pow128(max_bytes),
    ensures
        parse_varint(varint_encoding(value) + rest, max_bytes) == Ok::<
            (nat, Seq<u8>),
            ReadError,
        >((value, rest)),
    decreases value,
{
    let s = varint_encoding(value) + rest;
    if value < 0x80 {
        assert(s.skip(1) =~= rest);
    } else {
        assert(s.skip(1) =~= varint_encoding(value / 0x80) + rest);
        assert(max_bytes >= 2) by {
            reveal_with_fuel(pow128, 2);
        }
        lemma_varint_round_trip(value / 0x80, (max_bytes - 1) as nat, rest);
    }
}

/// Every `u32`, written as a varint, is read back as it was, and the read
/// stops where the varint ends.
pub proof fn lemma_vint_round_trip(value: u32, rest: Seq<u8>)
    ensures
        parse_vint(varint_encoding(value as nat) + rest) == Ok::<(u32, Seq<u8>), ReadError>(
            (value, rest),
        ),
{
    reveal_with_fuel(pow128, 6);
    lemma_varint_round_trip(value as nat, MAX_VINT_BYTES as nat, rest);
}

/// Every `u64`, written as a varint, is read back as it was, and the read
/// stops where the varint ends.
pub proof fn lemma_vlong_round_trip(value: u64, rest: Seq<u8>)
    ensures
        parse_vlong(varint_encoding(value as nat) + rest) == Ok::<(u64, Seq<u8>), ReadError>(
            (value, rest),
        ),
{
    reveal_with_fuel(pow128, 11);
    lemma_varint_round_trip(value as nat, MAX_VLONG_BYTES as nat, rest);
}

/// A map, a set or a list whose count is the byte 0 is empty and takes that
/// one byte.
pub proof fn lemma_count_zero_is_empty(s: Seq<u8>)
    requires
        s.len() > 0,
        s[0] == 0,
    ensures
        parse_map(s) == Ok::<(Map<Seq<char>, Seq<char>>, Seq<u8>), ReadError>(
            (Map::empty(), s.skip(1)),
        ),
        parse_set(s) == Ok::<(Set<Seq<char>>, Seq<u8>), ReadError>((Set::empty(), s.skip(1))),
        parse_list(s) == Ok::<(Seq<Seq<char>>, Seq<u8>), ReadError>((Seq::empty(), s.skip(1))),
{
}

/// Every read from a spent input fails with `UnexpectedEof`, but the read of
/// no bytes at all.
pub proof fn lemma_spent_input_is_eof(length: nat)
    ensures
        parse_u8(Seq::empty()) == eof::<u8>(),
        parse_u32_be(Seq::empty()) == eof::<u32>(),
        parse_u32_le(Seq::empty()) == eof::<u32>(),
        parse_u64_be(Seq::empty()) == eof::<u64>(),
        parse_i64_be(Seq::empty()) == eof::<i64>(),
        parse_id(Seq::empty()) == eof::<Seq<u8>>(),
        length > 0 ==> parse_bytes(Seq::empty(), length) == eof::<Seq<u8>>(),
        length > 0 ==> parse_utf8(Seq::empty(), length) == eof::<Seq<char>>(),
        parse_vint(Seq::empty()) == eof::<u32>(),
        parse_vlong(Seq::empty()) == eof::<u64>(),
        parse_string(Seq::empty()) == eof::<Seq<char>>(),
        parse_map(Seq::empty()) == eof::<Map<Seq<char>, Seq<char>>>(),
        parse_set(Seq::empty()) == eof::<Set<Seq<char>>>(),
        parse_list(Seq::empty()) == eof::<Seq<Seq<char>>>(),
{
}

proof fn lemma_varint_cut(s: Seq<u8>, max_bytes: nat, k: int)
    requires
        0 <= k < taken(parse_varint(s, max_bytes), s),
    ensures
        parse_varint(s.take(k), max_bytes) == eof::<nat>(),
    decreases max_bytes,
{
    if k > 0 {
        assert(s.take(k).skip(1) =~= s.skip(1).take(k - 1));
        if s[0] >= 0x80 {
            lemma_varint_cut(s.skip(1), (max_bytes - 1) as nat, k - 1);
        }
    }
}

/// A varint reads the same whatever stands behind it.
proof fn lemma_varint_local(s: Seq<u8>, max_bytes: nat, k: int)
    requires
        parse_varint(s, max_bytes) is Ok,
        taken(parse_varint(s, max_bytes), s) <= k <= s.len(),
    ensures
        parse_varint(s.take(k), max_bytes) matches Ok((value, rest)) && parse_varint(
            s,
            max_bytes,
        ) matches Ok((same, all)) && value == same && rest == all.take(
            k - taken(parse_varint(s, max_bytes), s),
        ),
    decreases max_bytes,
{
    lemma_parse_varint_bounds(s, max_bytes);
    if s[0] >= 0x80 {
        assert(s.take(k).skip(1) =~= s.skip(1).take(k - 1));
        lemma_varint_local(s.skip(1), (max_bytes - 1) as nat, k - 1);
    }
}

proof fn lemma_string_cut(s: Seq<u8>, k: int)
    requires
        0 <= k < taken(parse_string(s), s),
    ensures
        parse_string(s.take(k)) == eof::<Seq<char>>(),
{
    let max = MAX_VINT_BYTES as nat;
    let prefix = taken(parse_varint(s, max), s);
    if k < prefix {
        lemma_varint_cut(s, max, k);
    } else {
        lemma_varint_local(s, max, k);
    }
}

/// A length-prefixed string reads the same whatever stands behind it.
proof fn lemma_string_local(s: Seq<u8>, k: int)
    requires
        parse_string(s) is Ok,
        taken(parse_string(s), s) <= k <= s.len(),
    ensures
        parse_string(s.take(k)) matches Ok((text, rest)) && parse_string(s) matches Ok(
            (same, all),
        ) && text == same && rest == all.take(k - taken(parse_string(s), s)) && advanced(s, all),
{
    let max = MAX_VINT_BYTES as nat;
    lemma_parse_string_advances(s);
    lemma_varint_local(s, max, k);
    if let Ok((length, middle)) = parse_vint(s) {
        let prefix = s.len() - middle.len();
        let cut = middle.take(k - prefix);
        assert(cut.take(length as int) =~= middle.take(length as int));
        assert(cut.skip(length as int) =~= middle.skip(length as int).take(
            k - prefix - length,
        ));
    }
}

proof fn lemma_set_items_cut(s: Seq<u8>, count: nat, so_far: Set<Seq<char>>, k: int)
    requires
        0 <= k < taken(parse_set_items(s, count, so_far), s),
    ensures
        parse_set_items(s.take(k), count, so_far) == eof::<Set<Seq<char>>>(),
    decreases count,
{
    if let Ok((item, rest)) = parse_string(s) {
        let first = s.len() - rest.len();
        if k < first {
            lemma_string_cut(s, k);
        } else {
            lemma_string_local(s, k);
            lemma_set_items_cut(rest, (count - 1) as nat, so_far.insert(item), k - first);
        }
    }
}

proof fn lemma_set_items_advance(s: Seq<u8>, count: nat, so_far: Set<Seq<char>>)
    ensures
        parse_set_items(s, count, so_far) matches Ok((_, rest)) ==> advanced(s, rest),
    decreases count,
{
    lemma_advanced_refl(s);
    if count > 0 {
        if let Ok((item, rest)) = parse_string(s) {
            lemma_parse_string_advances(s);
            lemma_set_items_advance(rest, (count - 1) as nat, so_far.insert(item));
            if let Ok((_, end)) = parse_set_items(rest, (count - 1) as nat, so_far.insert(item)) {
                lemma_advanced_trans(s, rest, end);
            }
        }
    }
}

proof fn lemma_list_items_cut(s: Seq<u8>, count: nat, so_far: Seq<Seq<char>>, k: int)
    requires
        0 <= k < taken(parse_list_items(s, count, so_far), s),
    ensures
        parse_list_items(s.take(k), count, so_far) == eof::<Seq<Seq<char>>>(),
    decreases count,
{
    if let Ok((item, rest)) = parse_string(s) {
        let first = s.len() - rest.len();
        if k < first {
            lemma_string_cut(s, k);
        } else {
            lemma_string_local(s, k);
            lemma_list_items_cut(rest, (count - 1) as nat, so_far.push(item), k - first);
        }
    }
}

proof fn lemma_list_items_advance(s: Seq<u8>, count: nat, so_far: Seq<Seq<char>>)
    ensures
        parse_list_items(s, count, so_far) matches Ok((_, rest)) ==> advanced(s, rest),
    decreases count,
{
    lemma_advanced_refl(s);
    if count > 0 {
        if let Ok((item, rest)) = parse_string(s) {
            lemma_parse_string_advances(s);
            lemma_list_items_advance(rest, (count - 1) as nat, so_far.push(item));
            if let Ok((_, end)) = parse_list_items(rest, (count - 1) as nat, so_far.push(item)) {
                lemma_advanced_trans(s, rest, end);
            }
        }
    }
}

proof fn lemma_map_entries_advance(s: Seq<u8>, count: nat, so_far: Map<Seq<char>, Seq<char>>)
    ensures
        parse_map_entries(s, count, so_far) matches Ok((_, rest)) ==> advanced(s, rest),
    decreases count,
{
    lemma_advanced_refl(s);
    if count > 0 {
        if let Ok((key, middle)) = parse_string(s) {
            lemma_parse_string_advances(s);
            if let Ok((value, rest)) = parse_string(middle) {
                lemma_parse_string_advances(middle);
                lemma_advanced_trans(s, middle, rest);
                let next = so_far.insert(key, value);
                lemma_map_entries_advance(rest, (count - 1) as nat, next);
                if let Ok((_, end)) = parse_map_entries(rest, (count - 1) as nat, next) {
                    lemma_advanced_trans(s, rest, end);
                }
            }
        }
    }
}

proof fn lemma_map_entries_cut(
    s: Seq<u8>,
    count: nat,
    so_far: Map<Seq<char>, Seq<char>>,
    k: int,
)
    requires
        0 <= k < taken(parse_map_entries(s, count, so_far), s),
    ensures
        parse_map_entries(s.take(k), count, so_far) == eof::<Map<Seq<char>, Seq<char>>>(),
    decreases count,
{
    if let Ok((key, middle)) = parse_string(s) {
        let first = s.len() - middle.len();
        if let Ok((value, rest)) = parse_string(middle) {
            let second = middle.len() - rest.len();
            let next = so_far.insert(key, value);
            if k < first {
                lemma_string_cut(s, k);
            } else {
                lemma_string_local(s, k);
                if k - first < second {
                    lemma_string_cut(middle, k - first);
                } else {
                    lemma_string_local(middle, k - first);
                    lemma_map_entries_cut(rest, (count - 1) as nat, next, k - first - second);
                }
            }
        }
    }
}

proof fn lemma_set_items_local(s: Seq<u8>, count: nat, so_far: Set<Seq<char>>, k: int)
    requires
        parse_set_items(s, count, so_far) is Ok,
        taken(parse_set_items(s, count, so_far), s) <= k <= s.len(),
    ensures
        parse_set_items(s.take(k), count, so_far) matches Ok((set, rest)) && parse_set_items(
            s,
            count,
            so_far,
        ) matches Ok((same, all)) && set == same && rest == all.take(
            k - taken(parse_set_items(s, count, so_far), s),
        ),
    decreases count,
{
    if count > 0 {
        if let Ok((item, rest)) = parse_string(s) {
            let first = s.len() - rest.len();
            lemma_set_items_advance(rest, (count - 1) as nat, so_far.insert(item));
            lemma_string_local(s, k);
            lemma_set_items_local(rest, (count - 1) as nat, so_far.insert(item), k - first);
        }
    }
}

proof fn lemma_list_items_local(s: Seq<u8>, count: nat, so_far: Seq<Seq<char>>, k: int)
    requires
        parse_list_items(s, count, so_far) is Ok,
        taken(parse_list_items(s, count, so_far), s) <= k <= s.len(),
    ensures
        parse_list_items(s.take(k), count, so_far) matches Ok((list, rest)) && parse_list_items(
            s,
            count,
            so_far,
        ) matches Ok((same, all)) && list == same && rest == all.take(
            k - taken(parse_list_items(s, count, so_far), s),
        ),
    decreases count,
{
    if count > 0 {
        if let Ok((item, rest)) = parse_string(s) {
            let first = s.len() - rest.len();
            lemma_list_items_advance(rest, (count - 1) as nat, so_far.push(item));
            lemma_string_local(s, k);
            lemma_list_items_local(rest, (count - 1) as nat, so_far.push(item), k - first);
        }
    }
}

proof fn lemma_map_entries_local(
    s: Seq<u8>,
    count: nat,
    so_far: Map<Seq<char>, Seq<char>>,
    k: int,
)
    requires
        parse_map_entries(s, count, so_far) is Ok,
        taken(parse_map_entries(s, count, so_far), s) <= k <= s.len(),
    ensures
        parse_map_entries(s.take(k), count, so_far) matches Ok((map, rest))
            && parse_map_entries(s, count, so_far) matches Ok((same, all)) && map == same && rest
            == all.take(k - taken(parse_map_entries(s, count, so_far), s)),
    decreases count,
{
    if count > 0 {
        if let Ok((key, middle)) = parse_string(s) {
            let first = s.len() - middle.len();
            if let Ok((value, rest)) = parse_string(middle) {
                let second = middle.len() - rest.len();
                let next = so_far.insert(key, value);
                lemma_parse_string_advances(middle);
                lemma_map_entries_advance(rest, (count - 1) as nat, next);
                lemma_string_local(s, k);
                lemma_string_local(middle, k - first);
                lemma_map_entries_local(rest, (count - 1) as nat, next, k - first - second);
            }
        }
    }
}

proof fn lemma_vint_cut(s: Seq<u8>, k: int)
    ensures
        0 <= k < taken(parse_vint(s), s) ==> parse_vint(s.take(k)) == eof::<u32>(),
        0 <= k < taken(parse_vlong(s), s) ==> parse_vlong(s.take(k)) == eof::<u64>(),
{
    if 0 <= k < taken(parse_vint(s), s) {
        lemma_varint_cut(s, MAX_VINT_BYTES as nat, k);
    }
    if 0 <= k < taken(parse_vlong(s), s) {
        lemma_varint_cut(s, MAX_VLONG_BYTES as nat, k);
    }
}

proof fn lemma_map_cut(s: Seq<u8>, k: int)
    ensures
        0 <= k < taken(parse_map(s), s) ==> parse_map(s.take(k)) == eof::<
            Map<Seq<char>, Seq<char>>,
        >(),
{
    let max = MAX_VINT_BYTES as nat;
    if let Ok((count, rest)) = parse_vint(s) {
        let prefix = s.len() - rest.len();
        if 0 <= k < prefix {
            lemma_varint_cut(s, max, k);
        } else if 0 <= k < taken(parse_map(s), s) {
            lemma_varint_local(s, max, k);
            lemma_map_entries_cut(rest, count as nat, Map::empty(), k - prefix);
        }
    }
}

proof fn lemma_set_cut(s: Seq<u8>, k: int)
    ensures
        0 <= k < taken(parse_set(s), s) ==> parse_set(s.take(k)) == eof::<Set<Seq<char>>>(),
{
    let max = MAX_VINT_BYTES as nat;
    if let Ok((count, rest)) = parse_vint(s) {
        let prefix = s.len() - rest.len();
        if 0 <= k < prefix {
            lemma_varint_cut(s, max, k);
        } else if 0 <= k < taken(parse_set(s), s) {
            lemma_varint_local(s, max, k);
            lemma_set_items_cut(rest, count as nat, Set::empty(), k - prefix);
        }
    }
}

proof fn lemma_list_cut(s: Seq<u8>, k: int)
    ensures
        0 <= k < taken(parse_list(s), s) ==> parse_list(s.take(k)) == eof::<Seq<Seq<char>>>(),
{
    let max = MAX_VINT_BYTES as nat;
    if let Ok((count, rest)) = parse_vint(s) {
        let prefix = s.len() - rest.len();
        if 0 <= k < prefix {
            lemma_varint_cut(s, max, k);
        } else if 0 <= k < taken(parse_list(s), s) {
            lemma_varint_local(s, max, k);
            lemma_list_items_cut(rest, count as nat, Seq::empty(), k - prefix);
        }
    }
}

/// A field whose bytes stop before its last byte reads as `UnexpectedEof`,
/// whatever the field: where a read of `s` succeeds, the same read of any
/// shorter beginning of what it took fails so.
pub proof fn lemma_cut_short_is_eof(s: Seq<u8>, k: int, length: nat)
    ensures
        0 <= k < taken(parse_u8(s), s) ==> parse_u8(s.take(k)) == eof::<u8>(),
        0 <= k < taken(parse_u32_be(s), s) ==> parse_u32_be(s.take(k)) == eof::<u32>(),
        0 <= k < taken(parse_u32_le(s), s) ==> parse_u32_le(s.take(k)) == eof::<u32>(),
        0 <= k < taken(parse_u64_be(s), s) ==> parse_u64_be(s.take(k)) == eof::<u64>(),
        0 <= k < taken(parse_i64_be(s), s) ==> parse_i64_be(s.take(k)) == eof::<i64>(),
        0 <= k < taken(parse_id(s), s) ==> parse_id(s.take(k)) == eof::<Seq<u8>>(),
        0 <= k < taken(parse_bytes(s, length), s) ==> parse_bytes(s.take(k), length) == eof::<
            Seq<u8>,
        >(),
        0 <= k < taken(parse_utf8(s, length), s) ==> parse_utf8(s.take(k), length) == eof::<
            Seq<char>,
        >(),
        0 <= k < taken(parse_vint(s), s) ==> parse_vint(s.take(k)) == eof::<u32>(),
        0 <= k < taken(parse_vlong(s), s) ==> parse_vlong(s.take(k)) == eof::<u64>(),
        0 <= k < taken(parse_string(s), s) ==> parse_string(s.take(k)) == eof::<Seq<char>>(),
        0 <= k < taken(parse_map(s), s) ==> parse_map(s.take(k)) == eof::<
            Map<Seq<char>, Seq<char>>,
        >(),
        0 <= k < taken(parse_set(s), s) ==> parse_set(s.take(k)) == eof::<Set<Seq<char>>>(),
        0 <= k < taken(parse_list(s), s) ==> parse_list(s.take(k)) == eof::<Seq<Seq<char>>>(),
{
    lemma_vint_cut(s, k);
    if 0 <= k < taken(parse_string(s), s) {
        lemma_string_cut(s, k);
    }
    lemma_map_cut(s, k);
    lemma_set_cut(s, k);
    lemma_list_cut(s, k);
}

/// How a parse of the first `k` bytes of `s` relates to the parse of all of
/// `s`, where that one succeeds: it fails with `eof` while any of the bytes
/// that were taken is missing, and from then on it gives the same value and
/// leaves what is left of the same rest.
pub open spec fn cut_reads<T, E>(
    whole: Result<(T, Seq<u8>), E>,
    part: Result<(T, Seq<u8>), E>,
    s: Seq<u8>,
    k: int,
    eof: E,
) -> bool {
    match whole {
        Ok((value, rest)) => {
            &&& advanced(s, rest)
            &&& k < s.len() - rest.len() ==> part == Err::<(T, Seq<u8>), E>(eof)
            &&& k >= s.len() - rest.len() ==> part == Ok::<(T, Seq<u8>), E>(
                (value, rest.take(k - (s.len() - rest.len()))),
            )
        },
        Err(_) => true,
    }
}

/// The fixed-width reads take what they take whatever follows.
pub proof fn lemma_fixed_width_reads_are_local(s: Seq<u8>, k: int, length: nat)
    requires
        0 <= k <= s.len(),
    ensures
        cut_reads(parse_u8(s), parse_u8(s.take(k)), s, k, ReadError::UnexpectedEof),
        cut_reads(parse_u32_be(s), parse_u32_be(s.take(k)), s, k, ReadError::UnexpectedEof),
        cut_reads(parse_u32_le(s), parse_u32_le(s.take(k)), s, k, ReadError::UnexpectedEof),
        cut_reads(parse_u64_be(s), parse_u64_be(s.take(k)), s, k, ReadError::UnexpectedEof),
        cut_reads(parse_i64_be(s), parse_i64_be(s.take(k)), s, k, ReadError::UnexpectedEof),
        cut_reads(parse_id(s), parse_id(s.take(k)), s, k, ReadError::UnexpectedEof),
        cut_reads(
            parse_bytes(s, length),
            parse_bytes(s.take(k), length),
            s,
            k,
            ReadError::UnexpectedEof,
        ),
        cut_reads(
            parse_utf8(s, length),
            parse_utf8(s.take(k), length),
            s,
            k,
            ReadError::UnexpectedEof,
        ),
{
    lemma_parse_fixed_advances(s);
    lemma_parse_utf8_advances(s, length);
    if k >= 1 && s.len() >= 1 {
        assert(s.take(k).skip(1) =~= s.skip(1).take(k - 1));
    }
    if k >= 4 && s.len() >= 4 {
        assert(s.take(k).skip(4) =~= s.skip(4).take(k - 4));
    }
    if k >= 8 && s.len() >= 8 {
        assert(s.take(k).skip(8) =~= s.skip(8).take(k - 8));
    }
    if k >= 16 && s.len() >= 16 {
        assert(s.take(k).skip(16) =~= s.skip(16).take(k - 16));
        assert(s.take(k).take(16) =~= s.take(16));
    }
    if k >= length && s.len() >= length {
        assert(s.take(k).skip(length as int) =~= s.skip(length as int).take(k - length));
        assert(s.take(k).take(length as int) =~= s.take(length as int));
    }
}

/// Varints and length-prefixed strings take what they take whatever follows.
pub proof fn lemma_string_reads_are_local(s: Seq<u8>, k: int)
    requires
        0 <= k <= s.len(),
    ensures
        cut_reads(parse_vint(s), parse_vint(s.take(k)), s, k, ReadError::UnexpectedEof),
        cut_reads(parse_vlong(s), parse_vlong(s.take(k)), s, k, ReadError::UnexpectedEof),
        cut_reads(parse_string(s), parse_string(s.take(k)), s, k, ReadError::UnexpectedEof),
{
    lemma_parse_string_advances(s);
    lemma_vint_cut(s, k);
    if parse_vint(s) is Ok && k >= taken(parse_vint(s), s) {
        lemma_varint_local(s, MAX_VINT_BYTES as nat, k);
    }
    if parse_vlong(s) is Ok && k >= taken(parse_vlong(s), s) {
        lemma_varint_local(s, MAX_VLONG_BYTES as nat, k);
    }
    if parse_string(s) is Ok && k >= taken(parse_string(s), s) {
        lemma_string_local(s, k);
    }
}

/// Maps, sets and lists take what they take whatever follows.
pub proof fn lemma_collection_reads_are_local(s: Seq<u8>, k: int)
    requires
        0 <= k <= s.len(),
    ensures
        cut_reads(parse_map(s), parse_map(s.take(k)), s, k, ReadError::UnexpectedEof),
        cut_reads(parse_set(s), parse_set(s.take(k)), s, k, ReadError::UnexpectedEof),
        cut_reads(parse_list(s), parse_list(s.take(k)), s, k, ReadError::UnexpectedEof),
{
    lemma_map_cut(s, k);
    lemma_set_cut(s, k);
    lemma_list_cut(s, k);
    let max = MAX_VINT_BYTES as nat;
    lemma_parse_varint_bounds(s, max);
    if let Ok((count, rest)) = parse_vint(s) {
        let prefix = s.len() - rest.len();
        lemma_map_entries_advance(rest, count as nat, Map::empty());
        lemma_set_items_advance(rest, count as nat, Set::empty());
        lemma_list_items_advance(rest, count as nat, Seq::empty());
        if let Ok((_, end)) = parse_map_entries(rest, count as nat, Map::empty()) {
            lemma_advanced_trans(s, rest, end);
            if k >= s.len() - end.len() {
                lemma_varint_local(s, max, k);
                lemma_map_entries_local(rest, count as nat, Map::empty(), k - prefix);
            }
        }
        if let Ok((_, end)) = parse_set_items(rest, count as nat, Set::empty()) {
            lemma_advanced_trans(s, rest, end);
            if k >= s.len() - end.len() {
                lemma_varint_local(s, max, k);
                lemma_set_items_local(rest, count as nat, Set::empty(), k - prefix);
            }
        }
        if let Ok((_, end)) = parse_list_items(rest, count as nat, Seq::empty()) {
            lemma_advanced_trans(s, rest, end);
            if k >= s.len() - end.len() {
                lemma_varint_local(s, max, k);
                lemma_list_items_local(rest, count as nat, Seq::empty(), k - prefix);
            }
        }
    }
}

/// How much of an input that was cut at `k` is left for the part that
/// follows a first part, which took `s` down to `rest`: `k` less what the
/// first part took, and nothing where the cut fell inside the first part.
pub open spec fn left_of(k: int, s: Seq<u8>, rest: Seq<u8>) -> int {
    if k >= s.len() - rest.len() {
        k - (s.len() - rest.len())
    } else {
        0
    }
}

/// One byte is read from one byte.
pub proof fn lemma_u8_is_local(s: Seq<u8>, k: int)
    requires
        0 <= k <= s.len(),
    ensures
        cut_reads(parse_u8(s), parse_u8(s.take(k)), s, k, ReadError::UnexpectedEof),
{
    lemma_fixed_width_reads_are_local(s, k, 0);
}

/// A big-endian `u32` is read from four bytes.
pub proof fn lemma_u32_be_is_local(s: Seq<u8>, k: int)
    requires
        0 <= k <= s.len(),
    ensures
        cut_reads(parse_u32_be(s), parse_u32_be(s.take(k)), s, k, ReadError::UnexpectedEof),
{
    lemma_fixed_width_reads_are_local(s, k, 0);
}

/// A little-endian `u32` is read from four bytes.
pub proof fn lemma_u32_le_is_local(s: Seq<u8>, k: int)
    requires
        0 <= k <= s.len(),
    ensures
        cut_reads(parse_u32_le(s), parse_u32_le(s.take(k)), s, k, ReadError::UnexpectedEof),
{
    lemma_fixed_width_reads_are_local(s, k, 0);
}

/// A big-endian `u64` is read from eight bytes.
pub proof fn lemma_u64_be_is_local(s: Seq<u8>, k: int)
    requires
        0 <= k <= s.len(),
    ensures
        cut_reads(parse_u64_be(s), parse_u64_be(s.take(k)), s, k, ReadError::UnexpectedEof),
{
    lemma_fixed_width_reads_are_local(s, k, 0);
}

/// A big-endian `i64` is read from eight bytes.
pub proof fn lemma_i64_be_is_local(s: Seq<u8>, k: int)
    requires
        0 <= k <= s.len(),
    ensures
        cut_reads(parse_i64_be(s), parse_i64_be(s.take(k)), s, k, ReadError::UnexpectedEof),
{
    lemma_fixed_width_reads_are_local(s, k, 0);
}

/// An identifier is read from sixteen bytes.
pub proof fn lemma_id_is_local(s: Seq<u8>, k: int)
    requires
        0 <= k <= s.len(),
    ensures
        cut_reads(parse_id(s), parse_id(s.take(k)), s, k, ReadError::UnexpectedEof),
{
    lemma_fixed_width_reads_are_local(s, k, 0);
}

/// A 32-bit varint is read from its own bytes.
pub proof fn lemma_vint_is_local(s: Seq<u8>, k: int)
    requires
        0 <= k <= s.len(),
    ensures
        cut_reads(parse_vint(s), parse_vint(s.take(k)), s, k, ReadError::UnexpectedEof),
{
    lemma_string_reads_are_local(s, k);
}

/// A 64-bit varint is read from its own bytes.
pub proof fn lemma_vlong_is_local(s: Seq<u8>, k: int)
    requires
        0 <= k <= s.len(),
    ensures
        cut_reads(parse_vlong(s), parse_vlong(s.take(k)), s, k, ReadError::UnexpectedEof),
{
    lemma_string_reads_are_local(s, k);
}

/// A length-prefixed string is read from its own bytes.
pub proof fn lemma_string_is_local(s: Seq<u8>, k: int)
    requires
        0 <= k <= s.len(),
    ensures
        cut_reads(parse_string(s), parse_string(s.take(k)), s, k, ReadError::UnexpectedEof),
{
    lemma_string_reads_are_local(s, k);
}

/// A map is read from its own bytes.
pub proof fn lemma_map_is_local(s: Seq<u8>, k: int)
    requires
        0 <= k <= s.len(),
    ensures
        cut_reads(parse_map(s), parse_map(s.take(k)), s, k, ReadError::UnexpectedEof),
{
    lemma_collection_reads_are_local(s, k);
}

/// A set is read from its own bytes.
pub proof fn lemma_set_is_local(s: Seq<u8>, k: int)
    requires
        0 <= k <= s.len(),
    ensures
        cut_reads(parse_set(s), parse_set(s.take(k)), s, k, ReadError::UnexpectedEof),
{
    lemma_collection_reads_are_local(s, k);
}

/// A list is read from its own bytes.
pub proof fn lemma_list_is_local(s: Seq<u8>, k: int)
    requires
        0 <= k <= s.len(),
    ensures
        cut_reads(parse_list(s), parse_list(s.take(k)), s, k, ReadError::UnexpectedEof),
{
    lemma_collection_reads_are_local(s, k);
}

} // verus!
