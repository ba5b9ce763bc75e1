//! The snapshot wire format: a whole collection of units as bytes.
//!
//! A snapshot is an eight-byte count followed by one record of 32 bytes
//! per unit, in collection order. All numbers are little-endian; signed
//! numbers are in two's complement. A record holds, in this order: the
//! identifier (2 bytes), x (2), y (2), the glyph's scalar value (4), the
//! faction (1: 0 green, 1 red), hit points (2), attack skill (2), damage
//! start (2), damage end (2), defence class (2), attack range (2), attack
//! rate (2), attack cooldown (2), movement rate (2), movement cooldown
//! (2), and the fighting flag (1: 0 or 1). Dead units are included.

use vstd::prelude::*;
use crate::entity::{Character, DamageRange, Faction};

verus! {

/// Bytes taken by the count that opens a snapshot.
pub const HEADER_LEN: usize = 8;

/// Bytes taken by the record of one unit.
pub const RECORD_LEN: usize = 32;

/// `char::from_u32` of std: gives the character with scalar value `i`, and
/// none exactly when `i` is a surrogate or lies above the last code point.
pub assume_specification[ char::from_u32 ](i: u32) -> (r: Option<char>)
    ensures
        (i <= 0xD7FF || 0xE000 <= i <= 0x10FFFF) ==> r == Some(i as char),
        !(i <= 0xD7FF || 0xE000 <= i <= 0x10FFFF) ==> r is None,
;

/// The two's-complement bit pattern of a signed number.
pub open spec fn signed_bits(v: i16) -> u16 {
    if v >= 0 {
        v as u16
    } else {
        (v + 65536) as u16
    }
}

/// The signed number with the given two's-complement bit pattern.
pub open spec fn signed_value(w: u16) -> i16 {
    if w < 32768 {
        w as i16
    } else {
        (w - 65536) as i16
    }
}

/// Whether `code` is the scalar value of a character.
pub open spec fn is_scalar(code: int) -> bool {
    0 <= code <= 0xD7FF || 0xE000 <= code <= 0x10FFFF
}

/// The number whose little-endian bytes are `b[at], .., b[at + width - 1]`.
pub open spec fn number_at(b: Seq<u8>, at: int, width: nat) -> nat
    decreases width,
{
    if width == 0 {
        0
    } else {
        b[at] as nat + 256 * number_at(b, at + 1, (width - 1) as nat)
    }
}

/// The `width` little-endian bytes of `v`, lowest first.
pub open spec fn number_bytes(v: nat, width: nat) -> Seq<u8>
    decreases width,
{
    if width == 0 {
        Seq::empty()
    } else {
        seq![(v % 256) as u8] + number_bytes(v / 256, (width - 1) as nat)
    }
}

/// The record of one unit.
pub open spec fn encode_unit(c: Character) -> Seq<u8> {
    number_bytes(c.unique_id as nat, 2) + number_bytes(signed_bits(c.x) as nat, 2) + number_bytes(
        signed_bits(c.y) as nat,
        2,
    ) + number_bytes(c.denotation as u32 as nat, 4) + seq![
        match c.color {
            Faction::Green => 0u8,
            Faction::Red => 1u8,
        },
    ] + number_bytes(signed_bits(c.hp) as nat, 2) + number_bytes(
        signed_bits(c.attack_skill) as nat,
        2,
    ) + number_bytes(signed_bits(c.damage_range.start) as nat, 2) + number_bytes(
        signed_bits(c.damage_range.end) as nat,
        2,
    ) + number_bytes(signed_bits(c.defence_class) as nat, 2) + number_bytes(
        signed_bits(c.attack_range) as nat,
        2,
    ) + number_bytes(signed_bits(c.attack_rate) as nat, 2) + number_bytes(
        signed_bits(c.attack_cooldown) as nat,
        2,
    ) + number_bytes(signed_bits(c.movement_rate) as nat, 2) + number_bytes(
        signed_bits(c.movement_cooldown) as nat,
        2,
    ) + seq![
        if c.is_attacking {
            1u8
        } else {
            0u8
        },
    ]
}

/// The signed number stored at `b[at], b[at + 1]`.
pub open spec fn signed_at(b: Seq<u8>, at: int) -> i16 {
    signed_value(number_at(b, at, 2) as u16)
}

/// The unit that a record describes, if the record is 32 bytes long and
/// its glyph, faction and flag are valid.
pub open spec fn decode_unit(b: Seq<u8>) -> Option<Character> {
    if b.len() == RECORD_LEN && is_scalar(number_at(b, 6, 4) as int) && b[10] <= 1 && b[31] <= 1 {
        Some(
            Character {
                unique_id: number_at(b, 0, 2) as u16,
                x: signed_at(b, 2),
                y: signed_at(b, 4),
                denotation: number_at(b, 6, 4) as u32 as char,
                color: if b[10] == 0 {
                    Faction::Green
                } else {
                    Faction::Red
                },
                hp: signed_at(b, 11),
                attack_skill: signed_at(b, 13),
                damage_range: DamageRange { start: signed_at(b, 15), end: signed_at(b, 17) },
                defence_class: signed_at(b, 19),
                attack_range: signed_at(b, 21),
                attack_rate: signed_at(b, 23),
                attack_cooldown: signed_at(b, 25),
                movement_rate: signed_at(b, 27),
                movement_cooldown: signed_at(b, 29),
                is_attacking: b[31] == 1,
            },
        )
    } else {
        None
    }
}

/// The records of the units of `s`, one after the other.
pub open spec fn encode_units(s: Seq<Character>) -> Seq<u8>
    decreases s.len(),
{
    if s.len() == 0 {
        Seq::empty()
    } else {
        encode_units(s.drop_last()) + encode_unit(s.last())
    }
}

/// The snapshot of a collection: its length, then its records.
pub open spec fn encode_snapshot(s: Seq<Character>) -> Seq<u8> {
    number_bytes(s.len(), 8) + encode_units(s)
}

/// The bytes of record number `i` of a snapshot.
pub open spec fn record(b: Seq<u8>, i: int) -> Seq<u8> {
    b.subrange(HEADER_LEN + i * RECORD_LEN, HEADER_LEN + (i + 1) * RECORD_LEN)
}

/// The snapshot has a count and exactly as many records as it announces.
pub open spec fn well_framed(b: Seq<u8>) -> bool {
    b.len() >= HEADER_LEN && b.len() == HEADER_LEN + number_at(b, 0, 8) * RECORD_LEN
}

/// The collection that a snapshot describes, if the snapshot is well
/// framed and every record in it is valid.
pub open spec fn decode_snapshot(b: Seq<u8>) -> Option<Seq<Character>> {
    if well_framed(b) && forall|i: int|
        0 <= i < number_at(b, 0, 8) ==> (#[trigger] decode_unit(record(b, i))) is Some {
        Some(Seq::new(number_at(b, 0, 8), |i: int| decode_unit(record(b, i))->0))
    } else {
        None
    }
}

/// The number of values that `width` bytes can tell apart: 256 to the
/// power `width`.
pub open spec fn radix(width: nat) -> nat
    decreases width,
{
    if width == 0 {
        1
    } else {
        256 * radix((width - 1) as nat)
    }
}

/// The radix of the field widths in use.
proof fn lemma_radix_values()
    ensures
        radix(1) == 0x100,
        radix(2) == 0x1_0000,
        radix(4) == 0x1_0000_0000,
        radix(8) == 0x1_0000_0000_0000_0000,
{
    reveal_with_fuel(radix, 9);
}

/// A number written in `width` bytes takes `width` bytes.
proof fn lemma_number_bytes_len(v: nat, width: nat)
    ensures
        number_bytes(v, width).len() == width,
    decreases width,
{
    if width > 0 {
        lemma_number_bytes_len(v / 256, (width - 1) as nat);
    }
}

/// A number read from `width` bytes lies below the radix of `width`.
proof fn lemma_number_at_bound(b: Seq<u8>, at: int, width: nat)
    ensures
        number_at(b, at, width) < radix(width),
    decreases width,
{
    if width > 0 {
        lemma_number_at_bound(b, at + 1, (width - 1) as nat);
    }
}

/// Reading a number depends only on the bytes it is read from.
proof fn lemma_number_at_window(b: Seq<u8>, from: int, to: int, at: int, width: nat)
    requires
        0 <= from <= to <= b.len(),
        0 <= at,
        at + width <= to - from,
    ensures
        number_at(b.subrange(from, to), at, width) == number_at(b, from + at, width),
    decreases width,
{
    if width > 0 {
        lemma_number_at_window(b, from, to, at + 1, (width - 1) as nat);
    }
}

/// Reading back the bytes of a number gives the number.
proof fn lemma_read_written(b: Seq<u8>, at: int, v: nat, width: nat)
    requires
        v < radix(width),
        0 <= at,
        at + width <= b.len(),
        b.subrange(at, at + width) == number_bytes(v, width),
    ensures
        number_at(b, at, width) == v,
    decreases width,
{
    if width > 0 {
        let rest = number_bytes(v / 256, (width - 1) as nat);
        lemma_number_bytes_len(v / 256, (width - 1) as nat);
        assert(b.subrange(at, at + width)[0] == (v % 256) as u8);
        assert(b.subrange(at + 1, at + width) =~= rest) by {
            assert forall|k: int| 0 <= k < rest.len() implies b.subrange(at + 1, at + width)[k]
                == rest[k] by {
                assert(b.subrange(at, at + width)[k + 1] == number_bytes(v, width)[k + 1]);
            }
        }
        lemma_read_written(b, at + 1, v / 256, (width - 1) as nat);
    }
}

/// Writing out a number that was read gives the bytes it was read from.
proof fn lemma_written_read(b: Seq<u8>, at: int, width: nat)
    requires
        0 <= at,
        at + width <= b.len(),
    ensures
        number_bytes(number_at(b, at, width), width) == b.subrange(at, at + width),
    decreases width,
{
    if width > 0 {
        let rest = number_at(b, at + 1, (width - 1) as nat);
        lemma_written_read(b, at + 1, (width - 1) as nat);
        assert((b[at] as nat + 256 * rest) % 256 == b[at] as nat);
        assert((b[at] as nat + 256 * rest) / 256 == rest);
        assert(number_bytes(number_at(b, at, width), width) =~= b.subrange(at, at + width)) by {
            lemma_number_bytes_len(rest, (width - 1) as nat);
            assert forall|k: int| 0 <= k < width implies number_bytes(
                number_at(b, at, width),
                width,
            )[k] == b.subrange(at, at + width)[k] by {
                if k > 0 {
                    assert(b.subrange(at + 1, at + width)[k - 1] == b[at + k]);
                }
            }
        }
    } else {
        assert(number_bytes(number_at(b, at, width), width) =~= b.subrange(at, at + width));
    }
}

/// A record is 32 bytes long, and decoding it gives back the unit.
pub proof fn lemma_unit_round_trip(c: Character)
    ensures
        encode_unit(c).len() == RECORD_LEN,
        decode_unit(encode_unit(c)) == Some(c),
{
    let b = encode_unit(c);
    let id = c.unique_id as nat;
    let x = signed_bits(c.x) as nat;
    let y = signed_bits(c.y) as nat;
    let glyph = c.denotation as u32 as nat;
    let hp = signed_bits(c.hp) as nat;
    let skill = signed_bits(c.attack_skill) as nat;
    let low = signed_bits(c.damage_range.start) as nat;
    let high = signed_bits(c.damage_range.end) as nat;
    let defence = signed_bits(c.defence_class) as nat;
    let reach = signed_bits(c.attack_range) as nat;
    let attack_rate = signed_bits(c.attack_rate) as nat;
    let attack_cooldown = signed_bits(c.attack_cooldown) as nat;
    let movement_rate = signed_bits(c.movement_rate) as nat;
    let movement_cooldown = signed_bits(c.movement_cooldown) as nat;
    lemma_radix_values();
    lemma_number_bytes_len(id, 2);
    lemma_number_bytes_len(x, 2);
    lemma_number_bytes_len(y, 2);
    lemma_number_bytes_len(glyph, 4);
    lemma_number_bytes_len(hp, 2);
    lemma_number_bytes_len(skill, 2);
    lemma_number_bytes_len(low, 2);
    lemma_number_bytes_len(high, 2);
    lemma_number_bytes_len(defence, 2);
    lemma_number_bytes_len(reach, 2);
    lemma_number_bytes_len(attack_rate, 2);
    lemma_number_bytes_len(attack_cooldown, 2);
    lemma_number_bytes_len(movement_rate, 2);
    lemma_number_bytes_len(movement_cooldown, 2);
    assert(b.len() == 32);
    assert(b.subrange(0, 2) =~= number_bytes(id, 2));
    lemma_read_written(b, 0, id, 2);
    assert(b.subrange(2, 4) =~= number_bytes(x, 2));
    lemma_read_written(b, 2, x, 2);
    assert(b.subrange(4, 6) =~= number_bytes(y, 2));
    lemma_read_written(b, 4, y, 2);
    assert(b.subrange(6, 10) =~= number_bytes(glyph, 4));
    lemma_read_written(b, 6, glyph, 4);
    assert(b.subrange(11, 13) =~= number_bytes(hp, 2));
    lemma_read_written(b, 11, hp, 2);
    assert(b.subrange(13, 15) =~= number_bytes(skill, 2));
    lemma_read_written(b, 13, skill, 2);
    assert(b.subrange(15, 17) =~= number_bytes(low, 2));
    lemma_read_written(b, 15, low, 2);
    assert(b.subrange(17, 19) =~= number_bytes(high, 2));
    lemma_read_written(b, 17, high, 2);
    assert(b.subrange(19, 21) =~= number_bytes(defence, 2));
    lemma_read_written(b, 19, defence, 2);
    assert(b.subrange(21, 23) =~= number_bytes(reach, 2));
    lemma_read_written(b, 21, reach, 2);
    assert(b.subrange(23, 25) =~= number_bytes(attack_rate, 2));
    lemma_read_written(b, 23, attack_rate, 2);
    assert(b.subrange(25, 27) =~= number_bytes(attack_cooldown, 2));
    lemma_read_written(b, 25, attack_cooldown, 2);
    assert(b.subrange(27, 29) =~= number_bytes(movement_rate, 2));
    lemma_read_written(b, 27, movement_rate, 2);
    assert(b.subrange(29, 31) =~= number_bytes(movement_cooldown, 2));
    lemma_read_written(b, 29, movement_cooldown, 2);
    assert(b[10] == match c.color {
        Faction::Green => 0u8,
        Faction::Red => 1u8,
    });
    assert(b[31] == if c.is_attacking {
        1u8
    } else {
        0u8
    });
    assert(decode_unit(b)->0.denotation == c.denotation);
}

/// Writing out a signed number that was read gives the bytes it was read
/// from.
proof fn lemma_signed_field(b: Seq<u8>, at: int)
    requires
        0 <= at,
        at + 2 <= b.len(),
    ensures
        number_bytes(signed_bits(signed_at(b, at)) as nat, 2) == b.subrange(at, at + 2),
{
    lemma_radix_values();
    lemma_number_at_bound(b, at, 2);
    lemma_written_read(b, at, 2);
}

/// Two adjoining windows of a byte string make up the window that spans
/// both.
proof fn lemma_join(b: Seq<u8>, from: int, mid: int, to: int)
    requires
        0 <= from <= mid <= to <= b.len(),
    ensures
        b.subrange(from, mid) + b.subrange(mid, to) == b.subrange(from, to),
{
    assert(b.subrange(from, mid) + b.subrange(mid, to) =~= b.subrange(from, to));
}

/// Encoding the unit that a valid record describes gives the record back.
pub proof fn lemma_unit_canonical(b: Seq<u8>)
    requires
        decode_unit(b) is Some,
    ensures
        encode_unit(decode_unit(b)->0) == b,
{
    let c = decode_unit(b)->0;
    assert(number_bytes(c.unique_id as nat, 2) == b.subrange(0, 2)) by {
        lemma_radix_values();
        lemma_number_at_bound(b, 0, 2);
        lemma_written_read(b, 0, 2);
    }
    assert(number_bytes(c.denotation as u32 as nat, 4) == b.subrange(6, 10)) by {
        lemma_radix_values();
        lemma_number_at_bound(b, 6, 4);
        lemma_written_read(b, 6, 4);
        assert(c.denotation as u32 as nat == number_at(b, 6, 4));
    }
    let side = seq![
        match c.color {
            Faction::Green => 0u8,
            Faction::Red => 1u8,
        },
    ];
    let flag = seq![
        if c.is_attacking {
            1u8
        } else {
            0u8
        },
    ];
    assert(side =~= b.subrange(10, 11));
    assert(flag =~= b.subrange(31, 32));
    lemma_signed_field(b, 2);
    lemma_signed_field(b, 4);
    lemma_signed_field(b, 11);
    lemma_signed_field(b, 13);
    lemma_signed_field(b, 15);
    lemma_signed_field(b, 17);
    lemma_signed_field(b, 19);
    lemma_signed_field(b, 21);
    lemma_signed_field(b, 23);
    lemma_signed_field(b, 25);
    lemma_signed_field(b, 27);
    lemma_signed_field(b, 29);
    lemma_join(b, 0, 2, 4);
    lemma_join(b, 0, 4, 6);
    lemma_join(b, 0, 6, 10);
    lemma_join(b, 0, 10, 11);
    lemma_join(b, 0, 11, 13);
    lemma_join(b, 0, 13, 15);
    lemma_join(b, 0, 15, 17);
    lemma_join(b, 0, 17, 19);
    lemma_join(b, 0, 19, 21);
    lemma_join(b, 0, 21, 23);
    lemma_join(b, 0, 23, 25);
    lemma_join(b, 0, 25, 27);
    lemma_join(b, 0, 27, 29);
    lemma_join(b, 0, 29, 31);
    lemma_join(b, 0, 31, 32);
    assert(b.subrange(0, 32) =~= b);
}

/// The records of a collection lie side by side, 32 bytes each.
pub proof fn lemma_units_layout(s: Seq<Character>)
    ensures
        encode_units(s).len() == s.len() * RECORD_LEN,
        forall|i: int|
            0 <= i < s.len() ==> #[trigger] encode_units(s).subrange(
                i * RECORD_LEN,
                (i + 1) * RECORD_LEN,
            ) == encode_unit(s[i]),
    decreases s.len(),
{
    if s.len() > 0 {
        let head = s.drop_last();
        lemma_units_layout(head);
        lemma_unit_round_trip(s.last());
        assert forall|i: int| 0 <= i < s.len() implies #[trigger] encode_units(s).subrange(
            i * RECORD_LEN,
            (i + 1) * RECORD_LEN,
        ) == encode_unit(s[i]) by {
            if i < head.len() {
                assert(encode_units(s).subrange(i * RECORD_LEN, (i + 1) * RECORD_LEN)
                    =~= encode_units(head).subrange(i * RECORD_LEN, (i + 1) * RECORD_LEN));
                assert(head[i] == s[i]);
            } else {
                assert(encode_units(s).subrange(i * RECORD_LEN, (i + 1) * RECORD_LEN)
                    =~= encode_unit(s.last()));
            }
        }
    }
}

/// Decoding the snapshot of a collection gives back the same collection,
/// unit for unit and field for field: empty, living or dead.
pub proof fn lemma_snapshot_round_trip(s: Seq<Character>)
    requires
        s.len() <= u64::MAX,
    ensures
        decode_snapshot(encode_snapshot(s)) == Some(s),
{
    let b = encode_snapshot(s);
    lemma_radix_values();
    lemma_number_bytes_len(s.len(), 8);
    lemma_units_layout(s);
    assert(b.subrange(0, 8) =~= number_bytes(s.len(), 8));
    lemma_read_written(b, 0, s.len(), 8);
    assert forall|i: int| 0 <= i < s.len() implies #[trigger] decode_unit(record(b, i)) == Some(
        s[i],
    ) by {
        assert(record(b, i) =~= encode_units(s).subrange(i * RECORD_LEN, (i + 1) * RECORD_LEN));
        lemma_unit_round_trip(s[i]);
    }
    assert(decode_snapshot(b)->0 =~= s);
}

/// Encoding the units that the first `count` records describe gives those
/// records back.
proof fn lemma_units_from_records(b: Seq<u8>, count: nat)
    requires
        HEADER_LEN + count * RECORD_LEN <= b.len(),
        forall|i: int| 0 <= i < count ==> (#[trigger] decode_unit(record(b, i))) is Some,
    ensures
        encode_units(Seq::new(count, |i: int| decode_unit(record(b, i))->0)) == b.subrange(
            HEADER_LEN as int,
            HEADER_LEN + count * RECORD_LEN,
        ),
    decreases count,
{
    let units = Seq::new(count, |i: int| decode_unit(record(b, i))->0);
    if count > 0 {
        let fewer = Seq::new((count - 1) as nat, |i: int| decode_unit(record(b, i))->0);
        lemma_units_from_records(b, (count - 1) as nat);
        assert(units.drop_last() =~= fewer);
        assert(decode_unit(record(b, count - 1)) is Some);
        lemma_unit_canonical(record(b, count - 1));
        assert(encode_units(units) =~= b.subrange(
            HEADER_LEN as int,
            HEADER_LEN + count * RECORD_LEN,
        ));
    } else {
        assert(encode_units(units) =~= b.subrange(
            HEADER_LEN as int,
            HEADER_LEN + count * RECORD_LEN,
        ));
    }
}

/// A byte string decodes only if it is the snapshot of what it decodes to:
/// no two byte strings describe the same collection.
pub proof fn lemma_snapshot_canonical(b: Seq<u8>)
    requires
        decode_snapshot(b) is Some,
    ensures
        encode_snapshot(decode_snapshot(b)->0) == b,
{
    let count = number_at(b, 0, 8);
    lemma_units_from_records(b, count);
    lemma_written_read(b, 0, 8);
    assert(encode_snapshot(decode_snapshot(b)->0) =~= b);
}

/// Gives the two's-complement bit pattern of a signed number.
fn to_bits(v: i16) -> (w: u16)
    ensures
        w == signed_bits(v),
{
    if v >= 0 {
        v as u16
    } else {
        (v as i32 + 65536) as u16
    }
}

/// Gives the signed number with a two's-complement bit pattern.
fn from_bits(w: u16) -> (v: i16)
    ensures
        v == signed_value(w),
{
    if w < 32768 {
        w as i16
    } else {
        (w as i32 - 65536) as i16
    }
}

/// Appends the `width` little-endian bytes of `value`.
fn push_number(out: &mut Vec<u8>, value: u64, width: usize)
    requires
        width <= 8,
    ensures
        final(out)@ == old(out)@ + number_bytes(value as nat, width as nat),
{
    let mut rest: u64 = value;
    let mut k: usize = 0;
    while k < width
        invariant
            k <= width,
            out@ + number_bytes(rest as nat, (width - k) as nat) == old(out)@ + number_bytes(
                value as nat,
                width as nat,
            ),
        decreases width - k,
    {
        let ghost before = out@;
        out.push((rest % 256) as u8);
        assert(out@ + number_bytes((rest / 256) as nat, (width - k - 1) as nat) =~= before
            + number_bytes(rest as nat, (width - k) as nat));
        rest = rest / 256;
        k = k + 1;
    }
    assert(out@ + number_bytes(rest as nat, 0) =~= out@);
}

/// Appends the two bytes of a signed number.
fn push_signed(out: &mut Vec<u8>, v: i16)
    ensures
        final(out)@ == old(out)@ + number_bytes(signed_bits(v) as nat, 2),
{
    push_number(out, to_bits(v) as u64, 2);
}

/// Reads the number stored in `width` bytes from position `at` on.
fn read_number(bytes: &[u8], at: usize, width: usize) -> (v: u64)
    requires
        width <= 8,
        at + width <= bytes.len(),
    ensures
        v == number_at(bytes@, at as int, width as nat),
{
    let mut acc: u64 = 0;
    let mut k: usize = width;
    while k > 0
        invariant
            k <= width <= 8,
            at + width <= bytes.len(),
            acc == number_at(bytes@, at + k, (width - k) as nat),
        decreases k,
    {
        proof {
            lemma_number_at_bound(bytes@, at + k, (width - k) as nat);
            reveal_with_fuel(radix, 9);
        }
        k = k - 1;
        acc = acc * 256 + bytes[at + k] as u64;
    }
    acc
}

/// Reads the signed number stored in the two bytes from position `at` on.
fn read_signed(bytes: &[u8], at: usize) -> (v: i16)
    requires
        at + 2 <= bytes.len(),
    ensures
        v == signed_at(bytes@, at as int),
{
    proof {
        lemma_number_at_bound(bytes@, at as int, 2);
        lemma_radix_values();
    }
    from_bits(read_number(bytes, at, 2) as u16)
}

/// Appends the record of `unit`.
fn push_unit(out: &mut Vec<u8>, unit: &Character)
    ensures
        final(out)@ == old(out)@ + encode_unit(*unit),
{
    push_number(out, unit.unique_id as u64, 2);
    push_signed(out, unit.x);
    push_signed(out, unit.y);
    push_number(out, unit.denotation as u32 as u64, 4);
    out.push(
        match unit.color {
            Faction::Green => 0u8,
            Faction::Red => 1u8,
        },
    );
    push_signed(out, unit.hp);
    push_signed(out, unit.attack_skill);
    push_signed(out, unit.damage_range.start);
    push_signed(out, unit.damage_range.end);
    push_signed(out, unit.defence_class);
    push_signed(out, unit.attack_range);
    push_signed(out, unit.attack_rate);
    push_signed(out, unit.attack_cooldown);
    push_signed(out, unit.movement_rate);
    push_signed(out, unit.movement_cooldown);
    out.push(
        if unit.is_attacking {
            1u8
        } else {
            0u8
        },
    );
    assert(out@ =~= old(out)@ + encode_unit(*unit));
}

/// Reads the record that starts at position `at`.
fn read_unit(bytes: &[u8], at: usize) -> (unit: Option<Character>)
    requires
        at + RECORD_LEN <= bytes.len(),
    ensures
        unit == decode_unit(bytes@.subrange(at as int, at + RECORD_LEN)),
{
    proof {
        let to = at + RECORD_LEN;
        lemma_number_at_window(bytes@, at as int, to, 0, 2);
        lemma_number_at_window(bytes@, at as int, to, 2, 2);
        lemma_number_at_window(bytes@, at as int, to, 4, 2);
        lemma_number_at_window(bytes@, at as int, to, 6, 4);
        lemma_number_at_window(bytes@, at as int, to, 11, 2);
        lemma_number_at_window(bytes@, at as int, to, 13, 2);
        lemma_number_at_window(bytes@, at as int, to, 15, 2);
        lemma_number_at_window(bytes@, at as int, to, 17, 2);
        lemma_number_at_window(bytes@, at as int, to, 19, 2);
        lemma_number_at_window(bytes@, at as int, to, 21, 2);
        lemma_number_at_window(bytes@, at as int, to, 23, 2);
        lemma_number_at_window(bytes@, at as int, to, 25, 2);
        lemma_number_at_window(bytes@, at as int, to, 27, 2);
        lemma_number_at_window(bytes@, at as int, to, 29, 2);
        lemma_number_at_bound(bytes@, at as int, 2);
        lemma_number_at_bound(bytes@, at + 6, 4);
        lemma_radix_values();
    }
    let code: u32 = read_number(bytes, at + 6, 4) as u32;
    let side: u8 = bytes[at + 10];
    let flag: u8 = bytes[at + 31];
    let glyph: char = match char::from_u32(code) {
        Some(glyph) => glyph,
        None => {
            return None;
        },
    };
    if side > 1 || flag > 1 {
        return None;
    }
    proof {
        let b = bytes@.subrange(at as int, at + RECORD_LEN);
        assert(b[10] == side && b[31] == flag);
    }
    Some(
        Character {
            unique_id: read_number(bytes, at, 2) as u16,
            x: read_signed(bytes, at + 2),
            y: read_signed(bytes, at + 4),
            denotation: glyph,
            color: if side == 0 {
                Faction::Green
            } else {
                Faction::Red
            },
            hp: read_signed(bytes, at + 11),
            attack_skill: read_signed(bytes, at + 13),
            damage_range: DamageRange {
                start: read_signed(bytes, at + 15),
                end: read_signed(bytes, at + 17),
            },
            defence_class: read_signed(bytes, at + 19),
            attack_range: read_signed(bytes, at + 21),
            attack_rate: read_signed(bytes, at + 23),
            attack_cooldown: read_signed(bytes, at + 25),
            movement_rate: read_signed(bytes, at + 27),
            movement_cooldown: read_signed(bytes, at + 29),
            is_attacking: flag == 1,
        },
    )
}

/// Writes the snapshot of a collection.
pub fn encode(pieces: &Vec<Character>) -> (bytes: Vec<u8>)
    ensures
        bytes@ == encode_snapshot(pieces@),
        decode_snapshot(bytes@) == Some(pieces@),
{
    let mut out: Vec<u8> = Vec::new();
    push_number(&mut out, pieces.len() as u64, 8);
    let mut i: usize = 0;
    while i < pieces.len()
        invariant
            i <= pieces.len(),
            out@ == number_bytes(pieces.len() as nat, 8) + encode_units(pieces@.take(i as int)),
        decreases pieces.len() - i,
    {
        push_unit(&mut out, &pieces[i]);
        proof {
            assert(pieces@.take(i + 1).drop_last() =~= pieces@.take(i as int));
            assert(out@ =~= number_bytes(pieces.len() as nat, 8) + encode_units(
                pieces@.take(i + 1),
            ));
        }
        i = i + 1;
    }
    proof {
        assert(pieces@.take(i as int) =~= pieces@);
        lemma_snapshot_round_trip(pieces@);
    }
    out
}

/// Reads a snapshot. Succeeds exactly on the byte strings that `encode`
/// produces, and then gives the collection that was encoded.
pub fn decode(bytes: &[u8]) -> (pieces: Option<Vec<Character>>)
    ensures
        match pieces {
            Some(units) => decode_snapshot(bytes@) == Some(units@) && encode_snapshot(units@)
                == bytes@,
            None => decode_snapshot(bytes@) is None,
        },
{
    let len: usize = bytes.len();
    if len < HEADER_LEN {
        return None;
    }
    let count: u64 = read_number(bytes, 0, 8);
    let body: usize = len - HEADER_LEN;
    if body % RECORD_LEN != 0 || (body / RECORD_LEN) as u64 != count {
        return None;
    }
    let mut units: Vec<Character> = Vec::new();
    let mut i: usize = 0;
    while i < body / RECORD_LEN
        invariant
            i <= body / RECORD_LEN,
            len == bytes.len(),
            body == len - HEADER_LEN,
            body % RECORD_LEN == 0,
            body / RECORD_LEN == count,
            count == number_at(bytes@, 0, 8),
            well_framed(bytes@),
            forall|k: int| 0 <= k < i ==> (#[trigger] decode_unit(record(bytes@, k))) is Some,
            units@ == Seq::new(i as nat, |k: int| decode_unit(record(bytes@, k))->0),
        decreases body / RECORD_LEN - i,
    {
        match read_unit(bytes, HEADER_LEN + i * RECORD_LEN) {
            None => {
                assert(decode_unit(record(bytes@, i as int)) is None);
                return None;
            },
            Some(unit) => {
                units.push(unit);
            },
        }
        i = i + 1;
        assert(units@ =~= Seq::new(i as nat, |k: int| decode_unit(record(bytes@, k))->0));
    }
    proof {
        assert(units@ =~= decode_snapshot(bytes@)->0);
        lemma_snapshot_canonical(bytes@);
    }
    Some(units)
}

} // verus!
