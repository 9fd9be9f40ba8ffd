//! Integers as bytes in the order of the machine.
use crate::host::ByteOrder;
use vstd::prelude::*;

verus! {

/// The digit of `value` in base 256 that has `place` digits below it.
pub open spec fn digit(value: int, place: nat) -> u8
    decreases place,
{
    if place == 0 {
        (value % 256) as u8
    } else {
        digit(value / 256, (place - 1) as nat)
    }
}

pub open spec fn u16_bytes(order: ByteOrder, value: u16) -> Seq<u8> {
    match order {
        ByteOrder::Little => seq![digit(value as int, 0), digit(value as int, 1)],
        ByteOrder::Big => seq![digit(value as int, 1), digit(value as int, 0)],
    }
}

pub open spec fn u16_value(order: ByteOrder, bytes: Seq<u8>) -> int {
    match order {
        ByteOrder::Little => bytes[0] + 256 * bytes[1],
        ByteOrder::Big => bytes[1] + 256 * bytes[0],
    }
}

pub open spec fn u32_bytes(order: ByteOrder, value: u32) -> Seq<u8> {
    let v = value as int;
    match order {
        ByteOrder::Little => seq![digit(v, 0), digit(v, 1), digit(v, 2), digit(v, 3)],
        ByteOrder::Big => seq![digit(v, 3), digit(v, 2), digit(v, 1), digit(v, 0)],
    }
}

pub open spec fn u32_value(order: ByteOrder, bytes: Seq<u8>) -> int {
    match order {
        ByteOrder::Little => bytes[0] + 256 * (bytes[1] + 256 * (bytes[2] + 256 * bytes[3])),
        ByteOrder::Big => bytes[3] + 256 * (bytes[2] + 256 * (bytes[1] + 256 * bytes[0])),
    }
}

/// The bytes of a 16 bit integer give it back.
pub proof fn law_u16_round_trip(order: ByteOrder, value: u16)
    ensures
        u16_bytes(order, value).len() == 2,
        u16_value(order, u16_bytes(order, value)) == value,
{
    reveal_with_fuel(digit, 2);
}

/// The bytes of a 32 bit integer give it back.
pub proof fn law_u32_round_trip(order: ByteOrder, value: u32)
    ensures
        u32_bytes(order, value).len() == 4,
        u32_value(order, u32_bytes(order, value)) == value,
{
    reveal_with_fuel(digit, 4);
}

/// Of the two bytes of an integer, the first holds its lower half on a machine that starts with
/// the lowest byte, and its upper half on one that starts with the highest.
pub proof fn law_u16_bytes_in_order(value: u16)
    ensures
        ({
            let little = u16_bytes(ByteOrder::Little, value);
            let big = u16_bytes(ByteOrder::Big, value);
            &&& little.len() == 2 && big.len() == 2
            &&& little[0] as int == big[1] as int == value as int % 0x100
            &&& little[1] as int == big[0] as int == value as int / 0x100
        }),
{
    reveal_with_fuel(digit, 2);
}

/// The two bytes of an integer weigh 1 and 256, from the end at which the machine starts.
pub proof fn law_u16_value_in_order(bytes: Seq<u8>)
    requires
        bytes.len() == 2,
    ensures
        u16_value(ByteOrder::Little, bytes) == bytes[0] + 0x100 * bytes[1],
        u16_value(ByteOrder::Big, bytes) == bytes[1] + 0x100 * bytes[0],
{
}

/// Of the four bytes of an integer, byte `k` on a machine that starts with the lowest byte, and
/// byte `3 - k` on one that starts with the highest, is the digit of weight 256 to the `k`.
pub proof fn law_u32_bytes_in_order(value: u32)
    ensures
        ({
            let little = u32_bytes(ByteOrder::Little, value);
            let big = u32_bytes(ByteOrder::Big, value);
            &&& little.len() == 4 && big.len() == 4
            &&& little[0] as int == big[3] as int == value as int % 0x100
            &&& little[1] as int == big[2] as int == value as int / 0x100 % 0x100
            &&& little[2] as int == big[1] as int == value as int / 0x1_0000 % 0x100
            &&& little[3] as int == big[0] as int == value as int / 0x100_0000
        }),
{
    reveal_with_fuel(digit, 4);
}

/// The four bytes of an integer weigh the powers of 256, from the end at which the machine starts.
pub proof fn law_u32_value_in_order(bytes: Seq<u8>)
    requires
        bytes.len() == 4,
    ensures
        u32_value(ByteOrder::Little, bytes) == bytes[0] + 0x100 * bytes[1] + 0x1_0000 * bytes[2]
            + 0x100_0000 * bytes[3],
        u32_value(ByteOrder::Big, bytes) == bytes[3] + 0x100 * bytes[2] + 0x1_0000 * bytes[1]
            + 0x100_0000 * bytes[0],
{
}

/// The two bytes of a 16 bit integer.
pub(crate) fn encode_u16(order: ByteOrder, value: u16) -> (bytes: [u8; 2])
    ensures
        bytes@ == u16_bytes(order, value),
{
    proof {
        reveal_with_fuel(digit, 2);
    }
    let low: u8 = (value % 256) as u8;
    let high: u8 = (value / 256 % 256) as u8;
    match order {
        ByteOrder::Little => [low, high],
        ByteOrder::Big => [high, low],
    }
}

/// The 16 bit integer at `at`.
pub(crate) fn decode_u16(order: ByteOrder, bytes: &[u8], at: usize) -> (value: u16)
    requires
        at + 2 <= bytes@.len(),
    ensures
        value == u16_value(order, bytes@.subrange(at as int, at + 2)),
{
    let first: u16 = bytes[at] as u16;
    let second: u16 = bytes[at + 1] as u16;
    match order {
        ByteOrder::Little => first + 256 * second,
        ByteOrder::Big => second + 256 * first,
    }
}

/// The four bytes of a 32 bit integer.
pub(crate) fn encode_u32(order: ByteOrder, value: u32) -> (bytes: [u8; 4])
    ensures
        bytes@ == u32_bytes(order, value),
{
    proof {
        reveal_with_fuel(digit, 4);
    }
    let d0: u8 = (value % 256) as u8;
    let d1: u8 = (value / 256 % 256) as u8;
    let d2: u8 = (value / 256 / 256 % 256) as u8;
    let d3: u8 = (value / 256 / 256 / 256 % 256) as u8;
    match order {
        ByteOrder::Little => [d0, d1, d2, d3],
        ByteOrder::Big => [d3, d2, d1, d0],
    }
}

/// The 32 bit integer at `at`.
pub(crate) fn decode_u32(order: ByteOrder, bytes: &[u8], at: usize) -> (value: u32)
    requires
        at + 4 <= bytes@.len(),
    ensures
        value == u32_value(order, bytes@.subrange(at as int, at + 4)),
{
    let b0: u32 = bytes[at] as u32;
    let b1: u32 = bytes[at + 1] as u32;
    let b2: u32 = bytes[at + 2] as u32;
    let b3: u32 = bytes[at + 3] as u32;
    match order {
        ByteOrder::Little => b0 + 256 * (b1 + 256 * (b2 + 256 * b3)),
        ByteOrder::Big => b3 + 256 * (b2 + 256 * (b1 + 256 * b0)),
    }
}

} // verus!
