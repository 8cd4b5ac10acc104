use vstd::prelude::*;

verus! {

/// The unsigned 32-bit value with the same two's-complement bit pattern
/// as `x`.
pub open spec fn i32_as_u32(x: i32) -> u32 {
    if x >= 0 {
        x as u32
    } else {
        ((x as int) + 0x1_0000_0000) as u32
    }
}

/// The signed 32-bit value with the same two's-complement bit pattern
/// as `u`.
pub open spec fn u32_as_i32(u: u32) -> i32 {
    if u < 0x8000_0000 {
        u as i32
    } else {
        ((u as int) - 0x1_0000_0000) as i32
    }
}

/// The four bytes of `x` in big-endian order.
pub open spec fn spec_u32_to_be_bytes(x: u32) -> Seq<u8> {
    seq![
        ((x >> 24) & 0xff) as u8,
        ((x >> 16) & 0xff) as u8,
        ((x >> 8) & 0xff) as u8,
        (x & 0xff) as u8,
    ]
}

/// The unsigned 32-bit value encoded big-endian by a four-byte sequence.
pub open spec fn spec_u32_from_be_bytes(s: Seq<u8>) -> u32
    recommends
        s.len() == 4,
{
    ((s[0] as u32) << 24) | ((s[1] as u32) << 16) | ((s[2] as u32) << 8) | (s[3] as u32)
}

/// The four bytes of `x` in big-endian order, two's complement.
pub open spec fn spec_i32_to_be_bytes(x: i32) -> Seq<u8> {
    spec_u32_to_be_bytes(i32_as_u32(x))
}

/// The signed 32-bit value encoded big-endian, two's complement, by a
/// four-byte sequence.
pub open spec fn spec_i32_from_be_bytes(s: Seq<u8>) -> i32
    recommends
        s.len() == 4,
{
    u32_as_i32(spec_u32_from_be_bytes(s))
}

/// Reading back the two's-complement bit pattern of `x` yields `x`.
pub proof fn lemma_i32_u32_round_trip(x: i32)
    ensures
        u32_as_i32(i32_as_u32(x)) == x,
{
}

/// Big-endian u32 encoding round-trips for every value.
pub proof fn lemma_u32_be_round_trip(x: u32)
    ensures
        spec_u32_to_be_bytes(x).len() == 4,
        spec_u32_from_be_bytes(spec_u32_to_be_bytes(x)) == x,
{
    assert(((((x >> 24) & 0xff) as u8 as u32) << 24) | ((((x >> 16) & 0xff) as u8 as u32) << 16)
        | ((((x >> 8) & 0xff) as u8 as u32) << 8) | ((x & 0xff) as u8 as u32) == x)
        by (bit_vector);
}

/// Big-endian two's-complement i32 encoding round-trips for every value,
/// the minimum and maximum included.
pub proof fn lemma_i32_be_round_trip(x: i32)
    ensures
        spec_i32_to_be_bytes(x).len() == 4,
        spec_i32_from_be_bytes(spec_i32_to_be_bytes(x)) == x,
{
    lemma_u32_be_round_trip(i32_as_u32(x));
    lemma_i32_u32_round_trip(x);
}

/// Encode `x` as four big-endian two's-complement bytes.
pub fn i32_to_be_bytes(x: i32) -> (r: Vec<u8>)
    ensures
        r@ == spec_i32_to_be_bytes(x),
        r@.len() == 4,
{
    let u: u32 = if x >= 0 {
        x as u32
    } else {
        ((x as i64) + 0x1_0000_0000i64) as u32
    };
    assert(u == i32_as_u32(x));
    assert((u >> 24) & 0xff < 256 && (u >> 16) & 0xff < 256 && (u >> 8) & 0xff < 256 && u & 0xff
        < 256) by (bit_vector);
    let mut r: Vec<u8> = Vec::new();
    r.push(((u >> 24) & 0xff) as u8);
    r.push(((u >> 16) & 0xff) as u8);
    r.push(((u >> 8) & 0xff) as u8);
    r.push((u & 0xff) as u8);
    assert(r@ =~= spec_i32_to_be_bytes(x));
    r
}

/// Decode four big-endian two's-complement bytes into an i32.
pub fn i32_from_be_bytes(b0: u8, b1: u8, b2: u8, b3: u8) -> (r: i32)
    ensures
        r == spec_i32_from_be_bytes(seq![b0, b1, b2, b3]),
{
    let u: u32 = ((b0 as u32) << 24) | ((b1 as u32) << 16) | ((b2 as u32) << 8) | (b3 as u32);
    assert(u == spec_u32_from_be_bytes(seq![b0, b1, b2, b3]));
    if u < 0x8000_0000 {
        u as i32
    } else {
        ((u as i64) - 0x1_0000_0000i64) as i32
    }
}

} // verus!
