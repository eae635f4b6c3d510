//! Frame checksums and scores: CRC-16/X-25, the rolling routing tag, and the
//! printable-byte score.
use vstd::prelude::*;

verus! {

/// `x.rotate_left(r)` for `r < 32`.
pub open spec fn rotl32(x: u32, r: u32) -> u32 {
    if r == 0 {
        x
    } else {
        (x << r) | (x >> ((32 - r) as u32))
    }
}

/// `x.rotate_left(r)` for `r < 64`.
pub open spec fn rotl64(x: u64, r: u32) -> u64 {
    if r == 0 {
        x
    } else {
        (x << r) | (x >> ((64 - r) as u32))
    }
}

/// Rotates the bits of `x` left by `r` places.
pub fn rotate_left32(x: u32, r: u32) -> (y: u32)
    requires
        r < 32,
    ensures
        y == rotl32(x, r),
{
    if r == 0 {
        x
    } else {
        (x << r) | (x >> (32 - r))
    }
}

/// Rotates the bits of `x` left by `r` places.
pub fn rotate_left64(x: u64, r: u32) -> (y: u64)
    requires
        r < 64,
    ensures
        y == rotl64(x, r),
{
    if r == 0 {
        x
    } else {
        (x << r) | (x >> (64 - r))
    }
}

/// One bit step of the reflected CRC-16 with polynomial 0x8408.
pub open spec fn crc_bit(crc: u16) -> u16 {
    if crc & 1 != 0 {
        (crc >> 1u16) ^ 0x8408u16
    } else {
        crc >> 1u16
    }
}

/// `n` bit steps.
pub open spec fn crc_bits(crc: u16, n: nat) -> u16
    decreases n,
{
    if n == 0 {
        crc
    } else {
        crc_bits(crc_bit(crc), (n - 1) as nat)
    }
}

/// The CRC register after the bytes of `data`, starting from 0xffff.
pub open spec fn crc_register(data: Seq<u8>) -> u16
    decreases data.len(),
{
    if data.len() == 0 {
        0xffff
    } else {
        crc_bits(crc_register(data.drop_last()) ^ (data.last() as u16), 8)
    }
}

/// CRC-16/X-25 of `data`: the final register, inverted.
pub open spec fn spec_crc16_x25(data: Seq<u8>) -> u16 {
    !crc_register(data)
}

pub fn crc16_x25(data: &[u8]) -> (r: u16)
    ensures
        r == spec_crc16_x25(data@),
{
    let mut crc: u16 = 0xffff;
    let mut i: usize = 0;
    while i < data.len()
        invariant
            i <= data@.len(),
            crc == crc_register(data@.take(i as int)),
        decreases data@.len() - i,
    {
        let byte = data[i];
        assert(data@.take(i + 1).drop_last() =~= data@.take(i as int));
        crc ^= byte as u16;
        let ghost start = crc;
        let mut k: u32 = 0;
        while k < 8
            invariant
                k <= 8,
                crc_bits(start, 8) == crc_bits(crc, (8 - k) as nat),
            decreases 8 - k,
        {
            if crc & 1 != 0 {
                crc = (crc >> 1) ^ 0x8408;
            } else {
                crc >>= 1;
            }
            k += 1;
        }
        i += 1;
    }
    assert(data@.take(i as int) =~= data@);
    !crc
}

/// One step of the routing tag over the byte `b` at index `idx`.
pub open spec fn tag_step(acc: u32, idx: u32, b: u8) -> u32 {
    let rot = (idx & 15) + 5;
    let mixed = rotl32(acc, rot as u32) ^ (b as u32).wrapping_mul(0x45d9_f3b);
    mixed.wrapping_add(idx.wrapping_mul(0x27d4_eb2d))
}

/// The accumulator after the bytes of `data`, starting from `seed ^ 0x9e3779b9`.
pub open spec fn tag_acc(seed: u32, data: Seq<u8>) -> u32
    decreases data.len(),
{
    if data.len() == 0 {
        seed ^ 0x9e37_79b9u32
    } else {
        tag_step(tag_acc(seed, data.drop_last()), ((data.len() - 1) as int) as u32, data.last())
    }
}

pub fn rolling_tag(seed: u32, data: &[u8]) -> (r: u32)
    ensures
        r == tag_acc(seed, data@),
{
    let mut acc = seed ^ 0x9e37_79b9;
    let mut idx: usize = 0;
    while idx < data.len()
        invariant
            idx <= data@.len(),
            acc == tag_acc(seed, data@.take(idx as int)),
        decreases data@.len() - idx,
    {
        let byte = data[idx];
        assert(data@.take(idx + 1).drop_last() =~= data@.take(idx as int));
        let i32v = idx as u32;
        assert((i32v & 15) < 16) by (bit_vector);
        let rot = (i32v & 15) + 5;
        acc = rotate_left32(acc, rot) ^ (byte as u32).wrapping_mul(0x45d9_f3b);
        acc = acc.wrapping_add(i32v.wrapping_mul(0x27d4_eb2d));
        idx += 1;
    }
    assert(data@.take(idx as int) =~= data@);
    acc
}

/// Printable ASCII or ASCII whitespace.
pub open spec fn is_printable(b: u8) -> bool {
    (0x21 <= b && b <= 0x7e) || b == 0x20 || b == 0x09 || b == 0x0a || b == 0x0c || b == 0x0d
}

pub open spec fn count_printable(data: Seq<u8>) -> nat
    decreases data.len(),
{
    if data.len() == 0 {
        0
    } else {
        count_printable(data.drop_last()) + if is_printable(data.last()) { 1nat } else { 0nat }
    }
}

proof fn lemma_count_printable_le(data: Seq<u8>)
    ensures
        count_printable(data) <= data.len(),
    decreases data.len(),
{
    if data.len() > 0 {
        lemma_count_printable_le(data.drop_last());
    }
}

/// Percentage of printable bytes, 0 for an empty buffer.
pub open spec fn spec_ascii_score(data: Seq<u8>) -> u8 {
    if data.len() == 0 {
        0
    } else {
        let pct = (count_printable(data) * 100) / data.len();
        (if pct < 100 { pct } else { 100 }) as u8
    }
}

pub fn ascii_score(data: &[u8]) -> (r: u8)
    ensures
        r == spec_ascii_score(data@),
{
    if data.len() == 0 {
        return 0;
    }
    let mut printable: usize = 0;
    let mut i: usize = 0;
    while i < data.len()
        invariant
            i <= data@.len(),
            printable == count_printable(data@.take(i as int)),
            printable <= i,
        decreases data@.len() - i,
    {
        let b = data[i];
        assert(data@.take(i + 1).drop_last() =~= data@.take(i as int));
        if (0x21 <= b && b <= 0x7e) || b == 0x20 || b == 0x09 || b == 0x0a || b == 0x0c || b == 0x0d {
            printable += 1;
        }
        i += 1;
    }
    assert(data@.take(i as int) =~= data@);
    let len = data.len() as u128;
    let p = printable as u128;
    assert(p * 100 <= len * 100) by (nonlinear_arith)
        requires
            p <= len,
    ;
    let pct = (p * 100) / len;
    assert(pct <= 100) by (nonlinear_arith)
        requires
            p <= len,
            len > 0,
            pct as int == (p as int * 100) / (len as int),
    ;
    let clamped = if pct < 100 { pct } else { 100 };
    clamped as u8
}

} // verus!
