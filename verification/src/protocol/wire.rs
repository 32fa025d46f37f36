//! Integers and identifiers as bytes in network order.

use vstd::prelude::*;

verus! {

/// The two bytes of `v`, the most significant first.
#[verifier::opaque]
pub open spec fn be_u16(v: u16) -> Seq<u8> {
    seq![(v / 0x100) as u8, (v % 0x100) as u8]
}

/// The four bytes of `v`, the most significant first.
#[verifier::opaque]
pub open spec fn be_u32(v: u32) -> Seq<u8> {
    seq![
        (v / 0x100_0000) as u8,
        ((v / 0x1_0000) % 0x100) as u8,
        ((v / 0x100) % 0x100) as u8,
        (v % 0x100) as u8,
    ]
}

/// The eight bytes of `v`, the most significant first.
#[verifier::opaque]
pub open spec fn be_u64(v: u64) -> Seq<u8> {
    be_u32((v / 0x1_0000_0000) as u32) + be_u32((v % 0x1_0000_0000) as u32)
}

/// The number that two bytes in network order stand for.
#[verifier::opaque]
pub open spec fn u16_from_be(b: Seq<u8>) -> u16 {
    (b[0] as int * 0x100 + b[1] as int) as u16
}

/// The number that four bytes in network order stand for.
#[verifier::opaque]
pub open spec fn u32_from_be(b: Seq<u8>) -> u32 {
    (b[0] as int * 0x100_0000 + b[1] as int * 0x1_0000 + b[2] as int * 0x100 + b[3] as int) as u32
}

/// The number that eight bytes in network order stand for.
#[verifier::opaque]
pub open spec fn u64_from_be(b: Seq<u8>) -> u64 {
    (u32_from_be(b.subrange(0, 4)) as int * 0x1_0000_0000 + u32_from_be(b.subrange(4, 8)) as int) as u64
}

/// A signed number as the unsigned number with the same 32 bits.
pub open spec fn bits_of_i32(v: i32) -> u32 {
    if v < 0 {
        (v + 0x1_0000_0000) as u32
    } else {
        v as u32
    }
}

/// The signed number with the same 32 bits as `u`.
pub open spec fn i32_of_bits(u: u32) -> i32 {
    if u >= 0x8000_0000 {
        (u - 0x1_0000_0000) as i32
    } else {
        u as i32
    }
}

pub proof fn lemma_u16_round_trip(v: u16)
    ensures
        be_u16(v).len() == 2,
        u16_from_be(be_u16(v)) == v,
{
    reveal(be_u16);
    reveal(u16_from_be);
}

pub proof fn lemma_u32_round_trip(v: u32)
    ensures
        be_u32(v).len() == 4,
        u32_from_be(be_u32(v)) == v,
{
    reveal(be_u32);
    reveal(u32_from_be);
}

pub proof fn lemma_u64_round_trip(v: u64)
    ensures
        be_u64(v).len() == 8,
        u64_from_be(be_u64(v)) == v,
{
    reveal(be_u64);
    reveal(u64_from_be);
    let hi = (v / 0x1_0000_0000) as u32;
    let lo = (v % 0x1_0000_0000) as u32;
    lemma_u32_round_trip(hi);
    lemma_u32_round_trip(lo);
    assert(be_u64(v).subrange(0, 4) =~= be_u32(hi));
    assert(be_u64(v).subrange(4, 8) =~= be_u32(lo));
}

pub proof fn lemma_i32_round_trip(v: i32)
    ensures
        i32_of_bits(bits_of_i32(v)) == v,
{
}

/// Appends the two bytes of `v`.
pub fn put_u16(buf: &mut Vec<u8>, v: u16)
    ensures
        final(buf)@ == old(buf)@ + be_u16(v),
{
    buf.push((v / 0x100) as u8);
    buf.push((v % 0x100) as u8);
    proof {
        reveal(be_u16);
    }
    assert(buf@ =~= old(buf)@ + be_u16(v));
}

/// Appends the four bytes of `v`.
pub fn put_u32(buf: &mut Vec<u8>, v: u32)
    ensures
        final(buf)@ == old(buf)@ + be_u32(v),
{
    buf.push((v / 0x100_0000) as u8);
    buf.push(((v / 0x1_0000) % 0x100) as u8);
    buf.push(((v / 0x100) % 0x100) as u8);
    buf.push((v % 0x100) as u8);
    proof {
        reveal(be_u32);
    }
    assert(buf@ =~= old(buf)@ + be_u32(v));
}

/// Appends the eight bytes of `v`.
pub fn put_u64(buf: &mut Vec<u8>, v: u64)
    ensures
        final(buf)@ == old(buf)@ + be_u64(v),
{
    put_u32(buf, (v / 0x1_0000_0000) as u32);
    put_u32(buf, (v % 0x1_0000_0000) as u32);
    proof {
        reveal(be_u64);
    }
    assert(buf@ =~= old(buf)@ + be_u64(v));
}

/// Appends the four bytes of the signed number `v`.
pub fn put_i32(buf: &mut Vec<u8>, v: i32)
    ensures
        final(buf)@ == old(buf)@ + be_u32(bits_of_i32(v)),
{
    let bits: u32 = if v < 0 {
        ((v - i32::MIN) as u32) + 0x8000_0000
    } else {
        v as u32
    };
    put_u32(buf, bits);
}

/// Appends the bytes of `source`.
pub fn put_bytes(buf: &mut Vec<u8>, source: &[u8])
    ensures
        final(buf)@ == old(buf)@ + source@,
{
    let mut i: usize = 0;
    while i < source.len()
        invariant
            i <= source@.len(),
            buf@ == old(buf)@ + source@.take(i as int),
        decreases source.len() - i,
    {
        buf.push(source[i]);
        i += 1;
        assert(buf@ =~= old(buf)@ + source@.take(i as int));
    }
    assert(source@.take(source@.len() as int) =~= source@);
}

/// The number in the two bytes at `at`.
pub fn read_u16(bytes: &[u8], at: usize) -> (v: u16)
    requires
        at + 2 <= bytes@.len(),
    ensures
        v == u16_from_be(bytes@.subrange(at as int, at + 2)),
{
    proof {
        reveal(u16_from_be);
    }
    (bytes[at] as u16) * 0x100 + (bytes[at + 1] as u16)
}

/// The number in the four bytes at `at`.
pub fn read_u32(bytes: &[u8], at: usize) -> (v: u32)
    requires
        at + 4 <= bytes@.len(),
    ensures
        v == u32_from_be(bytes@.subrange(at as int, at + 4)),
{
    proof {
        reveal(u32_from_be);
    }
    (bytes[at] as u32) * 0x100_0000 + (bytes[at + 1] as u32) * 0x1_0000 + (bytes[at + 2] as u32)
        * 0x100 + (bytes[at + 3] as u32)
}

/// The number in the eight bytes at `at`.
pub fn read_u64(bytes: &[u8], at: usize) -> (v: u64)
    requires
        at + 8 <= bytes@.len(),
    ensures
        v == u64_from_be(bytes@.subrange(at as int, at + 8)),
{
    let total = bytes.len();
    let hi = read_u32(bytes, at);
    let lo = read_u32(bytes, at + 4);
    proof {
        reveal(u64_from_be);
        let b = bytes@.subrange(at as int, at + 8);
        assert(b.subrange(0, 4) =~= bytes@.subrange(at as int, at + 4));
        assert(b.subrange(4, 8) =~= bytes@.subrange(at + 4, at + 8));
    }
    (hi as u64) * 0x1_0000_0000 + (lo as u64)
}

/// The signed number in the four bytes at `at`.
pub fn read_i32(bytes: &[u8], at: usize) -> (v: i32)
    requires
        at + 4 <= bytes@.len(),
    ensures
        v == i32_of_bits(u32_from_be(bytes@.subrange(at as int, at + 4))),
{
    let bits = read_u32(bytes, at);
    if bits >= 0x8000_0000 {
        ((bits - 0x8000_0000) as i32) + i32::MIN
    } else {
        bits as i32
    }
}

/// The twenty bytes at `at`.
pub fn read_20(bytes: &[u8], at: usize) -> (r: [u8; 20])
    requires
        at + 20 <= bytes@.len(),
    ensures
        r@ == bytes@.subrange(at as int, at + 20),
{
    let total = bytes.len();
    let mut r: [u8; 20] = [0u8; 20];
    let mut i: usize = 0;
    while i < 20
        invariant
            i <= 20,
            at + 20 <= bytes@.len(),
            total == bytes@.len(),
            forall|j: int| 0 <= j < i ==> r@[j] == bytes@[at + j],
        decreases 20 - i,
    {
        r[i] = bytes[at + i];
        i += 1;
    }
    assert(r@ =~= bytes@.subrange(at as int, at + 20));
    r
}

/// Records of `width` bytes each, one after the other.
pub open spec fn joined(records: Seq<Seq<u8>>, width: int) -> Seq<u8> {
    Seq::new((records.len() * width) as nat, |j: int| records[j / width][j % width])
}

/// Joining one record more appends that record.
pub proof fn lemma_joined_push(records: Seq<Seq<u8>>, record: Seq<u8>, width: int)
    requires
        width > 0,
        record.len() == width,
    ensures
        joined(records.push(record), width) == joined(records, width) + record,
        joined(records, width).len() == records.len() * width,
{
    let n = records.len() as int;
    let before = joined(records, width);
    let after = joined(records.push(record), width);
    assert((n + 1) * width == n * width + width) by (nonlinear_arith);
    assert(n * width >= 0) by (nonlinear_arith)
        requires
            n >= 0,
            width > 0,
    ;
    assert(after.len() == before.len() + width);
    assert forall|j: int| 0 <= j < after.len() implies after[j] == (before + record)[j] by {
        if j < n * width {
            assert(j / width < n) by (nonlinear_arith)
                requires
                    0 <= j < n * width,
                    width > 0,
            ;
            assert(0 <= j / width) by (nonlinear_arith)
                requires
                    0 <= j,
                    width > 0,
            ;
        } else {
            let k = j - n * width;
            vstd::arithmetic::div_mod::lemma_fundamental_div_mod_converse(j, width, n, k);
        }
    }
    assert(after =~= before + record);
}

/// The record at position `i` of joined records.
pub proof fn lemma_joined_record(records: Seq<Seq<u8>>, width: int, i: int)
    requires
        width > 0,
        0 <= i < records.len(),
        records[i].len() == width,
    ensures
        joined(records, width).len() == records.len() * width,
        0 <= i * width,
        (i + 1) * width <= records.len() * width,
        joined(records, width).subrange(i * width, (i + 1) * width) == records[i],
{
    let n = records.len() as int;
    assert(n * width >= 0) by (nonlinear_arith)
        requires
            n >= 0,
            width > 0,
    ;
    assert(0 <= i * width && (i + 1) * width <= n * width && (i + 1) * width == i * width
        + width) by (nonlinear_arith)
        requires
            0 <= i < n,
            width > 0,
    ;
    let part = joined(records, width).subrange(i * width, (i + 1) * width);
    assert forall|k: int| 0 <= k < width implies part[k] == records[i][k] by {
        vstd::arithmetic::div_mod::lemma_fundamental_div_mod_converse(i * width + k, width, i, k);
    }
    assert(part =~= records[i]);
}

/// The sixteen bytes at `at`.
pub fn read_16(bytes: &[u8], at: usize) -> (r: [u8; 16])
    requires
        at + 16 <= bytes@.len(),
    ensures
        r@ == bytes@.subrange(at as int, at + 16),
{
    let total = bytes.len();
    let mut r: [u8; 16] = [0u8; 16];
    let mut i: usize = 0;
    while i < 16
        invariant
            i <= 16,
            at + 16 <= bytes@.len(),
            total == bytes@.len(),
            forall|j: int| 0 <= j < i ==> r@[j] == bytes@[at + j],
        decreases 16 - i,
    {
        r[i] = bytes[at + i];
        i += 1;
    }
    assert(r@ =~= bytes@.subrange(at as int, at + 16));
    r
}

/// The four bytes at `at`.
pub fn read_4(bytes: &[u8], at: usize) -> (r: [u8; 4])
    requires
        at + 4 <= bytes@.len(),
    ensures
        r@ == bytes@.subrange(at as int, at + 4),
{
    let total = bytes.len();
    let r: [u8; 4] = [bytes[at], bytes[at + 1], bytes[at + 2], bytes[at + 3]];
    assert(r@ =~= bytes@.subrange(at as int, at + 4));
    r
}

} // verus!
