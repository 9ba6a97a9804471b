//! Little- and big-endian integer views of byte sequences.
use vstd::prelude::*;

verus! {

/// Little-endian 16-bit value at `off`.
pub open spec fn le16(s: Seq<u8>, off: int) -> int {
    s[off] + 256 * s[off + 1]
}

/// Little-endian 32-bit value at `off`.
pub open spec fn le32(s: Seq<u8>, off: int) -> int {
    le16(s, off) + 65536 * le16(s, off + 2)
}

/// Little-endian 64-bit value at `off`.
pub open spec fn le64(s: Seq<u8>, off: int) -> int {
    le32(s, off) + 4294967296 * le32(s, off + 4)
}

/// Big-endian 16-bit value at `off`.
pub open spec fn be16(s: Seq<u8>, off: int) -> int {
    256 * s[off] + s[off + 1]
}

/// Big-endian 32-bit value at `off`.
pub open spec fn be32(s: Seq<u8>, off: int) -> int {
    65536 * be16(s, off) + be16(s, off + 2)
}

/// Big-endian 64-bit value at `off`.
pub open spec fn be64(s: Seq<u8>, off: int) -> int {
    4294967296 * be32(s, off) + be32(s, off + 4)
}

/// The byte `i` (0 = least significant) of `v`.
pub open spec fn byte_of(v: int, i: nat) -> u8 {
    ((v / pow256(i)) % 256) as u8
}

pub open spec fn pow256(i: nat) -> int
    decreases i,
{
    if i == 0 {
        1
    } else {
        256 * pow256((i - 1) as nat)
    }
}

/// Little-endian encoding of `v` in `n` bytes.
pub open spec fn le_bytes(v: int, n: nat) -> Seq<u8> {
    Seq::new(n, |i: int| byte_of(v, i as nat))
}

/// Big-endian encoding of `v` in `n` bytes.
pub open spec fn be_bytes(v: int, n: nat) -> Seq<u8> {
    Seq::new(n, |i: int| byte_of(v, (n - 1 - i) as nat))
}

pub fn le_u16_at(b: &[u8], off: usize) -> (r: u16)
    requires
        off + 2 <= b@.len(),
    ensures
        r == le16(b@, off as int),
{
    (b[off] as u16) + (b[off + 1] as u16) * 256
}

pub fn le_u32_at(b: &[u8], off: usize) -> (r: u32)
    requires
        off + 4 <= b@.len(),
    ensures
        r == le32(b@, off as int),
{
    let _n = b.len();
    (le_u16_at(b, off) as u32) + (le_u16_at(b, off + 2) as u32) * 65536
}

pub fn le_u64_at(b: &[u8], off: usize) -> (r: u64)
    requires
        off + 8 <= b@.len(),
    ensures
        r == le64(b@, off as int),
{
    let _n = b.len();
    (le_u32_at(b, off) as u64) + (le_u32_at(b, off + 4) as u64) * 4294967296
}

pub fn be_u16_at(b: &[u8], off: usize) -> (r: u16)
    requires
        off + 2 <= b@.len(),
    ensures
        r == be16(b@, off as int),
{
    (b[off] as u16) * 256 + (b[off + 1] as u16)
}

pub fn be_u32_at(b: &[u8], off: usize) -> (r: u32)
    requires
        off + 4 <= b@.len(),
    ensures
        r == be32(b@, off as int),
{
    let _n = b.len();
    (be_u16_at(b, off) as u32) * 65536 + (be_u16_at(b, off + 2) as u32)
}

pub fn be_u64_at(b: &[u8], off: usize) -> (r: u64)
    requires
        off + 8 <= b@.len(),
    ensures
        r == be64(b@, off as int),
{
    let _n = b.len();
    (be_u32_at(b, off) as u64) * 4294967296 + (be_u32_at(b, off + 4) as u64)
}

proof fn lemma_pow256_values()
    ensures
        pow256(0) == 1,
        pow256(1) == 256,
        pow256(2) == 65536,
        pow256(3) == 16777216,
        pow256(4) == 4294967296,
        pow256(5) == 1099511627776,
        pow256(6) == 281474976710656,
        pow256(7) == 72057594037927936,
{
    reveal_with_fuel(pow256, 8);
}

/// Appends the little-endian bytes of a 16-bit value.
pub fn push_le_u16(out: &mut Vec<u8>, v: u16)
    ensures
        final(out)@ == old(out)@ + le_bytes(v as int, 2),
{
    proof { lemma_pow256_values(); }
    out.push((v % 256) as u8);
    out.push((v / 256) as u8);
    assert(final(out)@ =~= old(out)@ + le_bytes(v as int, 2));
}

/// Appends the little-endian bytes of a 32-bit value.
pub fn push_le_u32(out: &mut Vec<u8>, v: u32)
    ensures
        final(out)@ == old(out)@ + le_bytes(v as int, 4),
{
    proof { lemma_pow256_values(); }
    let ghost o = out@;
    out.push((v % 256) as u8);
    out.push(((v / 256) % 256) as u8);
    out.push(((v / 65536) % 256) as u8);
    out.push((v / 16777216) as u8);
    assert(out@ =~= o + le_bytes(v as int, 4));
}

/// Appends the little-endian bytes of a 64-bit value.
pub fn push_le_u64(out: &mut Vec<u8>, v: u64)
    ensures
        final(out)@ == old(out)@ + le_bytes(v as int, 8),
{
    proof { lemma_pow256_values(); }
    let ghost o = out@;
    out.push((v % 256) as u8);
    out.push(((v / 256) % 256) as u8);
    out.push(((v / 65536) % 256) as u8);
    out.push(((v / 16777216) % 256) as u8);
    out.push(((v / 4294967296) % 256) as u8);
    out.push(((v / 1099511627776) % 256) as u8);
    out.push(((v / 281474976710656) % 256) as u8);
    out.push((v / 72057594037927936) as u8);
    assert(out@ =~= o + le_bytes(v as int, 8));
}

/// `n` zero bytes.
pub open spec fn zeros(n: nat) -> Seq<u8> {
    Seq::new(n, |i: int| 0u8)
}

/// Appends `n` zero bytes.
pub fn push_zeros(out: &mut Vec<u8>, n: usize)
    ensures
        final(out)@ == old(out)@ + zeros(n as nat),
{
    let ghost o = out@;
    let mut i: usize = 0;
    while i < n
        invariant
            i <= n,
            out@ == o + zeros(i as nat),
        decreases n - i,
    {
        out.push(0u8);
        i = i + 1;
        assert(out@ =~= o + zeros(i as nat));
    }
}

/// Appends every byte of `b`.
pub fn push_slice(out: &mut Vec<u8>, b: &[u8])
    ensures
        final(out)@ == old(out)@ + b@,
{
    let ghost o = out@;
    let mut i: usize = 0;
    while i < b.len()
        invariant
            i <= b@.len(),
            out@ == o + b@.subrange(0, i as int),
        decreases b@.len() - i,
    {
        out.push(b[i]);
        i = i + 1;
        assert(out@ =~= o + b@.subrange(0, i as int));
    }
    assert(b@.subrange(0, b@.len() as int) =~= b@);
}

/// Reading back a 32-bit value from its little-endian bytes.
pub proof fn lemma_le32_of_bytes(v: u32)
    ensures
        le32(le_bytes(v as int, 4), 0) == v,
{
    lemma_pow256_values();
    let b = le_bytes(v as int, 4);
    assert(b[0] == (v % 256) as u8);
    assert(b[1] == ((v / 256) % 256) as u8);
    assert(b[2] == ((v / 65536) % 256) as u8);
    assert(b[3] == ((v / 16777216) % 256) as u8);
    assert((v % 256) + 256 * ((v / 256) % 256) + 65536 * (((v / 65536) % 256) + 256 * ((v / 16777216) % 256)) == v)
        by (bit_vector);
}

/// Reading back a 64-bit value from its little-endian bytes.
pub proof fn lemma_le64_of_bytes(v: u64)
    ensures
        le64(le_bytes(v as int, 8), 0) == v,
{
    lemma_pow256_values();
    let b = le_bytes(v as int, 8);
    assert(b[0] == (v % 256) as u8);
    assert(b[1] == ((v / 256) % 256) as u8);
    assert(b[2] == ((v / 65536) % 256) as u8);
    assert(b[3] == ((v / 16777216) % 256) as u8);
    assert(b[4] == ((v / 4294967296) % 256) as u8);
    assert(b[5] == ((v / 1099511627776) % 256) as u8);
    assert(b[6] == ((v / 281474976710656) % 256) as u8);
    assert(b[7] == ((v / 72057594037927936) % 256) as u8);
    assert((v % 256) + 256 * ((v / 256) % 256) + 65536 * (((v / 65536) % 256) + 256 * ((v / 16777216) % 256))
        + 4294967296 * ((v / 4294967296) % 256 + 256 * ((v / 1099511627776) % 256) + 65536 * (((v / 281474976710656)
        % 256) + 256 * ((v / 72057594037927936) % 256))) == v) by (bit_vector);
}

/// Reading back a 16-bit value from its little-endian bytes.
pub proof fn lemma_le16_of_bytes(v: u16)
    ensures
        le16(le_bytes(v as int, 2), 0) == v,
{
    lemma_pow256_values();
    let b = le_bytes(v as int, 2);
    assert(b[0] == (v % 256) as u8);
    assert(b[1] == ((v / 256) % 256) as u8);
    assert((v % 256) + 256 * ((v / 256) % 256) == v) by (bit_vector);
}

/// Reading back a 16-bit value from its big-endian bytes.
pub proof fn lemma_be16_of_bytes(v: u16)
    ensures
        be16(be_bytes(v as int, 2), 0) == v,
{
    lemma_pow256_values();
    let b = be_bytes(v as int, 2);
    assert(b[1] == (v % 256) as u8);
    assert(b[0] == ((v / 256) % 256) as u8);
    assert(256 * ((v / 256) % 256) + (v % 256) == v) by (bit_vector);
}

/// Reading back a 32-bit value from its big-endian bytes.
pub proof fn lemma_be32_of_bytes(v: u32)
    ensures
        be32(be_bytes(v as int, 4), 0) == v,
{
    lemma_pow256_values();
    let b = be_bytes(v as int, 4);
    assert(b[3] == (v % 256) as u8);
    assert(b[2] == ((v / 256) % 256) as u8);
    assert(b[1] == ((v / 65536) % 256) as u8);
    assert(b[0] == ((v / 16777216) % 256) as u8);
    assert(65536 * (256 * ((v / 16777216) % 256) + ((v / 65536) % 256)) + (256 * ((v / 256) % 256) + (v % 256)) == v)
        by (bit_vector);
}

/// Reading back a 64-bit value from its big-endian bytes.
pub proof fn lemma_be64_of_bytes(v: u64)
    ensures
        be64(be_bytes(v as int, 8), 0) == v,
{
    lemma_pow256_values();
    let b = be_bytes(v as int, 8);
    assert(b[7] == (v % 256) as u8);
    assert(b[6] == ((v / 256) % 256) as u8);
    assert(b[5] == ((v / 65536) % 256) as u8);
    assert(b[4] == ((v / 16777216) % 256) as u8);
    assert(b[3] == ((v / 4294967296) % 256) as u8);
    assert(b[2] == ((v / 1099511627776) % 256) as u8);
    assert(b[1] == ((v / 281474976710656) % 256) as u8);
    assert(b[0] == ((v / 72057594037927936) % 256) as u8);
    assert(4294967296 * (65536 * (256 * ((v / 72057594037927936) % 256) + ((v / 281474976710656) % 256)) + (256 * ((v
        / 1099511627776) % 256) + ((v / 4294967296) % 256))) + (65536 * (256 * ((v / 16777216) % 256) + ((v / 65536)
        % 256)) + (256 * ((v / 256) % 256) + (v % 256))) == v) by (bit_vector);
}

} // verus!
