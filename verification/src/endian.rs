//! Fixed-width integers in little- and big-endian byte order.

use vstd::prelude::*;
use byteorder::{BigEndian, ByteOrder, LittleEndian};

verus! {

/// The little-endian `u16` stored at `p`.
pub open spec fn le_u16_at(s: Seq<u8>, p: int) -> u16 {
    (s[p] + s[p + 1] * 0x100) as u16
}

/// The big-endian `u16` stored at `p`.
pub open spec fn be_u16_at(s: Seq<u8>, p: int) -> u16 {
    (s[p + 1] + s[p] * 0x100) as u16
}

/// The little-endian `u32` stored at `p`.
pub open spec fn le_u32_at(s: Seq<u8>, p: int) -> u32 {
    (s[p] + s[p + 1] * 0x100 + s[p + 2] * 0x1_0000 + s[p + 3] * 0x100_0000) as u32
}

/// The big-endian `u32` stored at `p`.
pub open spec fn be_u32_at(s: Seq<u8>, p: int) -> u32 {
    (s[p + 3] + s[p + 2] * 0x100 + s[p + 1] * 0x1_0000 + s[p] * 0x100_0000) as u32
}

/// The little-endian `u64` stored at `p`.
pub open spec fn le_u64_at(s: Seq<u8>, p: int) -> u64 {
    (le_u32_at(s, p) + le_u32_at(s, p + 4) * 0x1_0000_0000) as u64
}

/// The big-endian `u64` stored at `p`.
pub open spec fn be_u64_at(s: Seq<u8>, p: int) -> u64 {
    (be_u32_at(s, p + 4) + be_u32_at(s, p) * 0x1_0000_0000) as u64
}

pub open spec fn u16_at(s: Seq<u8>, p: int, big_endian: bool) -> u16 {
    if big_endian { be_u16_at(s, p) } else { le_u16_at(s, p) }
}

pub open spec fn u32_at(s: Seq<u8>, p: int, big_endian: bool) -> u32 {
    if big_endian { be_u32_at(s, p) } else { le_u32_at(s, p) }
}

pub open spec fn u64_at(s: Seq<u8>, p: int, big_endian: bool) -> u64 {
    if big_endian { be_u64_at(s, p) } else { le_u64_at(s, p) }
}

/// The two bytes of `x`, least significant first.
pub open spec fn le_bytes_u16(x: u16) -> Seq<u8> {
    seq![(x % 0x100) as u8, (x / 0x100) as u8]
}

/// The four bytes of `x`, least significant first.
pub open spec fn le_bytes_u32(x: u32) -> Seq<u8> {
    seq![
        (x % 0x100) as u8,
        ((x / 0x100) % 0x100) as u8,
        ((x / 0x1_0000) % 0x100) as u8,
        (x / 0x100_0000) as u8,
    ]
}

/// The eight bytes of `x`, least significant first.
pub open spec fn le_bytes_u64(x: u64) -> Seq<u8> {
    le_bytes_u32((x % 0x1_0000_0000) as u32) + le_bytes_u32((x / 0x1_0000_0000) as u32)
}

/// `byteorder::LittleEndian::read_u16` on the two bytes at `pos`: their
/// little-endian value. The call panics on fewer than two bytes, which `requires` rules out.
#[verifier::external_body]
fn le_read_u16(buf: &[u8], pos: usize) -> (r: u16)
    requires
        pos + 2 <= buf@.len(),
    ensures
        r == le_u16_at(buf@, pos as int),
{
    LittleEndian::read_u16(&buf[pos..pos + 2])
}

/// `byteorder::BigEndian::read_u16` on the two bytes at `pos`: their big-endian value.
#[verifier::external_body]
fn be_read_u16(buf: &[u8], pos: usize) -> (r: u16)
    requires
        pos + 2 <= buf@.len(),
    ensures
        r == be_u16_at(buf@, pos as int),
{
    BigEndian::read_u16(&buf[pos..pos + 2])
}

/// `byteorder::LittleEndian::read_u32` on the four bytes at `pos`: their little-endian value.
#[verifier::external_body]
fn le_read_u32(buf: &[u8], pos: usize) -> (r: u32)
    requires
        pos + 4 <= buf@.len(),
    ensures
        r == le_u32_at(buf@, pos as int),
{
    LittleEndian::read_u32(&buf[pos..pos + 4])
}

/// `byteorder::BigEndian::read_u32` on the four bytes at `pos`: their big-endian value.
#[verifier::external_body]
fn be_read_u32(buf: &[u8], pos: usize) -> (r: u32)
    requires
        pos + 4 <= buf@.len(),
    ensures
        r == be_u32_at(buf@, pos as int),
{
    BigEndian::read_u32(&buf[pos..pos + 4])
}

/// `byteorder::LittleEndian::read_u64` on the eight bytes at `pos`: their little-endian value.
#[verifier::external_body]
fn le_read_u64(buf: &[u8], pos: usize) -> (r: u64)
    requires
        pos + 8 <= buf@.len(),
    ensures
        r == le_u64_at(buf@, pos as int),
{
    LittleEndian::read_u64(&buf[pos..pos + 8])
}

/// `byteorder::BigEndian::read_u64` on the eight bytes at `pos`: their big-endian value.
#[verifier::external_body]
fn be_read_u64(buf: &[u8], pos: usize) -> (r: u64)
    requires
        pos + 8 <= buf@.len(),
    ensures
        r == be_u64_at(buf@, pos as int),
{
    BigEndian::read_u64(&buf[pos..pos + 8])
}

/// The `u16` at `pos` in the given byte order.
pub fn read_u16_at(buf: &[u8], pos: usize, big_endian: bool) -> (r: u16)
    requires
        pos + 2 <= buf@.len(),
    ensures
        r == u16_at(buf@, pos as int, big_endian),
{
    if big_endian { be_read_u16(buf, pos) } else { le_read_u16(buf, pos) }
}

/// The `u32` at `pos` in the given byte order.
pub fn read_u32_at(buf: &[u8], pos: usize, big_endian: bool) -> (r: u32)
    requires
        pos + 4 <= buf@.len(),
    ensures
        r == u32_at(buf@, pos as int, big_endian),
{
    if big_endian { be_read_u32(buf, pos) } else { le_read_u32(buf, pos) }
}

/// The `u64` at `pos` in the given byte order.
pub fn read_u64_at(buf: &[u8], pos: usize, big_endian: bool) -> (r: u64)
    requires
        pos + 8 <= buf@.len(),
    ensures
        r == u64_at(buf@, pos as int, big_endian),
{
    if big_endian { be_read_u64(buf, pos) } else { le_read_u64(buf, pos) }
}

/// The two bytes of `x`, least significant first, as `u16::to_le_bytes` gives them.
fn u16_le_bytes(x: u16) -> (r: [u8; 2])
    ensures
        r@ == le_bytes_u16(x),
{
    let r = [(x % 0x100) as u8, (x / 0x100) as u8];
    assert(r@ =~= le_bytes_u16(x));
    r
}

/// The four bytes of `x`, least significant first, as `u32::to_le_bytes` gives them.
fn u32_le_bytes(x: u32) -> (r: [u8; 4])
    ensures
        r@ == le_bytes_u32(x),
{
    let r = [
        (x % 0x100) as u8,
        ((x / 0x100) % 0x100) as u8,
        ((x / 0x1_0000) % 0x100) as u8,
        (x / 0x100_0000) as u8,
    ];
    assert(r@ =~= le_bytes_u32(x));
    r
}

/// The eight bytes of `x`, least significant first, as `u64::to_le_bytes` gives them.
fn u64_le_bytes(x: u64) -> (r: [u8; 8])
    ensures
        r@ == le_bytes_u64(x),
{
    let lo = u32_le_bytes((x % 0x1_0000_0000) as u32);
    let hi = u32_le_bytes((x / 0x1_0000_0000) as u32);
    let r = [lo[0], lo[1], lo[2], lo[3], hi[0], hi[1], hi[2], hi[3]];
    assert(r@ =~= le_bytes_u64(x));
    r
}

/// Appends `bytes` to `buf`.
pub fn push_bytes(buf: &mut Vec<u8>, bytes: &[u8])
    ensures
        final(buf)@ == old(buf)@ + bytes@,
{
    let mut i: usize = 0;
    while i < bytes.len()
        invariant
            i <= bytes@.len(),
            buf@ == old(buf)@ + bytes@.subrange(0, i as int),
        decreases bytes@.len() - i,
    {
        buf.push(bytes[i]);
        i = i + 1;
        assert(buf@ =~= old(buf)@ + bytes@.subrange(0, i as int));
    }
    assert(bytes@.subrange(0, i as int) =~= bytes@);
}

/// Appends the little-endian bytes of `x` to `buf`.
pub fn push_u16_le(buf: &mut Vec<u8>, x: u16)
    ensures
        final(buf)@ == old(buf)@ + le_bytes_u16(x),
{
    let b = u16_le_bytes(x);
    push_bytes(buf, b.as_slice());
}

/// Appends the little-endian bytes of `x` to `buf`.
pub fn push_u32_le(buf: &mut Vec<u8>, x: u32)
    ensures
        final(buf)@ == old(buf)@ + le_bytes_u32(x),
{
    let b = u32_le_bytes(x);
    push_bytes(buf, b.as_slice());
}

/// Appends the little-endian bytes of `x` to `buf`.
pub fn push_u64_le(buf: &mut Vec<u8>, x: u64)
    ensures
        final(buf)@ == old(buf)@ + le_bytes_u64(x),
{
    let b = u64_le_bytes(x);
    push_bytes(buf, b.as_slice());
}

/// Overwrites the eight bytes at `pos` with the little-endian bytes of `x`.
pub fn set_u64_le_at(buf: &mut Vec<u8>, pos: usize, x: u64)
    requires
        pos + 8 <= old(buf)@.len(),
    ensures
        final(buf)@ == old(buf)@.subrange(0, pos as int) + le_bytes_u64(x)
            + old(buf)@.subrange(pos + 8, old(buf)@.len() as int),
{
    let b = u64_le_bytes(x);
    let _n = buf.len();
    let mut k: usize = 0;
    while k < 8
        invariant
            k <= 8,
            pos + 8 <= old(buf)@.len(),
            old(buf)@.len() <= usize::MAX,
            b@ == le_bytes_u64(x),
            buf@.len() == old(buf)@.len(),
            forall|j: int| 0 <= j < buf@.len() ==> #[trigger] buf@[j] == if pos <= j < pos + k {
                b@[j - pos]
            } else {
                old(buf)@[j]
            },
        decreases 8 - k,
    {
        buf.set(pos + k, b[k]);
        k = k + 1;
    }
    assert(buf@ =~= old(buf)@.subrange(0, pos as int) + le_bytes_u64(x)
        + old(buf)@.subrange(pos + 8, old(buf)@.len() as int));
}

/// Reading back what was written: the little-endian bytes of `x`, wherever they
/// stand in a sequence, decode to `x`.
pub proof fn lemma_le_u16_roundtrip(pre: Seq<u8>, x: u16, post: Seq<u8>)
    ensures
        ({ let s = pre + le_bytes_u16(x) + post; le_u16_at(s, pre.len() as int) == x }),
{
    let s = pre + le_bytes_u16(x) + post;
    let p = pre.len() as int;
    assert(s[p] == (x % 0x100) as u8);
    assert(s[p + 1] == (x / 0x100) as u8);
}

pub proof fn lemma_le_u32_roundtrip(pre: Seq<u8>, x: u32, post: Seq<u8>)
    ensures
        ({ let s = pre + le_bytes_u32(x) + post; le_u32_at(s, pre.len() as int) == x }),
{
    let s = pre + le_bytes_u32(x) + post;
    let p = pre.len() as int;
    assert(s[p] == (x % 0x100) as u8);
    assert(s[p + 1] == ((x / 0x100) % 0x100) as u8);
    assert(s[p + 2] == ((x / 0x1_0000) % 0x100) as u8);
    assert(s[p + 3] == (x / 0x100_0000) as u8);
}

pub proof fn lemma_le_u64_roundtrip(pre: Seq<u8>, x: u64, post: Seq<u8>)
    ensures
        ({ let s = pre + le_bytes_u64(x) + post; le_u64_at(s, pre.len() as int) == x }),
{
    let lo = (x % 0x1_0000_0000) as u32;
    let hi = (x / 0x1_0000_0000) as u32;
    let s = pre + le_bytes_u64(x) + post;
    assert(s =~= pre + le_bytes_u32(lo) + (le_bytes_u32(hi) + post));
    lemma_le_u32_roundtrip(pre, lo, le_bytes_u32(hi) + post);
    assert(s =~= (pre + le_bytes_u32(lo)) + le_bytes_u32(hi) + post);
    lemma_le_u32_roundtrip(pre + le_bytes_u32(lo), hi, post);
}

} // verus!
