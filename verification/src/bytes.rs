//! Byte-buffer helpers shared by the on-disk encoders.
use vstd::prelude::*;

verus! {

/// `s` with the bytes `src` written at offset `off` (length unchanged).
pub open spec fn splice(s: Seq<u8>, off: int, src: Seq<u8>) -> Seq<u8> {
    Seq::new(s.len(), |i: int| if off <= i < off + src.len() { src[i - off] } else { s[i] })
}

/// A sequence of `n` zero bytes.
pub open spec fn zeros(n: nat) -> Seq<u8> {
    Seq::new(n, |i: int| 0u8)
}

/// Little-endian encoding of a 16-bit value.
pub open spec fn le16(x: u16) -> Seq<u8> {
    seq![(x % 256) as u8, (x / 256) as u8]
}

/// Little-endian encoding of a 32-bit value.
pub open spec fn le32(x: u32) -> Seq<u8> {
    seq![(x % 256) as u8, ((x / 256) % 256) as u8, ((x / 65536) % 256) as u8, (x / 16777216) as u8]
}

/// Little-endian encoding of a 64-bit value.
pub open spec fn le64(x: u64) -> Seq<u8> {
    le32((x % 0x1_0000_0000) as u32) + le32((x / 0x1_0000_0000) as u32)
}

/// Big-endian encoding of a 32-bit value.
pub open spec fn be32(x: u32) -> Seq<u8> {
    seq![(x / 16777216) as u8, ((x / 65536) % 256) as u8, ((x / 256) % 256) as u8, (x % 256) as u8]
}

/// Big-endian encoding of a 64-bit value.
pub open spec fn be64(x: u64) -> Seq<u8> {
    be32((x / 0x1_0000_0000) as u32) + be32((x % 0x1_0000_0000) as u32)
}

/// Returns `n` zero bytes.
pub fn zero_bytes(n: usize) -> (v: Vec<u8>)
    ensures
        v@ == zeros(n as nat),
{
    let v = vec![0u8; n];
    assert(v@ =~= zeros(n as nat));
    v
}

/// Writes `src` into `buf` at offset `off`.
pub fn copy_into(buf: &mut Vec<u8>, off: usize, src: &[u8])
    requires
        off + src@.len() <= old(buf)@.len(),
    ensures
        final(buf)@ == splice(old(buf)@, off as int, src@),
{
    let ghost orig = buf@;
    let blen = buf.len();
    let mut i: usize = 0;
    while i < src.len()
        invariant
            i <= src@.len(),
            buf@.len() == orig.len(),
            blen == orig.len(),
            off + src@.len() <= orig.len(),
            forall|j: int|
                0 <= j < orig.len() ==> #[trigger] buf@[j] == (if off <= j < off + i {
                    src@[j - off]
                } else {
                    orig[j]
                }),
        decreases src@.len() - i,
    {
        buf.set(off + i, src[i]);
        i = i + 1;
    }
    assert(buf@ =~= splice(orig, off as int, src@));
}

/// Little-endian bytes of a 16-bit value.
pub fn u16_le(x: u16) -> (v: Vec<u8>)
    ensures
        v@ == le16(x),
{
    let v = vec![(x % 256) as u8, (x / 256) as u8];
    assert(v@ =~= le16(x));
    v
}

/// Little-endian bytes of a 32-bit value.
pub fn u32_le(x: u32) -> (v: Vec<u8>)
    ensures
        v@ == le32(x),
{
    let v = vec![(x % 256) as u8, ((x / 256) % 256) as u8, ((x / 65536) % 256) as u8, (x / 16777216) as u8];
    assert(v@ =~= le32(x));
    v
}

/// Little-endian bytes of a 64-bit value.
pub fn u64_le(x: u64) -> (v: Vec<u8>)
    ensures
        v@ == le64(x),
{
    let mut v = u32_le((x % 0x1_0000_0000) as u32);
    let mut hi = u32_le((x / 0x1_0000_0000) as u32);
    v.append(&mut hi);
    v
}

/// Big-endian bytes of a 32-bit value.
pub fn u32_be(x: u32) -> (v: Vec<u8>)
    ensures
        v@ == be32(x),
{
    let v = vec![(x / 16777216) as u8, ((x / 65536) % 256) as u8, ((x / 256) % 256) as u8, (x % 256) as u8];
    assert(v@ =~= be32(x));
    v
}

/// Big-endian bytes of a 64-bit value.
pub fn u64_be(x: u64) -> (v: Vec<u8>)
    ensures
        v@ == be64(x),
{
    let mut v = u32_be((x / 0x1_0000_0000) as u32);
    let mut lo = u32_be((x % 0x1_0000_0000) as u32);
    v.append(&mut lo);
    v
}

/// Decodes a little-endian 16-bit value from two bytes.
pub open spec fn read_le16(b0: u8, b1: u8) -> u16 {
    (b0 as int + 256 * b1 as int) as u16
}

/// Decodes a little-endian 32-bit value at `off`.
pub open spec fn read_le32(s: Seq<u8>, off: int) -> u32 {
    (s[off] as int + 256 * s[off + 1] as int + 65536 * s[off + 2] as int + 16777216 * s[off + 3] as int) as u32
}

/// Decodes a little-endian 64-bit value at `off`.
pub open spec fn read_le64(s: Seq<u8>, off: int) -> u64 {
    (read_le32(s, off) as int + 0x1_0000_0000 * read_le32(s, off + 4) as int) as u64
}

/// Decodes a big-endian 32-bit value at `off`.
pub open spec fn read_be32(s: Seq<u8>, off: int) -> u32 {
    (16777216 * s[off] as int + 65536 * s[off + 1] as int + 256 * s[off + 2] as int + s[off + 3] as int) as u32
}

/// Decodes a big-endian 64-bit value at `off`.
pub open spec fn read_be64(s: Seq<u8>, off: int) -> u64 {
    (0x1_0000_0000 * read_be32(s, off) as int + read_be32(s, off + 4) as int) as u64
}

/// Reads a little-endian 32-bit value at `off`.
pub fn get_le32(s: &[u8], off: usize) -> (r: u32)
    requires
        off + 4 <= s@.len(),
    ensures
        r == read_le32(s@, off as int),
{
    let n = s.len();
    s[off] as u32 + 256 * (s[off + 1] as u32) + 65536 * (s[off + 2] as u32) + 16777216 * (s[off + 3] as u32)
}

/// Reads a little-endian 64-bit value at `off`.
pub fn get_le64(s: &[u8], off: usize) -> (r: u64)
    requires
        off + 8 <= s@.len(),
    ensures
        r == read_le64(s@, off as int),
{
    let n = s.len();
    get_le32(s, off) as u64 + 0x1_0000_0000 * (get_le32(s, off + 4) as u64)
}

/// Reads a big-endian 32-bit value at `off`.
pub fn get_be32(s: &[u8], off: usize) -> (r: u32)
    requires
        off + 4 <= s@.len(),
    ensures
        r == read_be32(s@, off as int),
{
    let n = s.len();
    16777216 * (s[off] as u32) + 65536 * (s[off + 1] as u32) + 256 * (s[off + 2] as u32) + s[off + 3] as u32
}

/// Reads a big-endian 64-bit value at `off`.
pub fn get_be64(s: &[u8], off: usize) -> (r: u64)
    requires
        off + 8 <= s@.len(),
    ensures
        r == read_be64(s@, off as int),
{
    let n = s.len();
    0x1_0000_0000 * (get_be32(s, off) as u64) + get_be32(s, off + 4) as u64
}


/// A little-endian 16-bit value reads back as itself.
pub proof fn lemma_le16_read(x: u16)
    ensures
        read_le16(le16(x)[0], le16(x)[1]) == x,
{
}

/// A little-endian 32-bit value stored at `off` reads back as itself.
pub proof fn lemma_le32_read(x: u32, s: Seq<u8>, off: int)
    requires
        0 <= off,
        off + 4 <= s.len(),
        forall|k: int| 0 <= k < 4 ==> s[off + k] == #[trigger] le32(x)[k],
    ensures
        read_le32(s, off) == x,
{
    assert(s[off] == le32(x)[0]);
    assert(s[off + 1] == le32(x)[1]);
    assert(s[off + 2] == le32(x)[2]);
    assert(s[off + 3] == le32(x)[3]);
    assert(x / 16777216 < 256);
    assert(16777216 * (x / 16777216) + 65536 * ((x / 65536) % 256) + 256 * ((x / 256) % 256) + x % 256 == x);
}

/// A little-endian 64-bit value stored at `off` reads back as itself.
pub proof fn lemma_le64_read(x: u64, s: Seq<u8>, off: int)
    requires
        0 <= off,
        off + 8 <= s.len(),
        forall|k: int| 0 <= k < 8 ==> s[off + k] == #[trigger] le64(x)[k],
    ensures
        read_le64(s, off) == x,
{
    let lo = (x % 0x1_0000_0000) as u32;
    let hi = (x / 0x1_0000_0000) as u32;
    assert forall|k: int| 0 <= k < 4 implies s[off + k] == #[trigger] le32(lo)[k] by {
        assert(s[off + k] == le64(x)[k]);
    }
    assert forall|k: int| 0 <= k < 4 implies s[off + 4 + k] == #[trigger] le32(hi)[k] by {
        assert(s[off + 4 + k] == le64(x)[4 + k]);
    }
    lemma_le32_read(lo, s, off);
    lemma_le32_read(hi, s, off + 4);
    assert(lo as int + 0x1_0000_0000 * hi as int == x);
}

/// A big-endian 32-bit value stored at `off` reads back as itself.
pub proof fn lemma_be32_read(x: u32, s: Seq<u8>, off: int)
    requires
        0 <= off,
        off + 4 <= s.len(),
        forall|k: int| 0 <= k < 4 ==> s[off + k] == #[trigger] be32(x)[k],
    ensures
        read_be32(s, off) == x,
{
    assert(s[off] == be32(x)[0]);
    assert(s[off + 1] == be32(x)[1]);
    assert(s[off + 2] == be32(x)[2]);
    assert(s[off + 3] == be32(x)[3]);
    assert(x / 16777216 < 256);
    assert(16777216 * (x / 16777216) + 65536 * ((x / 65536) % 256) + 256 * ((x / 256) % 256) + x % 256 == x);
}

/// A big-endian 64-bit value stored at `off` reads back as itself.
pub proof fn lemma_be64_read(x: u64, s: Seq<u8>, off: int)
    requires
        0 <= off,
        off + 8 <= s.len(),
        forall|k: int| 0 <= k < 8 ==> s[off + k] == #[trigger] be64(x)[k],
    ensures
        read_be64(s, off) == x,
{
    let hi = (x / 0x1_0000_0000) as u32;
    let lo = (x % 0x1_0000_0000) as u32;
    assert forall|k: int| 0 <= k < 4 implies s[off + k] == #[trigger] be32(hi)[k] by {
        assert(s[off + k] == be64(x)[k]);
    }
    assert forall|k: int| 0 <= k < 4 implies s[off + 4 + k] == #[trigger] be32(lo)[k] by {
        assert(s[off + 4 + k] == be64(x)[4 + k]);
    }
    lemma_be32_read(hi, s, off);
    lemma_be32_read(lo, s, off + 4);
    assert(0x1_0000_0000 * hi as int + lo as int == x);
}

} // verus!
