//! exFAT directory entry generation.
//!
//! A file or directory is one entry set: a File entry (0x85), a Stream Extension
//! (0xC0) and one FileName entry (0xC1) per 15 UTF-16 code units of the name.
use vstd::prelude::*;
use crate::bytes::{copy_into, le16, le32, le64, splice, u16_le, u32_le, u64_le, zero_bytes, zeros};
use crate::text::{encode_utf16, str_to_utf16};

verus! {

pub const ENTRY_TYPE_FILE: u8 = 0x85;
pub const ENTRY_TYPE_STREAM: u8 = 0xC0;
pub const ENTRY_TYPE_FILE_NAME: u8 = 0xC1;
pub const ENTRY_TYPE_VOLUME_LABEL: u8 = 0x83;
pub const ENTRY_TYPE_BITMAP: u8 = 0x81;
pub const ENTRY_TYPE_UPCASE: u8 = 0x82;

pub const ATTR_DIRECTORY: u16 = 0x10;
pub const ATTR_ARCHIVE: u16 = 0x20;
pub const ATTR_READ_ONLY: u16 = 0x01;

/// UTF-16 code units held by one FileName entry.
pub const CHARS_PER_NAME_ENTRY: usize = 15;

/// The fixed timestamp stamped on every entry (2025-01-01 00:00:00).
pub open spec fn fixed_timestamp() -> u32 {
    spec_exfat_timestamp(2025, 1, 1, 0, 0, 0)
}

/// exFAT timestamp: year-1980 in bits 25..31, month 21..24, day 16..20,
/// hour 11..15, minute 5..10, double-seconds 0..4.
pub open spec fn spec_exfat_timestamp(year: int, month: int, day: int, hour: int, min: int, sec: int) -> u32 {
    ((year - 1980) * 0x200_0000 + month * 0x20_0000 + day * 0x1_0000 + hour * 0x800 + min * 0x20 + (sec / 2) % 32) as u32
}

/// Code unit bytes `2 + 2i`, `3 + 2i` of an entry: `units[start + i]` little-endian,
/// for `i < count`; zero elsewhere.
pub open spec fn unit_bytes(base: Seq<u8>, units: Seq<u16>, start: int, count: int) -> Seq<u8> {
    Seq::new(
        base.len(),
        |b: int|
            if 2 <= b && (b - 2) / 2 < count {
                le16(units[start + (b - 2) / 2])[(b - 2) % 2]
            } else {
                base[b]
            },
    )
}

/// Volume Label entry for a label of UTF-16 code units `units` (at most 11 are kept).
pub open spec fn spec_volume_label_entry(units: Seq<u16>) -> Seq<u8> {
    let count = if units.len() < 11 { units.len() as int } else { 11 };
    unit_bytes(zeros(32).update(0, 0x83).update(1, count as u8), units, 0, count)
}

/// Allocation Bitmap entry.
pub open spec fn spec_bitmap_entry(start_cluster: u32, data_length: u64) -> Seq<u8> {
    splice(splice(zeros(32).update(0, 0x81), 20, le32(start_cluster)), 24, le64(data_length))
}

/// Up-case Table entry.
pub open spec fn spec_upcase_entry(start_cluster: u32, data_length: u64, checksum: u32) -> Seq<u8> {
    splice(
        splice(splice(zeros(32).update(0, 0x82), 4, le32(checksum)), 20, le32(start_cluster)),
        24,
        le64(data_length),
    )
}

/// Upper-casing used by the name hash: ASCII `a..z` only.
pub open spec fn spec_simple_upcase(ch: u16) -> u16 {
    if 0x61 <= ch <= 0x7A { (ch - 0x20) as u16 } else { ch }
}

/// Rotate a 16-bit value right by one and add `b`, wrapping.
pub open spec fn hash_step(h: u16, b: u8) -> u16 {
    let rotated: int = if h % 2 == 1 { 0x8000 + h / 2 } else { h as int / 2 };
    ((rotated + b) % 0x1_0000) as u16
}

/// exFAT NameHash of the UTF-16 code units `name`.
pub open spec fn spec_name_hash(name: Seq<u16>) -> u16
    decreases name.len(),
{
    if name.len() == 0 {
        0
    } else {
        let h = spec_name_hash(name.drop_last());
        let up = spec_simple_upcase(name.last());
        hash_step(hash_step(h, (up % 256) as u8), (up / 256) as u8)
    }
}

/// 16-bit entry-set checksum over the first `n` bytes, skipping bytes 2 and 3
/// (the SetChecksum field itself).
pub open spec fn set_checksum_prefix(data: Seq<u8>, n: int) -> u16
    decreases n,
{
    if n <= 0 {
        0
    } else {
        let prev = set_checksum_prefix(data, n - 1);
        if n - 1 == 2 || n - 1 == 3 { prev } else { hash_step(prev, data[n - 1]) }
    }
}

/// The FileName entry `k` of a name.
pub open spec fn spec_name_entry(units: Seq<u16>, k: int) -> Seq<u8> {
    let remaining = units.len() - 15 * k;
    let count = if remaining < 15 { remaining } else { 15 };
    unit_bytes(zeros(32).update(0, 0xC1), units, 15 * k, count)
}

/// The first `cnt` FileName entries of a name.
pub open spec fn spec_name_entries(units: Seq<u16>, cnt: int) -> Seq<u8>
    decreases cnt,
{
    if cnt <= 0 {
        seq![]
    } else {
        spec_name_entries(units, cnt - 1) + spec_name_entry(units, cnt - 1)
    }
}

/// Number of FileName entries needed for a name of `len` code units.
pub open spec fn name_entry_count(len: int) -> int {
    (len + 14) / 15
}

/// File attributes: directory, read-only archive (blocked placeholder) or archive.
pub open spec fn spec_attrs(is_dir: bool, is_virus: bool) -> u16 {
    if is_dir { 0x10 } else if is_virus { 0x21 } else { 0x20 }
}

/// The File entry before its checksum is filled in.
pub open spec fn spec_file_entry(units: Seq<u16>, is_dir: bool, is_virus: bool) -> Seq<u8> {
    let secondary = 1 + name_entry_count(units.len() as int);
    let ts = le32(fixed_timestamp());
    splice(
        splice(
            splice(
                splice(zeros(32).update(0, 0x85).update(1, secondary as u8), 4, le16(spec_attrs(is_dir, is_virus))),
                8,
                ts,
            ),
            12,
            ts,
        ),
        16,
        ts,
    )
}

/// The Stream Extension entry.
pub open spec fn spec_stream_entry(units: Seq<u16>, start_cluster: u32, data_length: u64, is_virus: bool) -> Seq<u8> {
    let len: u64 = if is_virus { 0 } else { data_length };
    let first: u32 = if is_virus { 0 } else { start_cluster };
    let flags: u8 = if len > 0 { 3 } else { 1 };
    splice(
        splice(
            splice(
                splice(zeros(32).update(0, 0xC0).update(1, flags).update(3, units.len() as u8), 4, le16(spec_name_hash(units))),
                8,
                le64(len),
            ),
            20,
            le32(first),
        ),
        24,
        le64(len),
    )
}

/// The entry set before the SetChecksum is written.
pub open spec fn spec_entry_set_unsummed(units: Seq<u16>, is_dir: bool, start_cluster: u32, data_length: u64, is_virus: bool) -> Seq<u8> {
    spec_file_entry(units, is_dir, is_virus) + spec_stream_entry(units, start_cluster, data_length, is_virus)
        + spec_name_entries(units, name_entry_count(units.len() as int))
}

/// The complete entry set of a file or directory named by UTF-16 code units `units`.
pub open spec fn spec_file_entry_set(units: Seq<u16>, is_dir: bool, start_cluster: u32, data_length: u64, is_virus: bool) -> Seq<u8> {
    let raw = spec_entry_set_unsummed(units, is_dir, start_cluster, data_length, is_virus);
    let cs = set_checksum_prefix(raw, raw.len() as int);
    raw.update(2, (cs % 256) as u8).update(3, (cs / 256) as u8)
}

fn write_units(entry: &mut Vec<u8>, units: &Vec<u16>, start: usize, count: usize)
    requires
        old(entry)@.len() == 32,
        count <= 15,
        start + count <= units@.len(),
    ensures
        final(entry)@ == unit_bytes(old(entry)@, units@, start as int, count as int),
{
    let ghost orig = entry@;
    let ul = units.len();
    let mut i: usize = 0;
    while i < count
        invariant
            i <= count <= 15,
            ul == units@.len(),
            start + count <= units@.len(),
            orig.len() == 32,
            entry@ == unit_bytes(orig, units@, start as int, i as int),
        decreases count - i,
    {
        let ch = units[start + i];
        let offset = 2 + i * 2;
        let ghost before = entry@;
        entry.set(offset, (ch % 256) as u8);
        entry.set(offset + 1, (ch / 256) as u8);
        proof {
            assert forall|b: int| 0 <= b < 32 implies #[trigger] entry@[b] == unit_bytes(orig, units@, start as int, i + 1)[b] by {
                if b == offset || b == offset + 1 {
                    assert((b - 2) / 2 == i);
                }
            }
        }
        assert(entry@ =~= unit_bytes(orig, units@, start as int, i + 1));
        i = i + 1;
    }
}

/// Generates the Volume Label entry for `label` (at most 11 UTF-16 code units).
pub fn build_volume_label_entry(label: &str) -> (entry: Vec<u8>)
    ensures
        entry@ == spec_volume_label_entry(encode_utf16(label@)),
{
    let utf16 = str_to_utf16(label);
    let char_count: usize = if utf16.len() < 11 { utf16.len() } else { 11 };
    let mut entry = zero_bytes(32);
    entry.set(0, ENTRY_TYPE_VOLUME_LABEL);
    entry.set(1, char_count as u8);
    write_units(&mut entry, &utf16, 0, char_count);
    entry
}

/// Generates the Allocation Bitmap entry.
pub fn build_bitmap_entry(start_cluster: u32, data_length: u64) -> (entry: Vec<u8>)
    ensures
        entry@ == spec_bitmap_entry(start_cluster, data_length),
{
    let mut entry = zero_bytes(32);
    entry.set(0, ENTRY_TYPE_BITMAP);
    entry.set(1, 0);
    assert(entry@ =~= zeros(32).update(0, 0x81));
    copy_into(&mut entry, 20, u32_le(start_cluster).as_slice());
    copy_into(&mut entry, 24, u64_le(data_length).as_slice());
    entry
}

/// Generates the Up-case Table entry.
pub fn build_upcase_entry(start_cluster: u32, data_length: u64, checksum: u32) -> (entry: Vec<u8>)
    ensures
        entry@ == spec_upcase_entry(start_cluster, data_length, checksum),
{
    let mut entry = zero_bytes(32);
    entry.set(0, ENTRY_TYPE_UPCASE);
    copy_into(&mut entry, 4, u32_le(checksum).as_slice());
    copy_into(&mut entry, 20, u32_le(start_cluster).as_slice());
    copy_into(&mut entry, 24, u64_le(data_length).as_slice());
    entry
}

/// Encodes an exFAT timestamp.
fn encode_exfat_timestamp(year: u16, month: u8, day: u8, hour: u8, min: u8, sec: u8) -> (t: u32)
    requires
        1980 <= year < 1980 + 128,
        month < 16,
        day < 32,
        hour < 32,
        min < 64,
    ensures
        t == spec_exfat_timestamp(year as int, month as int, day as int, hour as int, min as int, sec as int),
{
    let y: u32 = (year - 1980) as u32 * 0x200_0000;
    let m: u32 = month as u32 * 0x20_0000;
    let d: u32 = day as u32 * 0x1_0000;
    let h: u32 = hour as u32 * 0x800;
    let mi: u32 = min as u32 * 0x20;
    let s: u32 = (sec as u32 / 2) % 32;
    assert(y <= 127 * 0x200_0000 && m <= 15 * 0x20_0000 && d <= 31 * 0x1_0000 && h <= 31 * 0x800 && mi <= 63 * 0x20);
    y + m + d + h + mi + s
}

fn hash_step_exec(h: u16, b: u8) -> (r: u16)
    ensures
        r == hash_step(h, b),
{
    let rotated: u16 = if h % 2 == 1 { 0x8000u16 + h / 2 } else { h / 2 };
    rotated.wrapping_add(b as u16)
}

fn simple_upcase(ch: u16) -> (r: u16)
    ensures
        r == spec_simple_upcase(ch),
{
    if 0x0061 <= ch && ch <= 0x007A {
        ch - 0x0020
    } else {
        ch
    }
}

/// Computes the exFAT NameHash of a UTF-16 name.
pub fn compute_name_hash(name_utf16: &[u16]) -> (hash: u16)
    ensures
        hash == spec_name_hash(name_utf16@),
{
    let mut hash: u16 = 0;
    let mut i: usize = 0;
    while i < name_utf16.len()
        invariant
            i <= name_utf16@.len(),
            hash == spec_name_hash(name_utf16@.take(i as int)),
        decreases name_utf16@.len() - i,
    {
        assert(name_utf16@.take(i + 1).drop_last() =~= name_utf16@.take(i as int));
        let upper = simple_upcase(name_utf16[i]);
        hash = hash_step_exec(hash, (upper % 256) as u8);
        hash = hash_step_exec(hash, (upper / 256) as u8);
        i = i + 1;
    }
    assert(name_utf16@.take(name_utf16@.len() as int) =~= name_utf16@);
    hash
}

fn compute_set_checksum(entry_set: &Vec<u8>) -> (r: u16)
    ensures
        r == set_checksum_prefix(entry_set@, entry_set@.len() as int),
{
    let mut checksum: u16 = 0;
    let mut i: usize = 0;
    while i < entry_set.len()
        invariant
            i <= entry_set@.len(),
            checksum == set_checksum_prefix(entry_set@, i as int),
        decreases entry_set@.len() - i,
    {
        if i != 2 && i != 3 {
            checksum = hash_step_exec(checksum, entry_set[i]);
        }
        i = i + 1;
    }
    checksum
}

/// The `k`-th FileName entry of the name `units`.
fn build_name_entry(units: &Vec<u16>, k: usize) -> (e: Vec<u8>)
    requires
        k < name_entry_count(units@.len() as int),
    ensures
        e@ == spec_name_entry(units@, k as int),
{
    let name_len = units.len();
    let mut name_entry = zero_bytes(32);
    name_entry.set(0, ENTRY_TYPE_FILE_NAME);
    name_entry.set(1, 0);
    let start: usize = k * 15;
    let end: usize = if start + 15 < name_len { start + 15 } else { name_len };
    assert(zeros(32).update(0, 0xC1) =~= name_entry@);
    write_units(&mut name_entry, units, start, end - start);
    name_entry
}

/// Generates the complete entry set (File + Stream + FileName entries) of a file
/// or directory. A virus file is listed with no data (length 0, no cluster) and
/// the read-only attribute.
#[verifier::spinoff_prover]
pub fn build_file_entry_set(name: &str, is_dir: bool, start_cluster: u32, data_length: u64, is_virus: bool) -> (entries: Vec<u8>)
    ensures
        entries@ == spec_file_entry_set(encode_utf16(name@), is_dir, start_cluster, data_length, is_virus),
{
    let utf16_name = str_to_utf16(name);
    let ghost units = utf16_name@;
    let name_len: usize = utf16_name.len();
    assert(name_len <= usize::MAX);
    let nec: usize = name_len / 15 + (if name_len % 15 != 0 { 1usize } else { 0usize });
    assert(nec == name_entry_count(name_len as int));
    let secondary_count: usize = 1 + nec;
    let actual_data_length: u64 = if is_virus { 0 } else { data_length };
    let actual_start_cluster: u32 = if is_virus { 0 } else { start_cluster };

    let mut file_entry = zero_bytes(32);
    file_entry.set(0, ENTRY_TYPE_FILE);
    file_entry.set(1, secondary_count as u8);
    let attrs: u16 = if is_dir { ATTR_DIRECTORY } else if is_virus { ATTR_READ_ONLY | ATTR_ARCHIVE } else { ATTR_ARCHIVE };
    assert(ATTR_READ_ONLY | ATTR_ARCHIVE == 0x21u16) by (bit_vector);
    copy_into(&mut file_entry, 4, u16_le(attrs).as_slice());
    let timestamp = encode_exfat_timestamp(2025, 1, 1, 0, 0, 0);
    let ts = u32_le(timestamp);
    copy_into(&mut file_entry, 8, ts.as_slice());
    copy_into(&mut file_entry, 12, ts.as_slice());
    copy_into(&mut file_entry, 16, ts.as_slice());
    assert(file_entry@ =~= spec_file_entry(units, is_dir, is_virus));

    let mut entries: Vec<u8> = Vec::new();
    entries.extend_from_slice(file_entry.as_slice());

    let name_hash = compute_name_hash(utf16_name.as_slice());
    let mut stream_entry = zero_bytes(32);
    stream_entry.set(0, ENTRY_TYPE_STREAM);
    let flags: u8 = if actual_data_length > 0 { 0x03u8 } else { 0x01u8 };
    stream_entry.set(1, flags);
    stream_entry.set(3, name_len as u8);
    copy_into(&mut stream_entry, 4, u16_le(name_hash).as_slice());
    copy_into(&mut stream_entry, 8, u64_le(actual_data_length).as_slice());
    copy_into(&mut stream_entry, 20, u32_le(actual_start_cluster).as_slice());
    copy_into(&mut stream_entry, 24, u64_le(actual_data_length).as_slice());
    assert(stream_entry@ =~= spec_stream_entry(units, start_cluster, data_length, is_virus));
    entries.extend_from_slice(stream_entry.as_slice());

    let mut chunk_idx: usize = 0;
    while chunk_idx < nec
        invariant
            chunk_idx <= nec,
            nec == name_entry_count(units.len() as int),
            name_len == units.len(),
            utf16_name@ == units,
            entries@ == spec_file_entry(units, is_dir, is_virus) + spec_stream_entry(units, start_cluster, data_length, is_virus)
                + spec_name_entries(units, chunk_idx as int),
        decreases nec - chunk_idx,
    {
        let name_entry = build_name_entry(&utf16_name, chunk_idx);
        entries.extend_from_slice(name_entry.as_slice());
        proof {
            assert(spec_name_entries(units, chunk_idx + 1) == spec_name_entries(units, chunk_idx as int)
                + spec_name_entry(units, chunk_idx as int));
            assert(entries@ =~= spec_file_entry(units, is_dir, is_virus) + spec_stream_entry(units, start_cluster, data_length, is_virus)
                + spec_name_entries(units, chunk_idx + 1));
        }
        chunk_idx = chunk_idx + 1;
    }
    let ghost raw = entries@;
    assert(raw == spec_entry_set_unsummed(units, is_dir, start_cluster, data_length, is_virus));
    let set_checksum = compute_set_checksum(&entries);
    entries.set(2, (set_checksum % 256) as u8);
    entries.set(3, (set_checksum / 256) as u8);
    entries
}

} // verus!
