//! Parsing of exFAT directory entry sets.
use vstd::prelude::*;
use crate::bytes::{get_le32, get_le64, read_le16, read_le32, read_le64};
use crate::error::{io_error, ErrorKind, IoError};
use crate::text::{decode_utf16, encode_utf16, string_from_utf16, utf16_of_char};
use crate::bytes::{le16, lemma_le16_read, lemma_le32_read, lemma_le64_read, zeros};
use crate::exfat::dir_entry::{
    name_entry_count, spec_attrs, spec_entry_set_unsummed, spec_file_entry, spec_file_entry_set, spec_name_entries,
    spec_name_entry, spec_stream_entry, unit_bytes,
};

verus! {

/// One parsed (live) file or directory entry set.
#[derive(Debug)]
pub struct ParsedDirectoryEntry {
    pub name: String,
    pub is_dir: bool,
    pub first_cluster: u32,
    pub data_length: u64,
    pub valid_data_length: u64,
    pub attributes: u16,
    pub entry_offset: usize,
    pub set_len: usize,
    pub is_deleted: bool,
}

/// Mathematical form of a parsed entry set.
pub struct EntryView {
    pub name: Seq<char>,
    pub is_dir: bool,
    pub first_cluster: u32,
    pub data_length: u64,
    pub valid_data_length: u64,
    pub attributes: u16,
    pub entry_offset: int,
    pub set_len: int,
    pub is_deleted: bool,
}

impl ParsedDirectoryEntry {
    /// A copy of the entry.
    pub fn duplicate(&self) -> (r: Self)
        ensures
            r@ == self@,
    {
        ParsedDirectoryEntry {
            name: self.name.clone(),
            is_dir: self.is_dir,
            first_cluster: self.first_cluster,
            data_length: self.data_length,
            valid_data_length: self.valid_data_length,
            attributes: self.attributes,
            entry_offset: self.entry_offset,
            set_len: self.set_len,
            is_deleted: self.is_deleted,
        }
    }

    pub open spec fn view(&self) -> EntryView {
        EntryView {
            name: self.name@,
            is_dir: self.is_dir,
            first_cluster: self.first_cluster,
            data_length: self.data_length,
            valid_data_length: self.valid_data_length,
            attributes: self.attributes,
            entry_offset: self.entry_offset as int,
            set_len: self.set_len as int,
            is_deleted: self.is_deleted,
        }
    }
}

/// The views of a list of entries.
pub open spec fn entries_view(v: Seq<ParsedDirectoryEntry>) -> Seq<EntryView> {
    v.map_values(|e: ParsedDirectoryEntry| e@)
}

/// Non-zero name code units among the first `i` slots of the FileName entry at `c`.
pub open spec fn slot_units(data: Seq<u8>, c: int, i: int) -> Seq<u16>
    decreases i,
{
    if i <= 0 {
        seq![]
    } else {
        let p = c + 2 + (i - 1) * 2;
        let ch = read_le16(data[p], data[p + 1]);
        if ch != 0 { slot_units(data, c, i - 1).push(ch) } else { slot_units(data, c, i - 1) }
    }
}

/// Name code units contributed by the 32-byte entry at `c` (FileName entries only).
pub open spec fn entry_units(data: Seq<u8>, c: int) -> Seq<u16> {
    if data[c] == 0xC1 { slot_units(data, c, 15) } else { seq![] }
}

/// Name code units of the `k` entries that follow `start`, 32 bytes apart.
pub open spec fn collect_units(data: Seq<u8>, start: int, k: int) -> Seq<u16>
    decreases k,
{
    if k <= 0 {
        seq![]
    } else {
        collect_units(data, start, k - 1) + entry_units(data, start + 32 * (k - 1))
    }
}

/// The live entry described by the File entry at `off` with `sec` secondary entries.
pub open spec fn entry_at(data: Seq<u8>, off: int, sec: int, name: Seq<char>) -> EntryView {
    let attributes = read_le16(data[off + 4], data[off + 5]);
    let s = off + 32;
    EntryView {
        name,
        is_dir: (attributes / 16) % 2 == 1,
        first_cluster: read_le32(data, s + 20),
        data_length: read_le64(data, s + 24),
        valid_data_length: read_le64(data, s + 8),
        attributes,
        entry_offset: off,
        set_len: (sec + 1) * 32,
        is_deleted: false,
    }
}

/// Entry sets found from `off` on; `None` when the data is malformed: a set runs past
/// the buffer, a live set has no room for or lacks its Stream Extension, or a name
/// is not valid UTF-16.
pub open spec fn spec_parse_from(data: Seq<u8>, off: int) -> Option<Seq<EntryView>>
    decreases data.len() - off,
{
    if off < 0 || off + 32 > data.len() {
        Some(seq![])
    } else {
        let t = data[off];
        if t != 0x85 && t != 0x05 {
            spec_parse_from(data, off + 32)
        } else {
            let sec = data[off + 1] as int;
            let set_len = (sec + 1) * 32;
            if off + set_len > data.len() {
                None
            } else if t == 0x05 {
                spec_parse_from(data, off + set_len)
            } else if off + 64 > data.len() || data[off + 32] != 0xC0 {
                None
            } else {
                let k = if sec >= 1 { sec - 1 } else { 0 };
                match decode_utf16(collect_units(data, off + 64, k)) {
                    None => None,
                    Some(name) => match spec_parse_from(data, off + set_len) {
                        None => None,
                        Some(rest) => Some(seq![entry_at(data, off, sec, name)] + rest),
                    },
                }
            }
        }
    }
}

/// All entry sets of a directory image.
pub open spec fn spec_parse_entry_sets(data: Seq<u8>) -> Option<Seq<EntryView>> {
    spec_parse_from(data, 0)
}

fn name_units_of_entry(data: &[u8], c: usize, out: &mut Vec<u16>)
    requires
        c + 32 <= data@.len(),
    ensures
        final(out)@ == old(out)@ + entry_units(data@, c as int),
{
    if data[c] == 0xC1 {
        let ghost orig = out@;
        let dl = data.len();
        let mut i: usize = 0;
        while i < 15
            invariant
                dl == data@.len(),
                i <= 15,
                c + 32 <= data@.len(),
                out@ == orig + slot_units(data@, c as int, i as int),
            decreases 15 - i,
        {
            let p = c + 2 + i * 2;
            let ch: u16 = (data[p] as u16) + 256 * (data[p + 1] as u16);
            if ch != 0 {
                out.push(ch);
            }
            assert(out@ =~= orig + slot_units(data@, c as int, i + 1));
            i = i + 1;
        }
    } else {
        assert(out@ =~= out@ + entry_units(data@, c as int));
    }
}

/// Parses all live entry sets of a directory image.
pub fn parse_entry_sets(data: &[u8]) -> (r: Result<Vec<ParsedDirectoryEntry>, IoError>)
    ensures
        match spec_parse_entry_sets(data@) {
            Some(es) => r matches Ok(v) && entries_view(v@) == es,
            None => r matches Err(e) && e.kind == ErrorKind::InvalidData,
        },
{
    let mut entries: Vec<ParsedDirectoryEntry> = Vec::new();
    let mut offset: usize = 0;
    let len = data.len();
    assert(entries_view(entries@) + spec_parse_from(data@, 0)->0 =~= spec_parse_from(data@, 0)->0);
    while len - offset >= 32
        invariant
            len == data@.len(),
            offset <= len,
            match spec_parse_entry_sets(data@) {
                Some(full) => spec_parse_from(data@, offset as int) matches Some(rest)
                    && full == entries_view(entries@) + rest,
                None => spec_parse_from(data@, offset as int) is None,
            },
        decreases len - offset,
    {
        let entry_type = data[offset];
        let is_deleted = entry_type == 0x05;
        if entry_type != 0x85 && !is_deleted {
            offset = offset + 32;
            continue;
        }
        let secondary_count = data[offset + 1] as usize;
        let set_len = (secondary_count + 1) * 32;
        if len - offset < set_len {
            return Err(io_error(ErrorKind::InvalidData, "directory entry set exceeds buffer"));
        }
        if is_deleted {
            offset = offset + set_len;
            continue;
        }
        let stream_offset = offset + 32;
        if len - stream_offset < 32 || data[stream_offset] != 0xC0 {
            return Err(io_error(ErrorKind::InvalidData, "missing stream extension"));
        }
        let attributes: u16 = (data[offset + 4] as u16) + 256 * (data[offset + 5] as u16);
        let is_dir = (attributes / 16) % 2 == 1;
        let first_cluster = get_le32(data, stream_offset + 20);
        let valid_data_length = get_le64(data, stream_offset + 8);
        let data_length = get_le64(data, stream_offset + 24);

        let mut utf16: Vec<u16> = Vec::new();
        let k: usize = if secondary_count >= 1 { secondary_count - 1 } else { 0 };
        let mut j: usize = 0;
        while j < k
            invariant
                j <= k,
                k == (if secondary_count >= 1 { secondary_count - 1 } else { 0 }),
                offset + set_len <= len,
                set_len == (secondary_count + 1) * 32,
                len == data@.len(),
                utf16@ == collect_units(data@, offset + 64, j as int),
            decreases k - j,
        {
            let cursor = offset + 64 + 32 * j;
            name_units_of_entry(data, cursor, &mut utf16);
            j = j + 1;
        }
        let name = match string_from_utf16(utf16.as_slice()) {
            Some(n) => n,
            None => {
                return Err(io_error(ErrorKind::InvalidData, "invalid UTF-16 filename"));
            },
        };
        let entry = ParsedDirectoryEntry {
            name,
            is_dir,
            first_cluster,
            data_length,
            valid_data_length,
            attributes,
            entry_offset: offset,
            set_len,
            is_deleted,
        };
        proof {
            assert(entry@ == entry_at(data@, offset as int, secondary_count as int, entry.name@));
        }
        let ghost before = entries@;
        entries.push(entry);
        proof {
            assert(entries_view(entries@) =~= entries_view(before) + seq![entry@]);
            if spec_parse_entry_sets(data@) is Some {
                let full = spec_parse_entry_sets(data@)->0;
                let rest = spec_parse_from(data@, offset as int)->0;
                let rest2 = spec_parse_from(data@, offset + set_len)->0;
                assert(rest == seq![entry@] + rest2);
                assert(full =~= entries_view(entries@) + rest2);
            }
        }
        offset = offset + set_len;
    }
    proof {
        if spec_parse_entry_sets(data@) is Some {
            assert(entries_view(entries@) + seq![] =~= entries_view(entries@));
        }
    }
    Ok(entries)
}

/// A FileName entry is one entry long.
proof fn lemma_name_entry_len(units: Seq<u16>, k: int)
    ensures
        spec_name_entry(units, k).len() == 32,
{
}

/// Byte `b` of name entry `j` among the first `cnt` ones.
proof fn lemma_name_entries_index(units: Seq<u16>, cnt: int, j: int, b: int)
    requires
        0 <= j < cnt,
        0 <= b < 32,
    ensures
        spec_name_entries(units, cnt).len() == 32 * cnt,
        spec_name_entries(units, cnt)[32 * j + b] == spec_name_entry(units, j)[b],
    decreases cnt,
{
    lemma_name_entries_len(units, cnt - 1);
    lemma_name_entry_len(units, cnt - 1);
    if j < cnt - 1 {
        lemma_name_entries_index(units, cnt - 1, j, b);
    }
}

/// `cnt` FileName entries are `32 * cnt` bytes long.
proof fn lemma_name_entries_len(units: Seq<u16>, cnt: int)
    ensures
        cnt >= 0 ==> spec_name_entries(units, cnt).len() == 32 * cnt,
    decreases cnt,
{
    if cnt > 0 {
        lemma_name_entries_len(units, cnt - 1);
        lemma_name_entry_len(units, cnt - 1);
    }
}

/// The non-zero units read from the first `i` slots of a FileName entry that
/// holds `count` units of `units` from `start` (all of them non-zero).
proof fn lemma_slot_units(data: Seq<u8>, c: int, units: Seq<u16>, start: int, count: int, i: int)
    requires
        0 <= i <= 15,
        0 <= c,
        c + 32 <= data.len(),
        0 <= count <= 15,
        0 <= start,
        start + count <= units.len(),
        forall|b: int| 0 <= b < 32 ==> data[c + b] == #[trigger] unit_bytes(zeros(32).update(0, 0xC1), units, start, count)[b],
        forall|k: int| 0 <= k < units.len() ==> #[trigger] units[k] != 0,
    ensures
        slot_units(data, c, i) == units.subrange(start, start + (if i < count { i } else { count })),
    decreases i,
{
    if i > 0 {
        lemma_slot_units(data, c, units, start, count, i - 1);
        let b = 2 + (i - 1) * 2;
        let base = zeros(32).update(0, 0xC1);
        let ub = unit_bytes(base, units, start, count);
        assert(data[c + b] == ub[b]);
        assert(data[c + b + 1] == ub[b + 1]);
        assert((b - 2) / 2 == i - 1);
        assert((b + 1 - 2) / 2 == i - 1);
        assert((b - 2) % 2 == 0);
        assert((b + 1 - 2) % 2 == 1);
        if i - 1 < count {
            let u = units[start + i - 1];
            lemma_le16_read(u);
            assert(units.subrange(start, start + i) =~= units.subrange(start, start + i - 1).push(u));
        } else {
            assert(ub[b] == 0 && ub[b + 1] == 0);
        }
    }
}

/// A name without NUL characters encodes to non-zero UTF-16 units.
proof fn lemma_units_nonzero(name: Seq<char>)
    requires
        forall|i: int| 0 <= i < name.len() ==> (#[trigger] name[i]) as u32 != 0,
    ensures
        forall|k: int| 0 <= k < encode_utf16(name).len() ==> #[trigger] encode_utf16(name)[k] != 0,
    decreases name.len(),
{
    if name.len() > 0 {
        let rest = name.drop_first();
        assert forall|i: int| 0 <= i < rest.len() implies (#[trigger] rest[i]) as u32 != 0 by {
            assert(rest[i] == name[i + 1]);
        }
        lemma_units_nonzero(rest);
        assert(name[0] as u32 != 0);
        let head = utf16_of_char(name[0]);
        let v = (name[0] as u32) as int;
        vstd::utf8::char_is_scalar(name[0]);
        vstd::utf8::char_u32_cast(name[0], name[0] as u32);
        assert(0 <= v <= 0x10FFFF);
        assert forall|k: int| 0 <= k < head.len() implies #[trigger] head[k] != 0 by {
            if v < 0x10000 {
                assert(head[k] == v as u16);
                assert((v as u16) as int == v);
            } else {
                let w = v - 0x10000;
                assert(0 <= w < 0x100000);
                if k == 0 {
                    assert(head[0] == (0xD800 + w / 1024) as u16);
                    assert(((0xD800 + w / 1024) as u16) as int == 0xD800 + w / 1024);
                } else {
                    assert(head[1] == (0xDC00 + w % 1024) as u16);
                    assert(((0xDC00 + w % 1024) as u16) as int == 0xDC00 + w % 1024);
                }
            }
        }
        let e = encode_utf16(name);
        assert(e == head + encode_utf16(rest));
        assert forall|k: int| 0 <= k < e.len() implies #[trigger] e[k] != 0 by {
            if k < head.len() {
                assert(e[k] == head[k]);
            } else {
                assert(e[k] == encode_utf16(rest)[k - head.len()]);
            }
        }
    }
}

/// The name units read back from the first `k` FileName entries of a
/// generated entry set, whose name entries start at byte 64.
proof fn lemma_collect_units(data: Seq<u8>, units: Seq<u16>, k: int)
    requires
        0 <= k <= name_entry_count(units.len() as int),
        data.len() >= 64 + 32 * name_entry_count(units.len() as int),
        forall|j: int, b: int|
            0 <= j < name_entry_count(units.len() as int) && 0 <= b < 32 ==> data[64 + 32 * j + b]
                == #[trigger] spec_name_entry(units, j)[b],
        forall|q: int| 0 <= q < units.len() ==> #[trigger] units[q] != 0,
    ensures
        collect_units(data, 64, k) == units.take(if 15 * k < units.len() { 15 * k } else { units.len() as int }),
    decreases k,
{
    if k > 0 {
        lemma_collect_units(data, units, k - 1);
        let j = k - 1;
        let c = 64 + 32 * j;
        let remaining = units.len() - 15 * j;
        let count = if remaining < 15 { remaining } else { 15 };
        assert(15 * j < units.len());
        assert forall|b: int| 0 <= b < 32 implies data[c + b] == #[trigger] unit_bytes(
            zeros(32).update(0, 0xC1),
            units,
            15 * j,
            count,
        )[b] by {
            assert(data[64 + 32 * j + b] == spec_name_entry(units, j)[b]);
        }
        assert(data[c] == spec_name_entry(units, j)[0]);
        lemma_slot_units(data, c, units, 15 * j, count, 15);
        assert(collect_units(data, 64, k) == collect_units(data, 64, k - 1) + slot_units(data, c, 15));
        assert(collect_units(data, 64, k) =~= units.take(if 15 * k < units.len() { 15 * k } else { units.len() as int }));
    }
}

/// A generated entry set parses back to one live entry with the name, kind,
/// first cluster and lengths it was built with (a virus is listed as an empty
/// file), when the name has no NUL character and its FileName entries fit the
/// secondary count.
pub proof fn lemma_entry_set_parses_back(
    name: Seq<char>,
    is_dir: bool,
    start_cluster: u32,
    data_length: u64,
    is_virus: bool,
)
    requires
        forall|i: int| 0 <= i < name.len() ==> (#[trigger] name[i]) as u32 != 0,
        name_entry_count(encode_utf16(name).len() as int) <= 254,
    ensures
        spec_file_entry_set(encode_utf16(name), is_dir, start_cluster, data_length, is_virus)[0] == 0x85u8,
        spec_file_entry_set(encode_utf16(name), is_dir, start_cluster, data_length, is_virus)[1] as int == 1 + name_entry_count(
            encode_utf16(name).len() as int,
        ),
        spec_file_entry_set(encode_utf16(name), is_dir, start_cluster, data_length, is_virus).len() == 32 * (2
            + name_entry_count(encode_utf16(name).len() as int)),
        spec_parse_entry_sets(spec_file_entry_set(encode_utf16(name), is_dir, start_cluster, data_length, is_virus))
            == Some(
            seq![
                EntryView {
                    name,
                    is_dir,
                    first_cluster: if is_virus { 0 } else { start_cluster },
                    data_length: if is_virus { 0 } else { data_length },
                    valid_data_length: if is_virus { 0 } else { data_length },
                    attributes: spec_attrs(is_dir, is_virus),
                    entry_offset: 0,
                    set_len: 32 * (2 + name_entry_count(encode_utf16(name).len() as int)),
                    is_deleted: false,
                },
            ],
        ),
{
    let units = encode_utf16(name);
    let nec = name_entry_count(units.len() as int);
    let f = spec_file_entry(units, is_dir, is_virus);
    let st = spec_stream_entry(units, start_cluster, data_length, is_virus);
    let ne = spec_name_entries(units, nec);
    let raw = spec_entry_set_unsummed(units, is_dir, start_cluster, data_length, is_virus);
    let data = spec_file_entry_set(units, is_dir, start_cluster, data_length, is_virus);
    lemma_name_entries_len(units, nec);
    assert(f.len() == 32 && st.len() == 32);
    assert(raw == f + st + ne);
    assert(data.len() == 64 + 32 * nec);
    assert forall|k: int| 0 <= k < data.len() && k != 2 && k != 3 implies #[trigger] data[k] == raw[k] by {}
    let len: u64 = if is_virus { 0 } else { data_length };
    let first: u32 = if is_virus { 0 } else { start_cluster };
    let attrs = spec_attrs(is_dir, is_virus);
    // The File and Stream Extension entries.
    assert(data[0] == 0x85u8);
    assert(data[1] == ((1 + nec) as u8));
    assert(data[1] as int == 1 + nec);
    assert(data[32] == 0xC0u8);
    assert(data[4] == le16(attrs)[0] && data[5] == le16(attrs)[1]);
    lemma_le16_read(attrs);
    assert forall|k: int| 0 <= k < 4 implies data[52 + k] == #[trigger] crate::bytes::le32(first)[k] by {
        assert(data[52 + k] == st[20 + k]);
    }
    lemma_le32_read(first, data, 52);
    assert forall|k: int| 0 <= k < 8 implies data[56 + k] == #[trigger] crate::bytes::le64(len)[k] by {
        assert(data[56 + k] == st[24 + k]);
    }
    lemma_le64_read(len, data, 56);
    assert forall|k: int| 0 <= k < 8 implies data[40 + k] == #[trigger] crate::bytes::le64(len)[k] by {
        assert(data[40 + k] == st[8 + k]);
    }
    lemma_le64_read(len, data, 40);
    // The FileName entries.
    assert forall|j: int, b: int| 0 <= j < nec && 0 <= b < 32 implies data[64 + 32 * j + b]
        == #[trigger] spec_name_entry(units, j)[b] by {
        lemma_name_entries_index(units, nec, j, b);
        assert(data[64 + 32 * j + b] == ne[32 * j + b]);
    }
    lemma_units_nonzero(name);
    lemma_collect_units(data, units, nec);
    assert(units.take(units.len() as int) =~= units);
    crate::text::lemma_decode_encode(name);
    assert(collect_units(data, 64, nec) == units);
    assert(spec_parse_from(data, 32 * (2 + nec)) == Some(Seq::<EntryView>::empty()));
    let e = entry_at(data, 0, 1 + nec, name);
    assert(spec_parse_from(data, 0) == Some(seq![e] + Seq::<EntryView>::empty()));
    assert(seq![e] + Seq::<EntryView>::empty() =~= seq![e]);
}

/// One byte of two equal windows.
proof fn lemma_at(d1: Seq<u8>, o1: int, d2: Seq<u8>, o2: int, n: int, k: int)
    requires
        0 <= o1,
        o1 + n <= d1.len(),
        0 <= o2,
        o2 + n <= d2.len(),
        d1.subrange(o1, o1 + n) == d2.subrange(o2, o2 + n),
        0 <= k < n,
    ensures
        d1[o1 + k] == d2[o2 + k],
{
    assert(d1.subrange(o1, o1 + n)[k] == d1[o1 + k]);
    assert(d2.subrange(o2, o2 + n)[k] == d2[o2 + k]);
}

/// Part of two equal windows is equal.
proof fn lemma_sub_window(d1: Seq<u8>, o1: int, d2: Seq<u8>, o2: int, n: int, a: int, m: int)
    requires
        0 <= o1,
        o1 + n <= d1.len(),
        0 <= o2,
        o2 + n <= d2.len(),
        d1.subrange(o1, o1 + n) == d2.subrange(o2, o2 + n),
        0 <= a,
        0 <= m,
        a + m <= n,
    ensures
        d1.subrange(o1 + a, o1 + a + m) == d2.subrange(o2 + a, o2 + a + m),
{
    assert forall|k: int| 0 <= k < m implies #[trigger] d1.subrange(o1 + a, o1 + a + m)[k] == d2.subrange(o2 + a, o2 + a + m)[k] by {
        lemma_at(d1, o1, d2, o2, n, a + k);
    }
    assert(d1.subrange(o1 + a, o1 + a + m) =~= d2.subrange(o2 + a, o2 + a + m));
}

/// Name code units of equal FileName entries are equal.
proof fn lemma_slot_units_agree(d1: Seq<u8>, c1: int, d2: Seq<u8>, c2: int, i: int)
    requires
        0 <= c1,
        c1 + 32 <= d1.len(),
        0 <= c2,
        c2 + 32 <= d2.len(),
        d1.subrange(c1, c1 + 32) == d2.subrange(c2, c2 + 32),
        0 <= i <= 15,
    ensures
        slot_units(d1, c1, i) == slot_units(d2, c2, i),
    decreases i,
{
    if i > 0 {
        lemma_slot_units_agree(d1, c1, d2, c2, i - 1);
        lemma_at(d1, c1, d2, c2, 32, 2 + (i - 1) * 2);
        lemma_at(d1, c1, d2, c2, 32, 2 + (i - 1) * 2 + 1);
    }
}

/// Name code units of `k` equal entries are equal.
proof fn lemma_collect_units_agree(d1: Seq<u8>, s1: int, d2: Seq<u8>, s2: int, k: int)
    requires
        0 <= k,
        0 <= s1,
        s1 + 32 * k <= d1.len(),
        0 <= s2,
        s2 + 32 * k <= d2.len(),
        d1.subrange(s1, s1 + 32 * k) == d2.subrange(s2, s2 + 32 * k),
    ensures
        collect_units(d1, s1, k) == collect_units(d2, s2, k),
    decreases k,
{
    if k > 0 {
        lemma_sub_window(d1, s1, d2, s2, 32 * k, 0, 32 * (k - 1));
        lemma_collect_units_agree(d1, s1, d2, s2, k - 1);
        lemma_sub_window(d1, s1, d2, s2, 32 * k, 32 * (k - 1), 32);
        lemma_at(d1, s1, d2, s2, 32 * k, 32 * (k - 1));
        lemma_slot_units_agree(d1, s1 + 32 * (k - 1), d2, s2 + 32 * (k - 1), 15);
    }
}

/// The entry of the live set at `o`: `None` when it has no Stream Extension
/// in the data or its name is not valid UTF-16.
pub open spec fn live_entry(d: Seq<u8>, o: int) -> Option<EntryView> {
    let sec = d[o + 1] as int;
    if o + 64 > d.len() || d[o + 32] != 0xC0 {
        None
    } else {
        let k = if sec >= 1 { sec - 1 } else { 0 };
        match decode_utf16(collect_units(d, o + 64, k)) {
            None => None,
            Some(name) => Some(entry_at(d, o, sec, name)),
        }
    }
}

/// The entry at `o` placed at offset `off`.
pub open spec fn moved(e: EntryView, off: int) -> EntryView {
    EntryView { entry_offset: off, ..e }
}

/// Live sets with equal bytes give the same entry, but for its offset.
proof fn lemma_live_agree(d1: Seq<u8>, o1: int, d2: Seq<u8>, o2: int, n: int)
    requires
        0 <= o1,
        o1 + n <= d1.len(),
        0 <= o2,
        o2 + n <= d2.len(),
        32 <= n,
        d1.subrange(o1, o1 + n) == d2.subrange(o2, o2 + n),
        n >= (d1[o1 + 1] as int + 1) * 32,
        d1[o1 + 1] as int >= 1 || (n == d1.len() - o1 && n == d2.len() - o2),
    ensures
        live_entry(d1, o1) == match live_entry(d2, o2) {
            Some(e) => Some(moved(e, o1)),
            None => None,
        },
{
    lemma_at(d1, o1, d2, o2, n, 1);
    let sec = d1[o1 + 1] as int;
    if n >= 64 {
        lemma_at(d1, o1, d2, o2, n, 4);
        lemma_at(d1, o1, d2, o2, n, 5);
        lemma_at(d1, o1, d2, o2, n, 32);
        lemma_at(d1, o1, d2, o2, n, 40);
        lemma_at(d1, o1, d2, o2, n, 41);
        lemma_at(d1, o1, d2, o2, n, 42);
        lemma_at(d1, o1, d2, o2, n, 43);
        lemma_at(d1, o1, d2, o2, n, 44);
        lemma_at(d1, o1, d2, o2, n, 45);
        lemma_at(d1, o1, d2, o2, n, 46);
        lemma_at(d1, o1, d2, o2, n, 47);
        lemma_at(d1, o1, d2, o2, n, 52);
        lemma_at(d1, o1, d2, o2, n, 53);
        lemma_at(d1, o1, d2, o2, n, 54);
        lemma_at(d1, o1, d2, o2, n, 55);
        lemma_at(d1, o1, d2, o2, n, 56);
        lemma_at(d1, o1, d2, o2, n, 57);
        lemma_at(d1, o1, d2, o2, n, 58);
        lemma_at(d1, o1, d2, o2, n, 59);
        lemma_at(d1, o1, d2, o2, n, 60);
        lemma_at(d1, o1, d2, o2, n, 61);
        lemma_at(d1, o1, d2, o2, n, 62);
        lemma_at(d1, o1, d2, o2, n, 63);
        let k = if sec >= 1 { sec - 1 } else { 0 };
        if sec >= 1 {
            lemma_sub_window(d1, o1, d2, o2, n, 64, 32 * k);
            lemma_collect_units_agree(d1, o1 + 64, d2, o2 + 64, k);
        } else {
            lemma_sub_window(d1, o1, d2, o2, n, 64, 0);
            lemma_collect_units_agree(d1, o1 + 64, d2, o2 + 64, 0);
        }
        assert(read_le32(d1, o1 + 52) == read_le32(d2, o2 + 52));
        assert(read_le32(d1, o1 + 56) == read_le32(d2, o2 + 56));
        assert(read_le32(d1, o1 + 60) == read_le32(d2, o2 + 60));
        assert(read_le32(d1, o1 + 40) == read_le32(d2, o2 + 40));
        assert(read_le32(d1, o1 + 44) == read_le32(d2, o2 + 44));
    }
}

/// The entries `es` moved `d` bytes further.
pub open spec fn shifted(es: Seq<EntryView>, d: int) -> Seq<EntryView> {
    es.map_values(|e: EntryView| moved(e, e.entry_offset + d))
}

/// Parsing data behind a prefix gives the entries of the data alone, moved
/// by the prefix's length.
proof fn lemma_parse_shift(p: Seq<u8>, r: Seq<u8>, x: int)
    requires
        0 <= x,
    ensures
        spec_parse_from(p + r, p.len() + x) == match spec_parse_from(r, x) {
            Some(es) => Some(shifted(es, p.len() as int)),
            None => None,
        },
    decreases r.len() - x,
{
    let d = p + r;
    let o = p.len() + x;
    if x + 32 > r.len() {
        assert(shifted(Seq::<EntryView>::empty(), p.len() as int) =~= Seq::<EntryView>::empty());
    } else {
        let n = r.len() - x;
        assert(d.subrange(o, o + n) =~= r.subrange(x, x + n));
        lemma_at(d, o, r, x, n, 0);
        lemma_at(d, o, r, x, n, 1);
        let t = r[x];
        let sec = r[x + 1] as int;
        let set_len = (sec + 1) * 32;
        if t != 0x85 && t != 0x05 {
            lemma_parse_shift(p, r, x + 32);
        } else if x + set_len > r.len() {
        } else if t == 0x05 {
            lemma_parse_shift(p, r, x + set_len);
        } else {
            lemma_live_agree(d, o, r, x, n);
            lemma_parse_shift(p, r, x + set_len);
            match live_entry(r, x) {
                Some(e) => match spec_parse_from(r, x + set_len) {
                    Some(rest) => {
                        assert(shifted(seq![e] + rest, p.len() as int) =~= seq![moved(e, o)] + shifted(rest, p.len() as int));
                    },
                    None => {},
                },
                None => {},
            }
        }
    }
}

/// A directory entry to build: name, whether it is a directory, first
/// cluster, data length.
pub type BuiltItem = (Seq<char>, bool, u32, u64);

/// The entry set built for `it`.
pub open spec fn item_set(it: BuiltItem) -> Seq<u8> {
    spec_file_entry_set(encode_utf16(it.0), it.1, it.2, it.3, false)
}

/// The byte length of the entry set built for `it`.
pub open spec fn item_set_len(it: BuiltItem) -> int {
    32 * (2 + name_entry_count(encode_utf16(it.0).len() as int))
}

/// The entry sets built for `items`, one after the other.
pub open spec fn built_sets(items: Seq<BuiltItem>) -> Seq<u8>
    decreases items.len(),
{
    if items.len() == 0 {
        seq![]
    } else {
        item_set(items[0]) + built_sets(items.drop_first())
    }
}

/// The entries `items` parse back as, the first at byte `off`.
pub open spec fn built_entries(items: Seq<BuiltItem>, off: int) -> Seq<EntryView>
    decreases items.len(),
{
    if items.len() == 0 {
        seq![]
    } else {
        let it = items[0];
        seq![
            EntryView {
                name: it.0,
                is_dir: it.1,
                first_cluster: it.2,
                data_length: it.3,
                valid_data_length: it.3,
                attributes: spec_attrs(it.1, false),
                entry_offset: off,
                set_len: item_set_len(it),
                is_deleted: false,
            },
        ] + built_entries(items.drop_first(), off + item_set_len(it))
    }
}

/// Moving the entries built from `off` gives those built from further on.
proof fn lemma_built_shift(items: Seq<BuiltItem>, off: int, d: int)
    ensures
        shifted(built_entries(items, off), d) == built_entries(items, off + d),
    decreases items.len(),
{
    if items.len() > 0 {
        lemma_built_shift(items.drop_first(), off + item_set_len(items[0]), d);
        let rest = built_entries(items.drop_first(), off + item_set_len(items[0]));
        let first = built_entries(items, off)[0];
        assert(built_entries(items, off) == seq![first] + rest);
        assert(shifted(seq![first] + rest, d) =~= seq![moved(first, off + d)] + shifted(rest, d));
    }
}

/// Entry sets built one after the other parse back to the entries they were
/// built with, each at the byte where its set starts, when every name has no
/// NUL character and its FileName entries fit the secondary count.
pub proof fn lemma_entry_sets_parse_back(items: Seq<BuiltItem>)
    requires
        forall|i: int| #![trigger items[i]] 0 <= i < items.len() ==> {
            &&& forall|j: int| 0 <= j < items[i].0.len() ==> (#[trigger] items[i].0[j]) as u32 != 0
            &&& name_entry_count(encode_utf16(items[i].0).len() as int) <= 254
        },
    ensures
        spec_parse_entry_sets(built_sets(items)) == Some(built_entries(items, 0)),
    decreases items.len(),
{
    if items.len() > 0 {
        let it = items[0];
        let rest = items.drop_first();
        assert forall|i: int| #![trigger rest[i]] 0 <= i < rest.len() implies {
            &&& forall|j: int| 0 <= j < rest[i].0.len() ==> (#[trigger] rest[i].0[j]) as u32 != 0
            &&& name_entry_count(encode_utf16(rest[i].0).len() as int) <= 254
        } by {
            assert(rest[i] == items[i + 1]);
        }
        lemma_entry_sets_parse_back(rest);
        assert(items[0] == it);
        lemma_entry_set_parses_back(it.0, it.1, it.2, it.3, false);
        let s = item_set(it);
        let r = built_sets(rest);
        let d = s + r;
        let l = s.len() as int;
        assert(d.subrange(0, l) =~= s.subrange(0, l));
        lemma_at(d, 0, s, 0, l, 0);
        lemma_at(d, 0, s, 0, l, 1);
        lemma_live_agree(d, 0, s, 0, l);
        assert(spec_parse_from(s, l) == Some(Seq::<EntryView>::empty()));
        lemma_parse_shift(s, r, 0);
        lemma_built_shift(rest, 0, l);
        let e = live_entry(s, 0)->0;
        assert(moved(e, 0) == e);
        assert(built_entries(items, 0) =~= seq![e] + built_entries(rest, l));
    }
}

/// Entry sets built one after the other for names of at most 255 UTF-16
/// units with no NUL character parse back to the entries they were built
/// with, each at the byte where its set starts.
pub proof fn lemma_named_entry_sets_parse_back(items: Seq<BuiltItem>)
    requires
        forall|i: int| #![trigger items[i]] 0 <= i < items.len() ==> {
            &&& forall|j: int| 0 <= j < items[i].0.len() ==> (#[trigger] items[i].0[j]) as u32 != 0
            &&& encode_utf16(items[i].0).len() <= 255
        },
    ensures
        spec_parse_entry_sets(built_sets(items)) == Some(built_entries(items, 0)),
{
    assert forall|i: int| #![trigger items[i]] 0 <= i < items.len() implies {
        &&& forall|j: int| 0 <= j < items[i].0.len() ==> (#[trigger] items[i].0[j]) as u32 != 0
        &&& name_entry_count(encode_utf16(items[i].0).len() as int) <= 254
    } by {
        assert(name_entry_count(encode_utf16(items[i].0).len() as int) <= 18);
    }
    lemma_entry_sets_parse_back(items);
}

} // verus!
