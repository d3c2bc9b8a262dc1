//! Up-case table generation (the full 0x0000..=0xFFFF mapping) and its checksum.
use vstd::prelude::*;

verus! {

/// Upper-case mapping used by the volume: ASCII `a..z` and the Latin-1 lower-case
/// letters `0xE0..=0xF6`, `0xF8..=0xFE` move down by 0x20; all else maps to itself.
pub open spec fn spec_to_upper(ch: int) -> int {
    if (0x61 <= ch <= 0x7A) || (0xE0 <= ch <= 0xF6) || (0xF8 <= ch <= 0xFE) {
        ch - 0x20
    } else {
        ch
    }
}

/// The up-case table: for each code unit `c`, its upper-case form as two little-endian bytes.
pub open spec fn spec_upcase_table() -> Seq<u8> {
    Seq::new(
        131072,
        |k: int|
            if k % 2 == 0 {
                (spec_to_upper(k / 2) % 256) as u8
            } else {
                (spec_to_upper(k / 2) / 256) as u8
            },
    )
}

/// One step of the exFAT 32-bit table checksum: rotate right by one, add the byte.
pub open spec fn checksum_step(c: u32, b: u8) -> u32 {
    let rotated: int = if c % 2 == 1 { 0x8000_0000 + c / 2 } else { c as int / 2 };
    ((rotated + b) % 0x1_0000_0000) as u32
}

/// exFAT 32-bit checksum over all bytes of `data`.
pub open spec fn upcase_checksum(data: Seq<u8>) -> u32
    decreases data.len(),
{
    if data.len() == 0 {
        0
    } else {
        checksum_step(upcase_checksum(data.drop_last()), data.last())
    }
}

/// One checksum step.
pub fn checksum_step_exec(c: u32, b: u8) -> (r: u32)
    ensures
        r == checksum_step(c, b),
{
    let rotated: u32 = if c % 2 == 1 { 0x8000_0000u32 + c / 2 } else { c / 2 };
    rotated.wrapping_add(b as u32)
}

fn to_upper(ch: u16) -> (r: u16)
    ensures
        r == spec_to_upper(ch as int),
{
    if (0x0061 <= ch && ch <= 0x007A) || (0x00E0 <= ch && ch <= 0x00F6) || (0x00F8 <= ch && ch
        <= 0x00FE) {
        ch - 0x0020
    } else {
        ch
    }
}

/// Generates the up-case table and its TableChecksum.
pub fn generate_upcase_table() -> (r: (Vec<u8>, u32))
    ensures
        r.0@ == spec_upcase_table(),
        r.1 == upcase_checksum(spec_upcase_table()),
{
    let mut table: Vec<u8> = Vec::with_capacity(2 * 65536);
    let mut code: u32 = 0;
    while code <= 0xFFFF
        invariant
            code <= 0x10000,
            table@.len() == 2 * code,
            forall|k: int| 0 <= k < 2 * code ==> #[trigger] table@[k] == spec_upcase_table()[k],
        decreases 0x10000 - code,
    {
        let upper = to_upper(code as u16);
        table.push((upper % 256) as u8);
        table.push((upper / 256) as u8);
        proof {
            assert((2 * code as int) / 2 == code as int);
            assert((2 * code as int + 1) / 2 == code as int);
            assert((2 * code as int) % 2 == 0);
            assert((2 * code as int + 1) % 2 == 1);
        }
        code = code + 1;
    }
    assert(table@ =~= spec_upcase_table());
    let checksum = compute_upcase_checksum(table.as_slice());
    (table, checksum)
}

/// Computes the exFAT up-case TableChecksum of `data`.
pub fn compute_upcase_checksum(data: &[u8]) -> (r: u32)
    ensures
        r == upcase_checksum(data@),
{
    let mut checksum: u32 = 0;
    let mut i: usize = 0;
    while i < data.len()
        invariant
            i <= data@.len(),
            checksum == upcase_checksum(data@.take(i as int)),
        decreases data@.len() - i,
    {
        assert(data@.take(i + 1).drop_last() =~= data@.take(i as int));
        checksum = checksum_step_exec(checksum, data[i]);
        i = i + 1;
    }
    assert(data@.take(data@.len() as int) =~= data@);
    checksum
}

} // verus!
