//! Boot region and MBR generation.
//!
//! The main boot region holds the boot sector, 8 extended boot sectors, the OEM
//! parameters, a reserved sector and the boot checksum sector (12 sectors).
use vstd::prelude::*;
use crate::bytes::{copy_into, le16, le32, le64, splice, u16_le, u32_le, u64_le, zero_bytes, zeros};
use crate::exfat::upcase::{checksum_step, checksum_step_exec};
use crate::layout::{DiskLayout, FIRST_CLUSTER, FS_REVISION, PARTITION_OFFSET_SECTORS, SECTOR_SIZE};

verus! {

/// The bytes of the exFAT signature `"EXFAT   "`.
pub open spec fn exfat_signature() -> Seq<u8> {
    seq![0x45u8, 0x58u8, 0x46u8, 0x41u8, 0x54u8, 0x20u8, 0x20u8, 0x20u8]
}

/// The boot sector for `layout` with volume serial number `serial`.
pub open spec fn spec_boot_sector(layout: DiskLayout, serial: u32) -> Seq<u8> {
    let s0 = splice(zeros(512), 0, seq![0xEBu8, 0x76u8, 0x90u8]);
    let s1 = splice(s0, 3, exfat_signature());
    let s2 = splice(s1, 64, le64(2048));
    let s3 = splice(s2, 72, le64(layout.volume_length_sectors));
    let s4 = splice(s3, 80, le32(layout.fat_offset_sectors as u32));
    let s5 = splice(s4, 84, le32(layout.fat_length_sectors as u32));
    let s6 = splice(s5, 88, le32(layout.cluster_heap_offset_sectors as u32));
    let s7 = splice(s6, 92, le32(layout.cluster_count));
    let s8 = splice(s7, 96, le32(2));
    let s9 = splice(s8, 100, le32(serial));
    let s10 = splice(s9, 104, le16(0x0100));
    s10.update(108, 9).update(109, 3).update(110, 1).update(111, 0x80).update(112, 0xFF).update(
        510,
        0x55,
    ).update(511, 0xAA)
}

/// The boot checksum over the first `n` bytes of `data`, skipping the
/// VolumeFlags (106, 107) and PercentInUse (112) bytes.
pub open spec fn boot_checksum_prefix(data: Seq<u8>, n: int) -> u32
    decreases n,
{
    if n <= 0 {
        0
    } else {
        let prev = boot_checksum_prefix(data, n - 1);
        if n - 1 == 106 || n - 1 == 107 || n - 1 == 112 {
            prev
        } else {
            checksum_step(prev, data[n - 1])
        }
    }
}

/// The first 11 sectors of the boot region: boot sector, then 8 extended boot
/// sectors ending in the signature `00 00 55 AA`, then two zero sectors.
pub open spec fn spec_boot_region_body(layout: DiskLayout, serial: u32) -> Seq<u8> {
    let sig = le32(0xAA55_0000);
    let base = splice(zeros(6144), 0, spec_boot_sector(layout, serial));
    Seq::new(
        6144,
        |k: int|
            if 512 <= k < 9 * 512 && k % 512 >= 508 {
                sig[k % 512 - 508]
            } else {
                base[k]
            },
    )
}

/// The complete main boot region (12 sectors): the body followed by a sector
/// filled with the boot checksum of the first 11 sectors.
pub open spec fn spec_boot_region(layout: DiskLayout, serial: u32) -> Seq<u8> {
    let body = spec_boot_region_body(layout, serial);
    let checksum = boot_checksum_prefix(body, 5632int);
    Seq::new(6144, |k: int| if k >= 11 * 512 { le32(checksum)[k % 4] } else { body[k] })
}

/// The system clock's time, opaque to proofs.
#[verifier::external_type_specification]
#[verifier::external_body]
pub struct ExSystemTime(std::time::SystemTime);

/// `std::time::SystemTime::now`: the system clock's current time. It depends
/// on the clock, so nothing is stated of it.
#[verifier::external_body]
fn system_now() -> (r: std::time::SystemTime) {
    std::time::SystemTime::now()
}

/// `SystemTime::duration_since(UNIX_EPOCH)`: the time from the Unix epoch to
/// `t`, or `None` where `t` is earlier than the epoch. Both are opaque, so
/// nothing is stated of the result.
#[verifier::external_body]
fn since_unix_epoch(t: &std::time::SystemTime) -> (r: Option<std::time::Duration>) {
    match t.duration_since(std::time::UNIX_EPOCH) {
        Ok(d) => Some(d),
        Err(_) => None,
    }
}

/// `Duration::as_secs`: the whole seconds of `d`. A duration is opaque, so
/// nothing is stated of the result.
#[verifier::external_body]
fn whole_secs(d: &std::time::Duration) -> (r: u64) {
    d.as_secs()
}

/// Seconds since the Unix epoch according to the system clock, or `None` when
/// the clock reads earlier than the epoch.
fn unix_time_secs() -> (r: Option<u64>) {
    let now = system_now();
    match since_unix_epoch(&now) {
        Some(d) => Some(whole_secs(&d)),
        None => None,
    }
}

/// The volume serial number derived from a clock reading: its low 32 bits, or
/// `0x12345678` without a reading.
pub open spec fn spec_serial_from_clock(secs: Option<u64>) -> u32 {
    match secs {
        Some(s) => (s % 0x1_0000_0000) as u32,
        None => 0x12345678,
    }
}

/// Derives the volume serial number from a clock reading.
pub fn serial_from_clock(secs: Option<u64>) -> (r: u32)
    ensures
        r == spec_serial_from_clock(secs),
{
    match secs {
        Some(s) => (s % 0x1_0000_0000) as u32,
        None => 0x12345678,
    }
}

/// Generates the main boot region (12 sectors, 6144 bytes); the volume serial
/// number is taken from the system clock.
pub fn generate_boot_region(layout: &DiskLayout) -> (region: Vec<u8>)
    requires
        layout.wf(),
    ensures
        exists|secs: Option<u64>| region@ == spec_boot_region(*layout, spec_serial_from_clock(secs)),
{
    let secs = unix_time_secs();
    let serial = serial_from_clock(secs);
    generate_boot_region_with_serial(layout, serial)
}

/// Generates the main boot region with volume serial number `serial`.
pub fn generate_boot_region_with_serial(layout: &DiskLayout, serial: u32) -> (region: Vec<u8>)
    ensures
        region@ == spec_boot_region(*layout, serial),
{
    let mut region = zero_bytes(12 * SECTOR_SIZE as usize);
    let sector = build_boot_sector(layout, serial);
    copy_into(&mut region, 0, sector.as_slice());
    let ghost base = region@;
    let sig = u32_le(0xAA55_0000);
    let mut i: usize = 1;
    while i <= 8
        invariant
            1 <= i <= 9,
            sig@ == le32(0xAA55_0000),
            base == splice(zeros(6144), 0, spec_boot_sector(*layout, serial)),
            region@.len() == 6144,
            forall|k: int|
                0 <= k < 6144 ==> #[trigger] region@[k] == (if 512 <= k < i * 512 && k % 512 >= 508 {
                    sig@[k % 512 - 508]
                } else {
                    base[k]
                }),
        decreases 9 - i,
    {
        let sig_offset = i * 512 + 512 - 4;
        copy_into(&mut region, sig_offset, sig.as_slice());
        assert forall|k: int| 0 <= k < 6144 implies #[trigger] region@[k] == (if 512 <= k < (i + 1)
            * 512 && k % 512 >= 508 {
            sig@[k % 512 - 508]
        } else {
            base[k]
        }) by {
            if sig_offset <= k < sig_offset + 4 {
                assert(k % 512 == k - i * 512);
            } else if i * 512 <= k < (i + 1) * 512 {
                assert(k % 512 == k - i * 512);
            }
        }
        i = i + 1;
    }
    let ghost body = region@;
    assert(body =~= spec_boot_region_body(*layout, serial));
    let checksum = compute_boot_checksum(&region, 11 * 512);
    let cbytes = u32_le(checksum);
    let mut j: usize = 0;
    while j < 128
        invariant
            j <= 128,
            cbytes@ == le32(checksum),
            checksum == boot_checksum_prefix(body, 5632int),
            region@.len() == 6144,
            forall|k: int|
                0 <= k < 6144 ==> #[trigger] region@[k] == (if 11 * 512 <= k < 11 * 512 + 4 * j {
                    cbytes@[k % 4]
                } else {
                    body[k]
                }),
        decreases 128 - j,
    {
        let off = 11 * 512 + j * 4;
        copy_into(&mut region, off, cbytes.as_slice());
        assert forall|k: int| 0 <= k < 6144 implies #[trigger] region@[k] == (if 11 * 512 <= k < 11
            * 512 + 4 * (j + 1) {
            cbytes@[k % 4]
        } else {
            body[k]
        }) by {
            if off <= k < off + 4 {
                assert(k % 4 == k - off);
            }
        }
        j = j + 1;
    }
    assert(region@ =~= spec_boot_region(*layout, serial));
    region
}

fn build_boot_sector(layout: &DiskLayout, serial: u32) -> (sector: Vec<u8>)
    ensures
        sector@ == spec_boot_sector(*layout, serial),
{
    let mut sector = zero_bytes(SECTOR_SIZE as usize);
    let jump: Vec<u8> = vec![0xEBu8, 0x76u8, 0x90u8];
    assert(jump@ =~= seq![0xEBu8, 0x76u8, 0x90u8]);
    copy_into(&mut sector, 0, jump.as_slice());
    let sig: Vec<u8> = vec![0x45u8, 0x58u8, 0x46u8, 0x41u8, 0x54u8, 0x20u8, 0x20u8, 0x20u8];
    assert(sig@ =~= exfat_signature());
    copy_into(&mut sector, 3, sig.as_slice());
    copy_into(&mut sector, 64, u64_le(PARTITION_OFFSET_SECTORS).as_slice());
    copy_into(&mut sector, 72, u64_le(layout.volume_length_sectors).as_slice());
    copy_into(&mut sector, 80, u32_le(layout.fat_offset_sectors as u32).as_slice());
    copy_into(&mut sector, 84, u32_le(layout.fat_length_sectors as u32).as_slice());
    copy_into(&mut sector, 88, u32_le(layout.cluster_heap_offset_sectors as u32).as_slice());
    copy_into(&mut sector, 92, u32_le(layout.cluster_count).as_slice());
    copy_into(&mut sector, 96, u32_le(FIRST_CLUSTER).as_slice());
    copy_into(&mut sector, 100, u32_le(serial).as_slice());
    copy_into(&mut sector, 104, u16_le(FS_REVISION).as_slice());
    sector.set(108, 9);
    sector.set(109, 3);
    sector.set(110, 1);
    sector.set(111, 0x80);
    sector.set(112, 0xFF);
    sector.set(510, 0x55);
    sector.set(511, 0xAA);
    sector
}

fn compute_boot_checksum(data: &Vec<u8>, n: usize) -> (r: u32)
    requires
        n <= data@.len(),
    ensures
        r == boot_checksum_prefix(data@, n as int),
{
    let mut checksum: u32 = 0;
    let mut i: usize = 0;
    while i < n
        invariant
            i <= n <= data@.len(),
            checksum == boot_checksum_prefix(data@, i as int),
        decreases n - i,
    {
        if i != 106 && i != 107 && i != 112 {
            checksum = checksum_step_exec(checksum, data[i]);
        }
        i = i + 1;
    }
    checksum
}

/// The MBR sector: one partition entry of type 0x07 starting at sector 2048 whose
/// length is the volume length, capped at `u32::MAX`; signature `55 AA`.
pub open spec fn spec_mbr(layout: DiskLayout) -> Seq<u8> {
    let n = if layout.volume_length_sectors > u32::MAX {
        u32::MAX
    } else {
        layout.volume_length_sectors as u32
    };
    splice(splice(zeros(512).update(450, 0x07), 454, le32(2048)), 458, le32(n)).update(
        510,
        0x55,
    ).update(511, 0xAA)
}

/// Generates the MBR sector (512 bytes).
pub fn generate_mbr(layout: &DiskLayout) -> (mbr: Vec<u8>)
    ensures
        mbr@ == spec_mbr(*layout),
{
    let mut mbr = zero_bytes(SECTOR_SIZE as usize);
    let entry_offset: usize = 446;
    mbr.set(entry_offset, 0x00);
    assert(mbr@ =~= zeros(512));
    mbr.set(entry_offset + 4, 0x07);
    copy_into(&mut mbr, entry_offset + 8, u32_le(PARTITION_OFFSET_SECTORS as u32).as_slice());
    let num_sectors: u32 = if layout.volume_length_sectors > u32::MAX as u64 {
        u32::MAX
    } else {
        layout.volume_length_sectors as u32
    };
    copy_into(&mut mbr, entry_offset + 12, u32_le(num_sectors).as_slice());
    mbr.set(510, 0x55);
    mbr.set(511, 0xAA);
    mbr
}

} // verus!
