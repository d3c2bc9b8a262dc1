use file_access::error::ErrorKind;
use file_access::exfat::bitmap_state::BitmapState;
use file_access::exfat::boot::{generate_boot_region_with_serial, generate_mbr, serial_from_clock};
use file_access::exfat::diff::diff_directory_snapshots;
use file_access::exfat::dir_entry::{build_file_entry_set, compute_name_hash};
use file_access::exfat::dir_snapshot::DirectorySnapshot;
use file_access::exfat::directory_parser::parse_entry_sets;
use file_access::exfat::fat::FatBuilder;
use file_access::exfat::fat_state::FatState;
use file_access::exfat::sector_owner::{SectorOwner, SectorOwnerMap};
use file_access::exfat::upcase::{compute_upcase_checksum, generate_upcase_table};
use file_access::layout::DiskLayout;
use file_access::text::{str_to_utf16, string_from_utf16};

#[test]
fn layout_for_one_hundred_clusters() {
    let l = DiskLayout::new(100);
    assert_eq!(l.fat_offset_sectors, 24);
    assert_eq!(l.fat_length_sectors, 1);
    assert_eq!(l.cluster_heap_offset_sectors, 32);
    assert_eq!(l.volume_length_sectors, 832);
    assert_eq!(l.total_sectors, 2880);
    assert_eq!(l.end_byte_exclusive(), 2880 * 512);
    assert_eq!(l.cluster_to_sector(2), 2080);
    assert_eq!(l.cluster_to_sector(3), 2088);
}

#[test]
fn cluster_sectors_map_back_to_their_cluster() {
    let l = DiskLayout::new(100);
    for c in [2u32, 3, 50, 101] {
        let s = l.cluster_to_sector(c);
        for i in 0..8 {
            assert_eq!(l.sector_to_cluster(s + i), Some(c));
        }
    }
    assert_eq!(l.sector_to_cluster(2079), None);
    assert_eq!(l.sector_to_cluster(l.cluster_to_sector(101) + 8), None);
}

#[test]
fn layout_grows_to_minimum_size() {
    let l = DiskLayout::new_with_min_total_bytes(10, 2048 * 512 + 80 * 4096);
    assert_eq!(l.cluster_count, 80);
    let small = DiskLayout::new_with_min_total_bytes(10, 512);
    assert_eq!(small.cluster_count, 10);
}

#[test]
fn fat_chain_reads_back() {
    let mut fat = FatState::new(20);
    fat.set_chain(&[5, 9, 6]).unwrap();
    assert_eq!(fat.chain_from(5).unwrap(), vec![5, 9, 6]);
    assert_eq!(fat.entry_for(9), Some(6));
    assert_eq!(fat.entry_for(6), Some(0xFFFF_FFFF));
    assert_eq!(fat.chain_from(9).unwrap(), vec![9, 6]);
    fat.mark_free(9).unwrap();
    assert_eq!(fat.entry_for(9), None);
}

#[test]
fn fat_rejects_out_of_range_clusters() {
    let mut fat = FatState::new(4);
    assert_eq!(fat.set_chain(&[2, 6]).unwrap_err().kind, ErrorKind::InvalidInput);
    assert_eq!(fat.entry_for(2), None);
    assert_eq!(fat.mark_free(1).unwrap_err().kind, ErrorKind::InvalidInput);
    assert_eq!(fat.chain_from(0).unwrap_err().kind, ErrorKind::InvalidInput);
}

#[test]
fn later_chain_relinks_clusters() {
    let mut fat = FatState::new(4);
    fat.set_chain(&[2, 3, 4]).unwrap();
    fat.set_chain(&[4, 5]).unwrap();
    assert_eq!(fat.chain_from(2).unwrap(), vec![2, 3, 4, 5]);
    assert_eq!(fat.chain_from(5).unwrap(), vec![5]);
    assert_eq!(fat.cluster_count(), 4);
}

#[test]
fn fat_builder_serializes_entries() {
    let mut b = FatBuilder::new(4);
    assert_eq!(b.set_chain(2, 3), 2);
    let data = b.build(1);
    assert_eq!(data.len(), 512);
    assert_eq!(&data[0..4], &[0xF8, 0xFF, 0xFF, 0xFF]);
    assert_eq!(&data[4..8], &[0xFF, 0xFF, 0xFF, 0xFF]);
    assert_eq!(&data[8..12], &[3, 0, 0, 0]);
    assert_eq!(&data[12..16], &[4, 0, 0, 0]);
    assert_eq!(&data[16..20], &[0xFF, 0xFF, 0xFF, 0xFF]);
    assert_eq!(&data[20..24], &[0, 0, 0, 0]);
}

#[test]
fn bitmap_state_tracks_clusters() {
    let mut b = BitmapState::new(8);
    b.mark_allocated(4).unwrap();
    b.mark_allocated(9).unwrap();
    assert!(b.is_allocated(4));
    assert!(!b.is_allocated(5));
    assert_eq!(b.mark_allocated(10).unwrap_err().kind, ErrorKind::InvalidInput);
    let mut v = b.allocated_clusters();
    v.sort();
    assert_eq!(v, vec![4, 9]);
    b.mark_free(4).unwrap();
    assert!(!b.is_allocated(4));
    assert_eq!(b.cluster_count(), 8);
}

#[test]
fn utf16_round_trip() {
    for s in ["", "a.txt", "Ünïcödé", "日本語.doc", "emoji😀.png"] {
        let units = str_to_utf16(s);
        assert_eq!(units, s.encode_utf16().collect::<Vec<u16>>());
        assert_eq!(string_from_utf16(&units).unwrap(), s);
    }
    assert!(string_from_utf16(&[0xD800]).is_none());
}

#[test]
fn name_hash_matches_exfat_algorithm() {
    assert_eq!(compute_name_hash(&str_to_utf16("a.txt")), 0x1cb8);
    assert_eq!(compute_name_hash(&str_to_utf16("A.TXT")), 0x1cb8);
    assert_eq!(compute_name_hash(&str_to_utf16("tool.bin")), 0xbf32);
    assert_eq!(compute_name_hash(&[]), 0);
}

#[test]
fn upcase_table_and_checksum() {
    let (table, checksum) = generate_upcase_table();
    assert_eq!(table.len(), 2 * 65536);
    assert_eq!(&table[2 * 0x61..2 * 0x61 + 2], &[0x41, 0x00]);
    assert_eq!(&table[2 * 0x41..2 * 0x41 + 2], &[0x41, 0x00]);
    assert_eq!(compute_upcase_checksum(&table), checksum);
    assert_eq!(compute_upcase_checksum(&[]), 0);
    assert_eq!(compute_upcase_checksum(&[1]), 1);
    assert_eq!(compute_upcase_checksum(&[1, 2]), 0x8000_0002);
}

#[test]
fn boot_region_fields() {
    let l = DiskLayout::new(100);
    let region = generate_boot_region_with_serial(&l, 0xDEAD_BEEF);
    assert_eq!(region.len(), 6144);
    assert_eq!(&region[0..3], &[0xEB, 0x76, 0x90]);
    assert_eq!(&region[3..11], b"EXFAT   ");
    assert_eq!(&region[64..72], &2048u64.to_le_bytes());
    assert_eq!(&region[72..80], &832u64.to_le_bytes());
    assert_eq!(&region[88..92], &32u32.to_le_bytes());
    assert_eq!(&region[92..96], &100u32.to_le_bytes());
    assert_eq!(&region[100..104], &0xDEAD_BEEFu32.to_le_bytes());
    assert_eq!(region[108], 9);
    assert_eq!(region[109], 3);
    assert_eq!(&region[510..512], &[0x55, 0xAA]);
    assert_eq!(&region[512 + 508..1024], &[0x00, 0x00, 0x55, 0xAA]);
    let sum = &region[11 * 512..11 * 512 + 4];
    assert_eq!(&region[6140..6144], sum);
    assert_eq!(serial_from_clock(Some(0x1_2345_6789)), 0x2345_6789);
    assert_eq!(serial_from_clock(None), 0x1234_5678);
}

#[test]
fn mbr_has_one_exfat_partition() {
    let l = DiskLayout::new(100);
    let mbr = generate_mbr(&l);
    assert_eq!(mbr.len(), 512);
    assert_eq!(mbr[450], 0x07);
    assert_eq!(&mbr[454..458], &2048u32.to_le_bytes());
    assert_eq!(&mbr[458..462], &832u32.to_le_bytes());
    assert_eq!(&mbr[510..512], &[0x55, 0xAA]);
}

#[test]
fn entry_set_parses_back() {
    let mut data = build_file_entry_set("report.txt", false, 7, 5000, false);
    data.extend(build_file_entry_set("Sub Dir", true, 9, 4096, false));
    data.resize(4096, 0);
    let entries = parse_entry_sets(&data).unwrap();
    assert_eq!(entries.len(), 2);
    assert_eq!(entries[0].name, "report.txt");
    assert!(!entries[0].is_dir);
    assert_eq!(entries[0].first_cluster, 7);
    assert_eq!(entries[0].data_length, 5000);
    assert_eq!(entries[0].entry_offset, 0);
    assert_eq!(entries[0].set_len, 96);
    assert_eq!(entries[1].name, "Sub Dir");
    assert!(entries[1].is_dir);
    assert_eq!(entries[1].entry_offset, 96);
}

#[test]
fn long_name_takes_more_name_entries() {
    let name = "a_rather_long_file_name_over_fifteen.txt";
    let data = build_file_entry_set(name, false, 3, 1, false);
    assert_eq!(data.len(), 32 * (2 + 3));
    assert_eq!(data[1], 4);
    let entries = parse_entry_sets(&data).unwrap();
    assert_eq!(entries[0].name, name);
}

#[test]
fn virus_entry_has_no_data() {
    let data = build_file_entry_set("bad.exe", false, 7, 5000, true);
    let entries = parse_entry_sets(&data).unwrap();
    assert_eq!(entries[0].first_cluster, 0);
    assert_eq!(entries[0].data_length, 0);
    assert_eq!(entries[0].attributes & 0x01, 0x01);
}

#[test]
fn unchanged_directory_has_no_diff() {
    let mut data = build_file_entry_set("a.txt", false, 5, 100, false);
    data.resize(512, 0);
    let old = DirectorySnapshot::parse("/".to_string(), &data).unwrap();
    let new = DirectorySnapshot::parse("/".to_string(), &data).unwrap();
    assert_eq!(old.path(), "/");
    assert!(old.get_by_name("a.txt").is_some());
    assert!(old.get_by_offset(0).is_some());
    assert!(diff_directory_snapshots(&old, &new).unwrap().is_empty());
}

#[test]
fn new_entry_is_a_creation() {
    let mut before = build_file_entry_set("a.txt", false, 5, 100, false);
    before.resize(512, 0);
    let mut after = build_file_entry_set("a.txt", false, 5, 100, false);
    after.extend(build_file_entry_set("b.txt", false, 6, 10, false));
    after.resize(512, 0);
    let old = DirectorySnapshot::parse("/docs".to_string(), &before).unwrap();
    let new = DirectorySnapshot::parse("/docs".to_string(), &after).unwrap();
    let muts = diff_directory_snapshots(&old, &new).unwrap();
    assert_eq!(muts.len(), 1);
    match &muts[0] {
        file_access::vfs::mutation::FsMutation::CreateFile { parent, name, size, .. } => {
            assert_eq!(parent, "/docs");
            assert_eq!(name, "b.txt");
            assert_eq!(*size, 10);
        }
        other => panic!("unexpected mutation {other:?}"),
    }
}

#[test]
fn vanished_entry_is_a_deletion() {
    let mut before = build_file_entry_set("a.txt", false, 5, 100, false);
    before.resize(512, 0);
    let after = vec![0u8; 512];
    let old = DirectorySnapshot::parse("/".to_string(), &before).unwrap();
    let new = DirectorySnapshot::parse("/".to_string(), &after).unwrap();
    let muts = diff_directory_snapshots(&old, &new).unwrap();
    assert_eq!(muts.len(), 1);
    match &muts[0] {
        file_access::vfs::mutation::FsMutation::Delete { virtual_path, .. } => {
            assert_eq!(virtual_path, "/a.txt")
        }
        other => panic!("unexpected mutation {other:?}"),
    }
}

#[test]
fn sector_owners_after_registers_and_marks() {
    let mut m = SectorOwnerMap::new(100);
    m.register_cluster_range(2, 10, 5, 8);
    m.register_cluster(9, 40, 8);
    assert!(m.mark_range(0, 1, SectorOwner::Mbr).is_ok());
    assert!(m.mark_range(12, 4, SectorOwner::Fat).is_ok());
    assert!(m.mark_range(14, 2, SectorOwner::BootRegion).is_ok());
    assert!(m.mark_range(95, 10, SectorOwner::Reserved).is_err());
    assert!(m.mark_range(20, 0, SectorOwner::Reserved).is_ok());
    assert_eq!(m.owner_of(0), SectorOwner::Mbr);
    assert_eq!(m.owner_of(5), SectorOwner::Reserved);
    assert_eq!(m.owner_of(10), SectorOwner::FreeCluster { cluster: 2 });
    assert_eq!(m.owner_of(13), SectorOwner::Fat);
    assert_eq!(m.owner_of(14), SectorOwner::BootRegion);
    assert_eq!(m.owner_of(20), SectorOwner::FreeCluster { cluster: 3 });
    assert_eq!(m.owner_of(42), SectorOwner::FreeCluster { cluster: 6 });
    assert_eq!(m.owner_of(96), SectorOwner::Reserved);
    assert_eq!(m.owner_of(100), SectorOwner::OutOfRange);
}
