use file_access::exfat::bitmap::generate_bitmap;

#[test]
fn bitmap_empty() {
    let bm = generate_bitmap(16, 0);
    assert_eq!(bm.len(), 2);
    assert_eq!(bm[0], 0x00);
}

#[test]
fn bitmap_first_8_clusters() {
    let bm = generate_bitmap(16, 8);
    assert_eq!(bm[0], 0xFF);
    assert_eq!(bm[1], 0x00);
}

#[test]
fn bitmap_partial_byte() {
    let bm = generate_bitmap(16, 3);
    assert_eq!(bm[0], 0x07);
}
