use exfat::cluster::read_cluster;
use exfat::directory::entry::{
    entry_set_checksum, read_stream, ClusterAllocation, EntrySet, EntryType, LoadEntriesError,
    UpcaseTable, ALLOCATION_BITMAP, UPCASE_TABLE, VOLUME_LABEL,
};
use exfat::fat::{ChainError, Fat, END_OF_CHAIN};
use exfat::image::read_at;
use exfat::param::{Params, VolumeFlags};

fn reference_checksum(set: &[u8]) -> u16 {
    let mut sum: u16 = 0;
    for (i, b) in set.iter().enumerate() {
        if i == 2 || i == 3 {
            continue;
        }
        sum = sum.rotate_right(1).wrapping_add(*b as u16);
    }
    sum
}

fn bitmap(flags: u8, first_cluster: u32, length: u64) -> [u8; 32] {
    let mut e = [0u8; 32];
    e[0] = 0x81;
    e[1] = flags;
    e[20..24].copy_from_slice(&first_cluster.to_le_bytes());
    e[24..32].copy_from_slice(&length.to_le_bytes());
    e
}

fn upcase(checksum: u32, first_cluster: u32, length: u64) -> [u8; 32] {
    let mut e = [0u8; 32];
    e[0] = 0x82;
    e[4..8].copy_from_slice(&checksum.to_le_bytes());
    e[20..24].copy_from_slice(&first_cluster.to_le_bytes());
    e[24..32].copy_from_slice(&length.to_le_bytes());
    e
}

fn label_units(units: &[u16]) -> [u8; 32] {
    let mut e = [0u8; 32];
    e[0] = 0x83;
    e[1] = units.len() as u8;
    for (i, u) in units.iter().enumerate() {
        e[2 + 2 * i..4 + 2 * i].copy_from_slice(&u.to_le_bytes());
    }
    e
}

fn label(text: &str) -> [u8; 32] {
    let units: Vec<u16> = text.encode_utf16().collect();
    label_units(&units)
}

fn file_set(secondaries: u8) -> Vec<u8> {
    let mut set = vec![0u8; 32 * (secondaries as usize + 1)];
    set[0] = 0x85;
    set[1] = secondaries;
    set[4] = 0x20;
    for k in 1..=secondaries as usize {
        set[32 * k] = if k == 1 { 0xC0 } else { 0xC1 };
        set[32 * k + 2] = b'a' + k as u8;
    }
    let sum = reference_checksum(&set);
    set[2..4].copy_from_slice(&sum.to_le_bytes());
    set
}

fn stream(parts: &[&[u8]]) -> Vec<u8> {
    let mut s = Vec::new();
    for p in parts {
        s.extend_from_slice(p);
    }
    s
}

fn geometry(cluster_count: usize) -> Params {
    Params {
        fat_offset: 1,
        fat_length: 1,
        cluster_heap_offset: 2,
        cluster_count,
        first_cluster_of_root_directory: 2,
        volume_flags: VolumeFlags(0),
        bytes_per_sector: 512,
        sectors_per_cluster: 1,
        number_of_fats: 1,
    }
}

fn table(entries: &[u32]) -> Fat {
    let mut bytes = Vec::new();
    for e in entries {
        bytes.extend_from_slice(&e.to_le_bytes());
    }
    Fat::decode(&bytes, entries.len() - 2).unwrap()
}

#[test]
fn checksum_of_known_sets() {
    let mut prim = [0u8; 32];
    prim[0] = 0x85;
    prim[1] = 2;
    prim[4] = 0x20;
    let mut s1 = [0u8; 32];
    s1[0] = 0xC0;
    s1[1] = 1;
    s1[3] = 1;
    s1[20] = 4;
    let mut s2 = [0u8; 32];
    s2[0] = 0xC1;
    s2[2] = b'a';
    assert_eq!(entry_set_checksum(&stream(&[&prim, &s1, &s2])), 0x0EE6);
    let mut one = [0u8; 32];
    one[0] = 0xA0;
    assert_eq!(entry_set_checksum(&one), 0x0500);
    let counting: Vec<u8> = (1u8..=32).collect();
    assert_eq!(entry_set_checksum(&counting), 0x0003);
}

#[test]
fn checksum_of_short_inputs() {
    assert_eq!(entry_set_checksum(&[]), 0);
    assert_eq!(entry_set_checksum(&[0x85]), 0x85);
    assert_eq!(entry_set_checksum(&[0x01, 0x00]), 0x8000);
    assert_eq!(entry_set_checksum(&[0x01, 0x00, 0xFF, 0xFF]), 0x8000);
    assert_eq!(entry_set_checksum(&[0x01, 0x00, 0xFF, 0xFF, 0x02]), 0x4002);
}

#[test]
fn checksum_skips_its_own_bytes() {
    let mut set = file_set(3);
    let sum = entry_set_checksum(&set);
    set[2] = 0x12;
    set[3] = 0x34;
    assert_eq!(entry_set_checksum(&set), sum);
    set[4] ^= 1;
    assert_ne!(entry_set_checksum(&set), sum);
}

#[test]
fn checksum_agrees_with_rotation() {
    for n in [1u8, 2, 5, 18] {
        let set = file_set(n);
        assert_eq!(entry_set_checksum(&set), reference_checksum(&set));
    }
}

#[test]
fn empty_stream_holds_nothing() {
    let set = EntrySet::parse(&[]).unwrap();
    assert_eq!(set.volume_label, None);
    assert_eq!(set.allocation_bitmaps, [None, None]);
    assert_eq!(set.upcase_table, None);
}

#[test]
fn parses_label_bitmap_and_upcase_table() {
    let s = stream(&[
        &bitmap(0, 2, 64),
        &upcase(0xE619_D30D, 3, 5836),
        &label("TEST"),
        &[0u8; 32],
    ]);
    let set = EntrySet::parse(&s).unwrap();
    assert_eq!(set.volume_label.as_deref(), Some("TEST"));
    assert_eq!(
        set.allocation_bitmaps,
        [Some(ClusterAllocation { first_cluster: 2, data_length: 64 }), None]
    );
    assert_eq!(
        set.upcase_table,
        Some(UpcaseTable {
            checksum: 0xE619_D30D,
            allocation: ClusterAllocation { first_cluster: 3, data_length: 5836 },
        })
    );
}

#[test]
fn bitmap_flag_selects_the_slot() {
    let s = stream(&[&bitmap(1, 9, 0x1_0000_0001), &[0u8; 32]]);
    let set = EntrySet::parse(&s).unwrap();
    assert_eq!(
        set.allocation_bitmaps,
        [None, Some(ClusterAllocation { first_cluster: 9, data_length: 0x1_0000_0001 })]
    );
    let s = stream(&[&bitmap(0xFE, 7, 1), &bitmap(0xFF, 8, 2)]);
    let set = EntrySet::parse(&s).unwrap();
    assert_eq!(
        set.allocation_bitmaps,
        [
            Some(ClusterAllocation { first_cluster: 7, data_length: 1 }),
            Some(ClusterAllocation { first_cluster: 8, data_length: 2 }),
        ]
    );
}

#[test]
fn later_entry_replaces_earlier() {
    let s = stream(&[&bitmap(0, 7, 1), &label("ONE"), &bitmap(0, 8, 2), &label("TWO")]);
    let set = EntrySet::parse(&s).unwrap();
    assert_eq!(
        set.allocation_bitmaps,
        [Some(ClusterAllocation { first_cluster: 8, data_length: 2 }), None]
    );
    assert_eq!(set.volume_label.as_deref(), Some("TWO"));
}

#[test]
fn listing_stops_at_the_end_marker() {
    let s = stream(&[&label("SEEN"), &[0u8; 32], &bitmap(0, 2, 1), &[0xC0; 32]]);
    let set = EntrySet::parse(&s).unwrap();
    assert_eq!(set.volume_label.as_deref(), Some("SEEN"));
    assert_eq!(set.allocation_bitmaps, [None, None]);
}

#[test]
fn end_marker_needs_only_a_zero_type() {
    let mut end = [0xFFu8; 32];
    end[0] = 0;
    let s = stream(&[&end, &label("LATE")]);
    assert_eq!(EntrySet::parse(&s).unwrap().volume_label, None);
}

#[test]
fn unused_entries_are_passed_over() {
    let mut deleted_file = [0x55u8; 32];
    deleted_file[0] = 0x05;
    let mut deleted_name = [0u8; 32];
    deleted_name[0] = 0x41;
    let mut deleted_label = label("OLD");
    deleted_label[0] = 0x03;
    let s = stream(&[&deleted_file, &deleted_name, &deleted_label, &bitmap(0, 2, 1), &[0x7F; 32]]);
    let set = EntrySet::parse(&s).unwrap();
    assert_eq!(set.volume_label, None);
    assert_eq!(
        set.allocation_bitmaps,
        [Some(ClusterAllocation { first_cluster: 2, data_length: 1 }), None]
    );
}

#[test]
fn trailing_bytes_short_of_an_entry_are_ignored() {
    let mut s = stream(&[&label("A")]);
    s.extend_from_slice(&[0x83; 31]);
    assert_eq!(EntrySet::parse(&s).unwrap().volume_label.as_deref(), Some("A"));
}

#[test]
fn empty_label_is_no_label() {
    let s = stream(&[&label("GONE"), &label("")]);
    assert_eq!(EntrySet::parse(&s).unwrap().volume_label, None);
    let mut e = label("");
    e[2] = 0x41;
    assert_eq!(EntrySet::parse(&e).unwrap().volume_label, None);
}

#[test]
fn label_takes_only_the_declared_units() {
    let mut e = label("ABCDEFGHIJK");
    e[1] = 3;
    assert_eq!(EntrySet::parse(&e).unwrap().volume_label.as_deref(), Some("ABC"));
}

#[test]
fn label_of_eleven_units_is_accepted() {
    let e = label("ABCDEFGHIJK");
    assert_eq!(e[1], 11);
    assert_eq!(EntrySet::parse(&e).unwrap().volume_label.as_deref(), Some("ABCDEFGHIJK"));
}

#[test]
fn label_longer_than_eleven_units_is_rejected() {
    let mut e = label("ABCDEFGHIJK");
    e[1] = 12;
    let s = stream(&[&bitmap(0, 2, 1), &e]);
    assert_eq!(EntrySet::parse(&s).unwrap_err(), LoadEntriesError::InvalidVolumeLabel(1));
    e[1] = 255;
    assert_eq!(EntrySet::parse(&e).unwrap_err(), LoadEntriesError::InvalidVolumeLabel(0));
}

#[test]
fn label_outside_the_basic_plane() {
    let e = label("a\u{1F600}\u{E9}\u{FFFF}");
    assert_eq!(e[1], 5);
    assert_eq!(
        EntrySet::parse(&e).unwrap().volume_label.as_deref(),
        Some("a\u{1F600}\u{E9}\u{FFFF}")
    );
    let e = label_units(&[0xD800, 0xDC00, 0xDBFF, 0xDFFF]);
    assert_eq!(
        EntrySet::parse(&e).unwrap().volume_label.as_deref(),
        Some("\u{10000}\u{10FFFF}")
    );
}

#[test]
fn label_with_a_lone_surrogate_is_rejected() {
    for units in [
        vec![0xD800u16],
        vec![0xDC00],
        vec![0x41, 0xDBFF],
        vec![0xD800, 0x41],
        vec![0xDC00, 0xD800],
        vec![0xD800, 0xD800, 0xDC00],
    ] {
        let e = label_units(&units);
        assert_eq!(EntrySet::parse(&e).unwrap_err(), LoadEntriesError::InvalidVolumeLabel(0));
    }
}

#[test]
fn entry_set_with_matching_checksum_is_accepted() {
    let s = stream(&[&file_set(2), &label("AFTER"), &file_set(18), &bitmap(1, 4, 4)]);
    let set = EntrySet::parse(&s).unwrap();
    assert_eq!(set.volume_label.as_deref(), Some("AFTER"));
    assert_eq!(
        set.allocation_bitmaps,
        [None, Some(ClusterAllocation { first_cluster: 4, data_length: 4 })]
    );
}

#[test]
fn primary_without_secondaries_has_a_checksum() {
    let mut guid = [0u8; 32];
    guid[0] = 0xA0;
    guid[6] = 0x77;
    let sum = reference_checksum(&guid);
    guid[2..4].copy_from_slice(&sum.to_le_bytes());
    assert!(EntrySet::parse(&guid).is_ok());
    guid[6] = 0x78;
    assert_eq!(EntrySet::parse(&guid).unwrap_err(), LoadEntriesError::ChecksumMismatch(0));
}

#[test]
fn corrupted_checksum_byte_is_rejected() {
    for which in [2usize, 3] {
        let mut set = file_set(2);
        set[which] ^= 0x01;
        let s = stream(&[&bitmap(0, 2, 1), &label("TEST"), &set, &[0u8; 32]]);
        assert_eq!(EntrySet::parse(&s).unwrap_err(), LoadEntriesError::ChecksumMismatch(2));
    }
}

#[test]
fn corrupted_set_content_is_rejected() {
    let good = file_set(3);
    for at in [0usize, 1, 4, 31, 33, 64, 127] {
        let mut set = good.clone();
        set[at] ^= 0x04;
        let r = EntrySet::parse(&stream(&[&set, &[0u8; 32]]));
        assert!(r.is_err(), "byte {} changed", at);
    }
    let mut set = good.clone();
    set[40] ^= 0x80;
    assert_eq!(
        EntrySet::parse(&set).unwrap_err(),
        LoadEntriesError::ChecksumMismatch(0)
    );
}

#[test]
fn entry_set_cut_short_is_rejected() {
    let set = file_set(3);
    let s = stream(&[&label("X"), &set[..96]]);
    assert_eq!(EntrySet::parse(&s).unwrap_err(), LoadEntriesError::MalformedEntrySet(1));
    let s = stream(&[&set[..127]]);
    assert_eq!(EntrySet::parse(&s).unwrap_err(), LoadEntriesError::MalformedEntrySet(0));
}

#[test]
fn entry_set_with_a_wrong_secondary_is_rejected() {
    let mut set = file_set(2);
    set[64] = 0x83;
    assert_eq!(EntrySet::parse(&set).unwrap_err(), LoadEntriesError::MalformedEntrySet(0));
    let mut set = file_set(2);
    set[32] = 0x40;
    assert_eq!(EntrySet::parse(&set).unwrap_err(), LoadEntriesError::MalformedEntrySet(0));
    let mut set = file_set(2);
    set[64] = 0x00;
    assert_eq!(EntrySet::parse(&set).unwrap_err(), LoadEntriesError::MalformedEntrySet(0));
}

#[test]
fn secondary_without_a_primary_is_rejected() {
    let mut e = [0u8; 32];
    e[0] = 0xC0;
    let s = stream(&[&bitmap(0, 2, 1), &e]);
    assert_eq!(EntrySet::parse(&s).unwrap_err(), LoadEntriesError::MalformedEntrySet(1));
    e[0] = 0xE1;
    assert_eq!(EntrySet::parse(&e).unwrap_err(), LoadEntriesError::MalformedEntrySet(0));
}

#[test]
fn read_at_takes_ranges_inside_the_image() {
    let image: Vec<u8> = (0u8..10).collect();
    assert_eq!(read_at(&image, 0, 10), Some(&image[..]));
    assert_eq!(read_at(&image, 3, 4), Some(&[3u8, 4, 5, 6][..]));
    assert_eq!(read_at(&image, 10, 0), Some(&[][..]));
    assert_eq!(read_at(&image, 0, 11), None);
    assert_eq!(read_at(&image, 10, 1), None);
    assert_eq!(read_at(&image, 11, 0), None);
    assert_eq!(read_at(&image, u64::MAX, 1), None);
    assert_eq!(read_at(&image, 1, u64::MAX), None);
}

#[test]
fn read_cluster_addresses_the_heap() {
    let params = geometry(3);
    let mut image = vec![0u8; 5 * 512];
    for (i, b) in image.iter_mut().enumerate() {
        *b = (i / 512) as u8;
    }
    assert_eq!(read_cluster(&params, &image, 2), Some(&[2u8; 512][..]));
    assert_eq!(read_cluster(&params, &image, 4), Some(&[4u8; 512][..]));
    assert_eq!(read_cluster(&params, &image[..5 * 512 - 1], 4), None);
}

#[test]
fn read_stream_joins_clusters_in_chain_order() {
    let params = geometry(3);
    let mut image = vec![0u8; 5 * 512];
    for (i, b) in image.iter_mut().enumerate() {
        *b = (i / 512) as u8;
    }
    let s = read_stream(&params, &image, &[4, 2]).unwrap();
    assert_eq!(s.len(), 1024);
    assert_eq!(&s[..512], &[4u8; 512][..]);
    assert_eq!(&s[512..], &[2u8; 512][..]);
    assert_eq!(read_stream(&params, &image, &[]).unwrap(), Vec::<u8>::new());
    assert_eq!(
        read_stream(&params, &image[..4 * 512], &[2, 4, 3]).unwrap_err(),
        LoadEntriesError::ReadClusterFailed(4)
    );
}

#[test]
fn load_reads_a_directory_across_clusters() {
    let params = geometry(3);
    let fat = table(&[0xFFFF_FFF8, 0xFFFF_FFFF, 4, 0, END_OF_CHAIN]);
    let mut image = vec![0u8; 5 * 512];
    let first = 2 * 512;
    for slot in 0..15 {
        image[first + 32 * slot] = 0x05;
    }
    let set = file_set(2);
    image[first + 480..first + 512].copy_from_slice(&set[..32]);
    let second = 4 * 512;
    image[second..second + 64].copy_from_slice(&set[32..]);
    image[second + 64..second + 96].copy_from_slice(&label("SPAN"));
    image[3 * 512] = 0xC0;
    let root = EntrySet::load(&params, &fat, &image, 2).unwrap();
    assert_eq!(root.volume_label.as_deref(), Some("SPAN"));
    image[second + 40] ^= 1;
    assert_eq!(
        EntrySet::load(&params, &fat, &image, 2).unwrap_err(),
        LoadEntriesError::ChecksumMismatch(15)
    );
}

#[test]
fn load_reports_a_corrupt_chain() {
    let params = geometry(3);
    let image = vec![0u8; 5 * 512];
    let fat = table(&[0, 0, 3, 0, END_OF_CHAIN]);
    assert_eq!(
        EntrySet::load(&params, &fat, &image, 2).unwrap_err(),
        LoadEntriesError::InvalidChain(ChainError::FreeCluster(3))
    );
    assert_eq!(
        EntrySet::load(&params, &fat, &image, 9).unwrap_err(),
        LoadEntriesError::InvalidChain(ChainError::InvalidStart(9))
    );
    let fat = table(&[0, 0, 3, 2, END_OF_CHAIN]);
    assert_eq!(
        EntrySet::load(&params, &fat, &image, 2).unwrap_err(),
        LoadEntriesError::InvalidChain(ChainError::Cycle)
    );
}

#[test]
fn load_reports_a_cluster_outside_the_image() {
    let params = geometry(3);
    let fat = table(&[0, 0, 4, 0, END_OF_CHAIN]);
    let image = vec![0u8; 4 * 512];
    assert_eq!(
        EntrySet::load(&params, &fat, &image, 2).unwrap_err(),
        LoadEntriesError::ReadClusterFailed(4)
    );
}

#[test]
fn entry_type_fields() {
    let file = EntryType(0x85);
    assert!(file.is_in_use());
    assert!(!file.is_secondary());
    assert!(!file.is_benign());
    assert_eq!(file.code(), 5);
    let name = EntryType(0xC1);
    assert!(name.is_in_use());
    assert!(name.is_secondary());
    assert!(!name.is_benign());
    assert_eq!(name.code(), 1);
    let guid = EntryType(0xA0);
    assert!(guid.is_in_use());
    assert!(!guid.is_secondary());
    assert!(guid.is_benign());
    assert_eq!(guid.code(), 0);
    let deleted = EntryType(0x7F);
    assert!(!deleted.is_in_use());
    assert!(deleted.is_secondary());
    assert!(deleted.is_benign());
    assert_eq!(deleted.code(), 31);
    let end = EntryType(0);
    assert!(!end.is_in_use());
    assert!(!end.is_secondary());
    assert!(!end.is_benign());
    assert_eq!(end.code(), 0);
}

#[test]
fn recognized_entries_are_critical_primaries() {
    for (ty, code) in [(ALLOCATION_BITMAP, 1u8), (UPCASE_TABLE, 2), (VOLUME_LABEL, 3)] {
        let ty = EntryType(ty);
        assert!(ty.is_in_use());
        assert!(!ty.is_secondary());
        assert!(!ty.is_benign());
        assert_eq!(ty.code(), code);
    }
}
