use exfat::directory::entry::LoadEntriesError;
use exfat::fat::{ChainError, LoadError};
use exfat::{ExFat, OpenError};

const SECTOR: usize = 512;

fn bitmap(flags: u8) -> [u8; 32] {
    let mut e = [0u8; 32];
    e[0] = 0x81;
    e[1] = flags;
    e[20..24].copy_from_slice(&3u32.to_le_bytes());
    e[24..32].copy_from_slice(&1u64.to_le_bytes());
    e
}

fn label(text: &str) -> [u8; 32] {
    let mut e = [0u8; 32];
    e[0] = 0x83;
    let mut n = 0;
    for u in text.encode_utf16() {
        e[2 + 2 * n..4 + 2 * n].copy_from_slice(&u.to_le_bytes());
        n += 1;
    }
    e[1] = n as u8;
    e
}

/// A volume of six sectors: the boot sector, the two FAT regions, and a heap
/// of three clusters of one sector, the first of which holds the root.
fn image(fats: u8, flags: u16, root: &[&[u8; 32]]) -> Vec<u8> {
    let mut img = vec![0u8; 6 * SECTOR];
    img[3..11].copy_from_slice(b"EXFAT   ");
    img[80..84].copy_from_slice(&1u32.to_le_bytes());
    img[84..88].copy_from_slice(&1u32.to_le_bytes());
    img[88..92].copy_from_slice(&3u32.to_le_bytes());
    img[92..96].copy_from_slice(&3u32.to_le_bytes());
    img[96..100].copy_from_slice(&2u32.to_le_bytes());
    img[106..108].copy_from_slice(&flags.to_le_bytes());
    img[108] = 9;
    img[109] = 0;
    img[110] = fats;
    img[510] = 0x55;
    img[511] = 0xAA;
    for copy in 0..2 {
        let at = (1 + copy) * SECTOR;
        let entries: [u32; 5] = [0xFFFF_FFF8, 0xFFFF_FFFF, 0xFFFF_FFFF, 0xFFFF_FFFF, 0];
        for (i, e) in entries.iter().enumerate() {
            img[at + 4 * i..at + 4 * i + 4].copy_from_slice(&e.to_le_bytes());
        }
    }
    for (i, e) in root.iter().enumerate() {
        img[3 * SECTOR + 32 * i..3 * SECTOR + 32 * i + 32].copy_from_slice(&e[..]);
    }
    img
}

#[test]
fn mounts_a_minimal_volume_and_gives_its_label() {
    let img = image(1, 0, &[&bitmap(0), &label("TEST")]);
    let volume = ExFat::open(img).unwrap();
    assert_eq!(volume.volume_label(), Some("TEST"));
}

#[test]
fn mounts_a_volume_without_a_label() {
    let volume = ExFat::open(image(1, 0, &[&bitmap(0)])).unwrap();
    assert_eq!(volume.volume_label(), None);
    let volume = ExFat::open(image(1, 0, &[&label(""), &bitmap(0)])).unwrap();
    assert_eq!(volume.volume_label(), None);
}

#[test]
fn volume_without_a_bitmap_is_not_mounted() {
    let r = ExFat::open(image(1, 0, &[&label("TEST")]));
    assert_eq!(r.unwrap_err(), OpenError::NoAllocationBitmap);
    let r = ExFat::open(image(1, 0, &[]));
    assert_eq!(r.unwrap_err(), OpenError::NoAllocationBitmap);
}

#[test]
fn volume_with_two_fats_needs_the_second_bitmap() {
    let r = ExFat::open(image(2, 0, &[&bitmap(0), &label("TEST")]));
    assert_eq!(r.unwrap_err(), OpenError::NoAllocationBitmap);
    let r = ExFat::open(image(2, 1, &[&bitmap(0), &label("TEST")]));
    assert_eq!(r.unwrap_err(), OpenError::NoAllocationBitmap);
    let volume = ExFat::open(image(2, 0, &[&bitmap(0), &bitmap(1), &label("TWO")])).unwrap();
    assert_eq!(volume.volume_label(), Some("TWO"));
    let volume = ExFat::open(image(2, 1, &[&bitmap(1)])).unwrap();
    assert_eq!(volume.volume_label(), None);
}

#[test]
fn volume_with_one_fat_needs_the_first_bitmap() {
    let r = ExFat::open(image(1, 0, &[&bitmap(1), &label("TEST")]));
    assert_eq!(r.unwrap_err(), OpenError::NoAllocationBitmap);
}

#[test]
fn second_fat_cannot_be_active_on_a_volume_with_one() {
    let r = ExFat::open(image(1, 1, &[&bitmap(0), &label("TEST")]));
    assert_eq!(r.unwrap_err(), OpenError::InvalidNumberOfFats);
    let volume = ExFat::open(image(1, 0xFFFE, &[&bitmap(0)])).unwrap();
    assert_eq!(volume.volume_label(), None);
}

#[test]
fn active_fat_is_the_one_that_is_read() {
    let mut img = image(2, 1, &[&bitmap(1), &label("B")]);
    img[SECTOR + 8..SECTOR + 12].copy_from_slice(&0u32.to_le_bytes());
    assert_eq!(ExFat::open(img.clone()).unwrap().volume_label(), Some("B"));
    img[106] = 0;
    assert_eq!(
        ExFat::open(img).unwrap_err(),
        OpenError::ReadRootFailed(LoadEntriesError::InvalidChain(ChainError::FreeCluster(2)))
    );
}

#[test]
fn image_shorter_than_a_boot_sector_is_rejected() {
    assert_eq!(ExFat::open(Vec::new()).unwrap_err(), OpenError::ReadMainBootFailed);
    let img = image(1, 0, &[&bitmap(0)]);
    assert_eq!(ExFat::open(img[..511].to_vec()).unwrap_err(), OpenError::ReadMainBootFailed);
}

#[test]
fn geometry_errors_come_from_the_boot_sector() {
    let mut img = image(1, 0, &[&bitmap(0)]);
    img[11] = 1;
    assert_eq!(ExFat::open(img).unwrap_err(), OpenError::NotExFat);
    let mut img = image(1, 0, &[&bitmap(0)]);
    img[108] = 13;
    assert_eq!(ExFat::open(img).unwrap_err(), OpenError::InvalidBytesPerSectorShift);
    let mut img = image(1, 0, &[&bitmap(0)]);
    img[109] = 17;
    assert_eq!(ExFat::open(img).unwrap_err(), OpenError::InvalidSectorsPerClusterShift);
    let img = image(3, 0, &[&bitmap(0)]);
    assert_eq!(ExFat::open(img).unwrap_err(), OpenError::InvalidNumberOfFats);
}

#[test]
fn fat_outside_the_image_is_reported() {
    let img = image(1, 0, &[&bitmap(0)]);
    assert_eq!(
        ExFat::open(img[..SECTOR + 100].to_vec()).unwrap_err(),
        OpenError::ReadFatRegionFailed(LoadError::ReadFailed(0))
    );
    let mut img = image(2, 1, &[&bitmap(1)]);
    img[84..88].copy_from_slice(&3u32.to_le_bytes());
    assert_eq!(
        ExFat::open(img).unwrap_err(),
        OpenError::ReadFatRegionFailed(LoadError::ReadFailed(1))
    );
}

#[test]
fn fat_too_short_for_the_heap_is_reported() {
    let mut img = image(1, 0, &[&bitmap(0)]);
    img[92..96].copy_from_slice(&127u32.to_le_bytes());
    assert_eq!(
        ExFat::open(img).unwrap_err(),
        OpenError::ReadFatRegionFailed(LoadError::TooShort)
    );
}

#[test]
fn root_errors_are_reported() {
    let mut img = image(1, 0, &[&bitmap(0)]);
    img[96..100].copy_from_slice(&1u32.to_le_bytes());
    assert_eq!(
        ExFat::open(img).unwrap_err(),
        OpenError::ReadRootFailed(LoadEntriesError::InvalidChain(ChainError::InvalidStart(1)))
    );
    let img = image(1, 0, &[&bitmap(0)]);
    assert_eq!(
        ExFat::open(img[..4 * SECTOR - 1].to_vec()).unwrap_err(),
        OpenError::ReadRootFailed(LoadEntriesError::ReadClusterFailed(2))
    );
    let mut file = [0u8; 32];
    file[0] = 0x85;
    file[2] = 0x86;
    let img = image(1, 0, &[&bitmap(0), &label("TEST"), &file]);
    assert_eq!(
        ExFat::open(img).unwrap_err(),
        OpenError::ReadRootFailed(LoadEntriesError::ChecksumMismatch(2))
    );
}
