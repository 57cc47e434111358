use passbuddy::storage::flash::{Flash, FlashError, SECTOR_SIZE};
use passbuddy::storage::header::STORAGE_OFFSET;
use passbuddy::storage::layout::{
    expected_region_descriptors, region_capacity, StorageError, StorageLayout,
    DESCRIPTORS_OFFSET, STORAGE_TOTAL_BYTES,
};
use passbuddy::storage::region::{DataRegion, RegionHandle};

const DEVICE_SIZE: u32 = STORAGE_OFFSET + STORAGE_TOTAL_BYTES;

fn formatted_device() -> Flash {
    let mut flash = Flash::new_erased(DEVICE_SIZE);
    StorageLayout::bootstrap_storage_write(&mut flash).unwrap();
    flash
}

fn corrupt(flash: &mut Flash, at: u32) {
    let byte = flash.read(at, 1).unwrap()[0];
    flash.write(at, &[byte ^ 0x01]).unwrap();
}

#[test]
fn expected_layout_is_fixed() {
    let regions = expected_region_descriptors();
    let kinds = [
        DataRegion::ProjectConfig,
        DataRegion::UserConfig,
        DataRegion::KeePassDb,
        DataRegion::Scratch,
    ];
    let offsets = [0x201000, 0x202000, 0x203000, 0x213000];
    let capacities = [4096, 4096, 65536, 4096];
    for i in 0..4 {
        assert_eq!(regions[i].kind, kinds[i]);
        assert_eq!(regions[i].offset, offsets[i]);
        assert_eq!(regions[i].capacity, capacities[i]);
        assert_eq!(regions[i].used_len, 0);
        assert_eq!(region_capacity(kinds[i]), capacities[i]);
    }
    assert_eq!(expected_region_descriptors(), regions);
}

#[test]
fn expected_layout_is_aligned_and_disjoint() {
    let regions = expected_region_descriptors();
    assert!(regions[0].offset >= STORAGE_OFFSET + SECTOR_SIZE);
    for i in 0..4 {
        assert_eq!(regions[i].offset % SECTOR_SIZE, 0);
        assert_eq!(regions[i].capacity % SECTOR_SIZE, 0);
        if i > 0 {
            assert!(regions[i - 1].offset + regions[i - 1].capacity <= regions[i].offset);
        }
    }
    assert_eq!(regions[3].offset + regions[3].capacity, DEVICE_SIZE);
}

#[test]
fn erased_device_has_bad_magic_until_bootstrapped() {
    let mut flash = Flash::new_erased(DEVICE_SIZE);
    assert_eq!(StorageLayout::run_healthcheck(&flash), Err(StorageError::BadMagic));
    assert_eq!(StorageLayout::bootstrap_storage_write(&mut flash), Ok(()));
    assert_eq!(StorageLayout::run_healthcheck(&flash), Ok(()));
}

#[test]
fn small_device_is_refused() {
    let mut flash = Flash::new_erased(DEVICE_SIZE - 1);
    assert_eq!(StorageLayout::run_healthcheck(&flash), Err(StorageError::InvalidLayout));
    assert_eq!(
        StorageLayout::bootstrap_storage_write(&mut flash),
        Err(StorageError::InvalidLayout)
    );
    assert!(flash.as_bytes().iter().all(|b| *b == 0xFF));
}

#[test]
fn bootstrap_writes_the_table() {
    let flash = formatted_device();
    assert_eq!(flash.read(STORAGE_OFFSET, 11).unwrap(), b"PBDYPBDY\x01\x00\x04".to_vec());
    let d = flash.read(DESCRIPTORS_OFFSET + 2 * 20, 20).unwrap();
    assert_eq!(d[0], 2);
    assert_eq!(d[1..5], 0x203000u32.to_le_bytes());
    assert_eq!(d[5..9], 0x10000u32.to_le_bytes());
    // The rest of the metadata sector is erased.
    assert_eq!(flash.read(STORAGE_OFFSET + 91, 1).unwrap(), vec![0xFF]);
}

#[test]
fn corrupt_magic_fails() {
    for at in 0..4 {
        let mut flash = formatted_device();
        corrupt(&mut flash, STORAGE_OFFSET + at);
        assert_eq!(StorageLayout::run_healthcheck(&flash), Err(StorageError::BadMagic));
    }
}

#[test]
fn corrupt_header_magic_fails() {
    let mut flash = formatted_device();
    corrupt(&mut flash, STORAGE_OFFSET + 6);
    assert_eq!(StorageLayout::run_healthcheck(&flash), Err(StorageError::InvalidLayout));
}

#[test]
fn corrupt_version_fails() {
    let mut flash = formatted_device();
    corrupt(&mut flash, STORAGE_OFFSET + 8);
    assert_eq!(
        StorageLayout::run_healthcheck(&flash),
        Err(StorageError::UnsupportedLayout(0))
    );
    let mut flash = formatted_device();
    corrupt(&mut flash, STORAGE_OFFSET + 9);
    assert_eq!(
        StorageLayout::run_healthcheck(&flash),
        Err(StorageError::UnsupportedLayout(0x0101))
    );
}

#[test]
fn corrupt_region_count_fails() {
    let mut flash = formatted_device();
    corrupt(&mut flash, STORAGE_OFFSET + 10);
    assert_eq!(StorageLayout::run_healthcheck(&flash), Err(StorageError::InvalidLayout));
}

#[test]
fn corrupt_descriptor_offset_or_capacity_fails() {
    for region in 0..4u32 {
        for field_byte in 1..9u32 {
            let mut flash = formatted_device();
            corrupt(&mut flash, DESCRIPTORS_OFFSET + 20 * region + field_byte);
            assert_eq!(
                StorageLayout::run_healthcheck(&flash),
                Err(StorageError::InvalidLayout)
            );
        }
    }
}

#[test]
fn unknown_descriptor_kind_fails() {
    let mut flash = formatted_device();
    flash.write(DESCRIPTORS_OFFSET, &[9]).unwrap();
    assert_eq!(StorageLayout::run_healthcheck(&flash), Err(StorageError::InvalidLayout));
    assert_eq!(StorageLayout::new(&flash), Err(StorageError::InvalidLayout));
}

#[test]
fn used_len_is_not_checked() {
    let mut flash = formatted_device();
    corrupt(&mut flash, DESCRIPTORS_OFFSET + 9);
    assert_eq!(StorageLayout::run_healthcheck(&flash), Ok(()));
}

#[test]
fn wipe_erases_the_layout() {
    let mut flash = formatted_device();
    assert_eq!(StorageLayout::wipe_layout(&mut flash), Ok(()));
    assert_eq!(StorageLayout::run_healthcheck(&flash), Err(StorageError::BadMagic));
    let mut tiny = Flash::new_erased(SECTOR_SIZE);
    assert_eq!(StorageLayout::wipe_layout(&mut tiny), Err(StorageError::Io));
}

#[test]
fn layout_is_read_back() {
    let flash = formatted_device();
    let layout = StorageLayout::new(&flash).unwrap();
    assert_eq!(layout.header.magic, *b"PBDY");
    assert_eq!(layout.header.layout_version, 1);
    assert_eq!(layout.header.region_count, 4);
    assert_eq!(layout.regions, expected_region_descriptors());
    assert_eq!(
        layout.region_handle(DataRegion::KeePassDb),
        Ok(RegionHandle { base: 0x203000, capacity: 0x10000 })
    );
    assert_eq!(layout.get_offset_to_region(DataRegion::Scratch), Ok(0x213000));
    assert_eq!(layout.get_offset_to_keepass(), 0x203000);
}

#[test]
fn layout_beyond_device_is_io() {
    let flash = Flash::new_erased(STORAGE_OFFSET + 50);
    assert_eq!(StorageLayout::new(&flash), Err(StorageError::Io));
}

#[test]
fn region_handle_bounds() {
    let h = RegionHandle { base: 100, capacity: 64 };
    assert!(h.contains_range(0, 64));
    assert!(h.contains_range(60, 4));
    assert!(!h.contains_range(60, 5));
    assert!(!h.contains_range(65, 0));
    assert!(!h.contains_range(u32::MAX, 1));
    assert!(!h.contains_range(1, usize::MAX));
    assert_eq!(h.absolute(5), Some(105));
    let top = RegionHandle { base: u32::MAX - 1, capacity: 8 };
    assert_eq!(top.absolute(1), Some(u32::MAX));
    assert_eq!(top.absolute(2), None);
}

#[test]
fn flash_bounds_and_alignment() {
    let mut flash = Flash::new_erased(2 * SECTOR_SIZE);
    assert_eq!(flash.capacity(), 8192);
    assert_eq!(flash.write(8190, &[1, 2]), Ok(()));
    assert_eq!(flash.write(8191, &[1, 2]), Err(FlashError::OutOfBounds));
    assert_eq!(flash.read(8190, 2), Ok(vec![1, 2]));
    assert_eq!(flash.read(8191, 2), Err(FlashError::OutOfBounds));
    assert_eq!(flash.erase(1, SECTOR_SIZE), Err(FlashError::NotAligned));
    assert_eq!(flash.erase(0, 3 * SECTOR_SIZE), Err(FlashError::OutOfBounds));
    assert_eq!(flash.erase(SECTOR_SIZE, 2 * SECTOR_SIZE), Ok(()));
    assert_eq!(flash.read(8190, 2), Ok(vec![0xFF, 0xFF]));
    assert!(Flash::from_bytes(vec![0; 3]).is_some());
}
