use passbuddy::keepass::{Group, KDBError};
use passbuddy::storage::flash::Flash;
use passbuddy::storage::header::STORAGE_OFFSET;
use passbuddy::storage::layout::{StorageError, StorageLayout, STORAGE_TOTAL_BYTES};
use passbuddy::storage::region::RegionHandle;
use passbuddy::storage::startup::{open_store, StartupError};

const DEVICE_SIZE: u32 = STORAGE_OFFSET + STORAGE_TOTAL_BYTES;

#[test]
fn first_boot_formats_and_creates_the_store() {
    let mut flash = Flash::new_erased(DEVICE_SIZE);
    let db = open_store(&mut flash).unwrap();
    assert_eq!(db.storage, RegionHandle { base: 0x203000, capacity: 0x10000 });
    assert_eq!(db.header.num_groups, 0);
    assert_eq!(db.header.num_entries, 0);
    assert_eq!(StorageLayout::run_healthcheck(&flash), Ok(()));
}

#[test]
fn later_boot_keeps_what_is_stored() {
    let mut flash = Flash::new_erased(DEVICE_SIZE);
    let mut db = open_store(&mut flash).unwrap();
    db.create_group(Group::random(), &mut flash).unwrap();
    let image = flash.as_bytes().to_vec();
    let again = open_store(&mut flash).unwrap();
    assert_eq!(again.header.num_groups, 1);
    assert_eq!(flash.as_bytes(), &image[..]);
}

#[test]
fn boot_on_too_small_device_fails() {
    let mut flash = Flash::new_erased(DEVICE_SIZE - 4096);
    assert_eq!(
        open_store(&mut flash).map(|_| ()),
        Err(StartupError::Layout(StorageError::InvalidLayout))
    );
}

#[test]
fn boot_with_corrupt_store_header_fails() {
    let mut flash = Flash::new_erased(DEVICE_SIZE);
    let db = open_store(&mut flash).unwrap();
    flash.write(db.storage.base + 8 + 40, &9u32.to_le_bytes()).unwrap();
    assert_eq!(
        open_store(&mut flash).map(|_| ()),
        Err(StartupError::Store(KDBError::DatabaseIntegrityError))
    );
}
