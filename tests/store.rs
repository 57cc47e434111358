use passbuddy::codec::{decode_text, encode_text};
use passbuddy::keepass::db::MAX_ENTRIES;
use passbuddy::keepass::{Entry, Group, KDBError, KeePassDb};
use passbuddy::storage::flash::Flash;
use passbuddy::storage::header::STORAGE_OFFSET;
use passbuddy::storage::keepass::{
    checked_absolute, descriptor_offset, entries_offset_rel, groups_offset_rel,
};
use passbuddy::storage::layout::{StorageLayout, STORAGE_TOTAL_BYTES};
use passbuddy::storage::region::{DataRegion, RegionDescriptor, RegionHandle};

fn keepass_region(flash: &Flash) -> RegionHandle {
    StorageLayout::new(flash).unwrap().region_handle(DataRegion::KeePassDb).unwrap()
}

fn bootstrapped() -> (Flash, RegionHandle) {
    let mut flash = Flash::new_erased(STORAGE_OFFSET + STORAGE_TOTAL_BYTES);
    StorageLayout::bootstrap_storage_write(&mut flash).unwrap();
    let region = keepass_region(&flash);
    (flash, region)
}

fn empty_store() -> (Flash, KeePassDb) {
    let (mut flash, region) = bootstrapped();
    KeePassDb::initialize_db(&mut flash, region).unwrap();
    let db = KeePassDb::new(&flash, region).unwrap();
    (flash, db)
}

fn numbered_entry(i: u32) -> Entry {
    let mut e = Entry::default_with_group_id(1);
    e.uuid = (i as u128).to_le_bytes();
    e.title = encode_text(&format!("site-{}", i));
    e
}

fn slot_bytes(flash: &Flash, region: RegionHandle, slot: u32) -> Vec<u8> {
    flash
        .read(region.base + entries_offset_rel() + slot * 372, 372)
        .unwrap()
}

#[test]
fn store_offsets() {
    assert_eq!(groups_offset_rel(), 124);
    assert_eq!(entries_offset_rel(), 524);
    assert_eq!(descriptor_offset(DataRegion::KeePassDb), STORAGE_OFFSET + 11 + 40);
    let region = RegionHandle { base: 10, capacity: 100 };
    assert_eq!(checked_absolute(region, 96, 4), Ok(106));
    assert_eq!(checked_absolute(region, 97, 4), Err(KDBError::DatabaseIntegrityError));
}

#[test]
fn untouched_region_holds_no_store_until_initialized() {
    let (mut flash, region) = bootstrapped();
    assert_eq!(KeePassDb::check_if_exists(&flash, region), Ok(false));
    assert!(matches!(
        KeePassDb::new(&flash, region),
        Err(KDBError::DatabaseIntegrityError)
    ));
    assert_eq!(KeePassDb::initialize_db(&mut flash, region), Ok(()));
    assert_eq!(KeePassDb::check_if_exists(&flash, region), Ok(true));
    let db = KeePassDb::new(&flash, region).unwrap();
    assert_eq!(db.header.num_groups, 0);
    assert_eq!(db.header.num_entries, 0);
    assert_eq!(db.signature1, 0x9AA2D903);
    assert_eq!(db.signature2, 0xB54BFB65);
    assert!(db.groups.iter().all(|g| g.is_none()));
    assert!(db.entries.iter().all(|e| e.is_none()));
}

#[test]
fn signatures_are_stored_little_endian() {
    let (flash, db) = empty_store();
    let head = flash.read(db.storage.base, 8).unwrap();
    assert_eq!(head, vec![0x03, 0xD9, 0xA2, 0x9A, 0x65, 0xFB, 0x4B, 0xB5]);
}

#[test]
fn one_wrong_signature_means_no_store() {
    let (mut flash, db) = empty_store();
    flash.write(db.storage.base + 5, &[0]).unwrap();
    assert_eq!(KeePassDb::check_if_exists(&flash, db.storage), Ok(false));
    assert!(KeePassDb::new(&flash, db.storage).is_err());
}

#[test]
fn regions_outside_the_device_are_refused() {
    let mut flash = Flash::new_erased(64);
    let region = RegionHandle { base: 62, capacity: 4096 };
    assert_eq!(
        KeePassDb::check_if_exists(&flash, region),
        Err(KDBError::DatabaseIntegrityError)
    );
    // The first signature still lies on the device: it reads as erased.
    let edge = RegionHandle { base: 60, capacity: 4096 };
    assert_eq!(KeePassDb::check_if_exists(&flash, edge), Ok(false));
    assert_eq!(
        KeePassDb::initialize_db(&mut flash, region),
        Err(KDBError::DatabaseIntegrityError)
    );
    assert!(flash.as_bytes().iter().all(|b| *b == 0xFF));
    let small = RegionHandle { base: 0, capacity: 100 };
    assert_eq!(
        KeePassDb::initialize_db(&mut flash, small),
        Err(KDBError::DatabaseIntegrityError)
    );
}

#[test]
fn oversized_counts_are_refused() {
    let (mut flash, db) = empty_store();
    // num_entries sits at header offset 44, the header at region offset 8.
    flash.write(db.storage.base + 8 + 44, &129u32.to_le_bytes()).unwrap();
    assert!(matches!(
        KeePassDb::new(&flash, db.storage),
        Err(KDBError::DatabaseIntegrityError)
    ));
    flash.write(db.storage.base + 8 + 44, &0u32.to_le_bytes()).unwrap();
    flash.write(db.storage.base + 8 + 40, &5u32.to_le_bytes()).unwrap();
    assert!(KeePassDb::new(&flash, db.storage).is_err());
}

#[test]
fn create_group_then_reload() {
    let (mut flash, mut db) = empty_store();
    let group = Group::random();
    assert_eq!(group.group_id, 1);
    assert_eq!(db.create_group(group, &mut flash), Ok(()));
    assert_eq!(db.header.num_groups, 1);
    let reloaded = KeePassDb::new(&flash, db.storage).unwrap();
    assert_eq!(reloaded.header.num_groups, 1);
    let g = reloaded.groups[0].unwrap();
    assert_eq!(decode_text(&g.name), "Private");
    assert_eq!(g.group_id, 1);
    assert!(reloaded.groups[1].is_none());
}

#[test]
fn group_table_fills_up() {
    let (mut flash, mut db) = empty_store();
    for i in 0..4 {
        let mut g = Group::random();
        g.group_id = i + 1;
        assert_eq!(db.create_group(g, &mut flash), Ok(()));
    }
    assert_eq!(
        db.create_group(Group::random(), &mut flash),
        Err(KDBError::DatabaseIntegrityError)
    );
    assert_eq!(db.header.num_groups, 4);
    let reloaded = KeePassDb::new(&flash, db.storage).unwrap();
    assert_eq!(reloaded.groups[3].unwrap().group_id, 4);
}

#[test]
fn create_raises_used_len() {
    let (mut flash, mut db) = empty_store();
    db.create_entry(numbered_entry(0), &mut flash).unwrap();
    let bytes = flash.read(descriptor_offset(DataRegion::KeePassDb), 20).unwrap();
    let mut arr = [0u8; 20];
    arr.copy_from_slice(&bytes);
    let d = RegionDescriptor::new_from_bytes(&arr).unwrap();
    assert_eq!(d.used_len, 524 + 372);
    assert_eq!(d.offset, 0x203000);
}

#[test]
fn append_entries_then_reload() {
    let (mut flash, mut db) = empty_store();
    for i in 0..5 {
        assert_eq!(db.create_entry(numbered_entry(i), &mut flash), Ok(()));
        assert_eq!(db.header.num_entries, i + 1);
    }
    let reloaded = KeePassDb::new(&flash, db.storage).unwrap();
    assert_eq!(reloaded.header.num_entries, 5);
    for i in 0..5u32 {
        let e = reloaded.entries[i as usize].unwrap();
        assert_eq!(e.to_bytes(), numbered_entry(i).to_bytes());
        assert_eq!(slot_bytes(&flash, db.storage, i), numbered_entry(i).to_bytes().to_vec());
    }
    assert!(reloaded.entries[5].is_none());
}

#[test]
fn entry_table_full_at_capacity() {
    let (mut flash, mut db) = empty_store();
    for i in 0..128u32 {
        assert_eq!(db.create_entry(numbered_entry(i), &mut flash), Ok(()));
    }
    assert_eq!(db.header.num_entries as usize, MAX_ENTRIES);
    let before = flash.as_bytes().to_vec();
    assert_eq!(
        db.create_entry(numbered_entry(999), &mut flash),
        Err(KDBError::DatabaseIntegrityError)
    );
    assert_eq!(db.header.num_entries, 128);
    assert_eq!(flash.as_bytes(), &before[..]);
    let reloaded = KeePassDb::new(&flash, db.storage).unwrap();
    assert_eq!(reloaded.header.num_entries, 128);
    assert_eq!(
        reloaded.entries[127].unwrap().to_bytes(),
        numbered_entry(127).to_bytes()
    );
}

#[test]
fn update_changes_only_its_slot() {
    let (mut flash, mut db) = empty_store();
    for i in 0..6 {
        db.create_entry(numbered_entry(i), &mut flash).unwrap();
    }
    let before: Vec<Vec<u8>> = (0..6).map(|i| slot_bytes(&flash, db.storage, i)).collect();
    let image_before = flash.as_bytes().to_vec();
    let mut changed = numbered_entry(2);
    changed.username = encode_text("bob");
    assert_eq!(db.update_entry(2, changed, &mut flash), Ok(()));
    let reloaded = KeePassDb::new(&flash, db.storage).unwrap();
    assert_eq!(decode_text(&reloaded.entries[2].unwrap().username), "bob");
    for i in [0u32, 1, 3, 4, 5] {
        assert_eq!(slot_bytes(&flash, db.storage, i), before[i as usize]);
    }
    let slot_start = (db.storage.base + 524 + 2 * 372) as usize;
    for (k, (a, b)) in image_before.iter().zip(flash.as_bytes()).enumerate() {
        if k < slot_start || k >= slot_start + 372 {
            assert_eq!(a, b);
        }
    }
}

#[test]
fn update_outside_the_table_is_refused() {
    let (mut flash, mut db) = empty_store();
    db.create_entry(numbered_entry(0), &mut flash).unwrap();
    let image = flash.as_bytes().to_vec();
    assert_eq!(
        db.update_entry(1, numbered_entry(1), &mut flash),
        Err(KDBError::DatabaseIntegrityError)
    );
    assert_eq!(
        db.update_entry(500, numbered_entry(1), &mut flash),
        Err(KDBError::DatabaseIntegrityError)
    );
    assert_eq!(flash.as_bytes(), &image[..]);
}

#[test]
fn delete_compacts_the_table() {
    let (mut flash, mut db) = empty_store();
    for i in 0..5 {
        db.create_entry(numbered_entry(i), &mut flash).unwrap();
    }
    assert_eq!(db.delete_entry(1, &mut flash), Ok(()));
    assert_eq!(db.header.num_entries, 4);
    let expected = [0u32, 2, 3, 4];
    for (slot, id) in expected.iter().enumerate() {
        assert_eq!(db.entries[slot].unwrap().to_bytes(), numbered_entry(*id).to_bytes());
    }
    assert!(db.entries[4].is_none());
    let reloaded = KeePassDb::new(&flash, db.storage).unwrap();
    assert_eq!(reloaded.header.num_entries, 4);
    for (slot, id) in expected.iter().enumerate() {
        assert_eq!(
            reloaded.entries[slot].unwrap().to_bytes(),
            numbered_entry(*id).to_bytes()
        );
    }
    assert!(reloaded.entries[4].is_none());
}

#[test]
fn delete_last_and_only_entries() {
    let (mut flash, mut db) = empty_store();
    db.create_entry(numbered_entry(0), &mut flash).unwrap();
    db.create_entry(numbered_entry(1), &mut flash).unwrap();
    assert_eq!(db.delete_entry(1, &mut flash), Ok(()));
    assert_eq!(db.delete_entry(0, &mut flash), Ok(()));
    assert_eq!(db.header.num_entries, 0);
    let reloaded = KeePassDb::new(&flash, db.storage).unwrap();
    assert_eq!(reloaded.header.num_entries, 0);
    assert!(reloaded.entries[0].is_none());
}

#[test]
fn delete_missing_entry_is_not_found() {
    let (mut flash, mut db) = empty_store();
    db.create_entry(numbered_entry(0), &mut flash).unwrap();
    let image = flash.as_bytes().to_vec();
    assert_eq!(db.delete_entry(1, &mut flash), Err(KDBError::EntryNotFound));
    assert_eq!(db.header.num_entries, 1);
    assert_eq!(flash.as_bytes(), &image[..]);
}
