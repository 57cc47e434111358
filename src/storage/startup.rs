//! Bringing the storage up at boot: validate or format the layout, then
//! load or create the record store in its region.

use vstd::prelude::*;

use crate::codec::{lemma_le_u32_of, lemma_u32_le_zero, lemma_u32_round_trip, u32_le};
use crate::keepass::db::KeePassDb;
use crate::keepass::error::KDBError;
use crate::keepass::header::{KDB_SIGNATURE1, KDB_SIGNATURE2};
use crate::storage::flash::{written, Flash};
use crate::storage::keepass::{
    accessible, exists_spec, header_bytes, initial_store, keepass_index, loadable, region_bytes,
    INITIAL_STORE_SIZE,
};
use crate::storage::layout::{
    descriptor_matches, expected_descriptor, formatted, healthcheck_spec, lemma_expected_offsets,
    stored_descriptor, window_fits, StorageError, StorageLayout,
};
use crate::storage::region::{DataRegion, RegionHandle};

verus! {

/// Why the storage could not be brought up.
#[derive(Clone, Copy, Debug, PartialEq, Eq, Structural)]
pub enum StartupError {
    /// The layout could not be validated or formatted.
    Layout(StorageError),
    /// The record store could not be loaded.
    Store(KDBError),
}

/// The handle of the record store's region in the fixed layout.
pub open spec fn keepass_handle() -> RegionHandle {
    RegionHandle {
        base: expected_descriptor(keepass_index()).offset,
        capacity: expected_descriptor(keepass_index()).capacity,
    }
}

/// `img` with a valid layout: as it was if it passes the healthcheck,
/// formatted otherwise.
pub open spec fn validated(img: Seq<u8>) -> Seq<u8> {
    if healthcheck_spec(img) is Ok {
        img
    } else {
        formatted(img)
    }
}

/// `img` after startup: a valid layout, and a record store in its region,
/// created empty when none was there.
pub open spec fn started(img: Seq<u8>) -> Seq<u8> {
    let v = validated(img);
    if exists_spec(v, keepass_handle()) == Ok::<bool, KDBError>(true) {
        v
    } else {
        written(v, keepass_handle().base as int, initial_store())
    }
}

/// On a device with a valid layout, the layout table's record store
/// descriptor names the fixed region, which lies on the device.
proof fn lemma_healthy_handle(img: Seq<u8>)
    requires
        healthcheck_spec(img) is Ok,
    ensures
        stored_descriptor(img, keepass_index()) matches Some(d) && d.offset == keepass_handle().base
            && d.capacity == keepass_handle().capacity,
        keepass_handle().base + keepass_handle().capacity <= img.len(),
        keepass_handle().capacity >= INITIAL_STORE_SIZE,
{
    lemma_expected_offsets();
    assert(descriptor_matches(img, keepass_index()));
}

/// A freshly initialized store loads, empty.
proof fn lemma_initialized_loads(img: Seq<u8>, region: RegionHandle)
    requires
        accessible(img, region, 0, INITIAL_STORE_SIZE as int),
    ensures
        loadable(written(img, region.base as int, initial_store()), region),
{
    let img2 = written(img, region.base as int, initial_store());
    let init = initial_store();
    lemma_u32_round_trip(KDB_SIGNATURE1);
    lemma_u32_round_trip(KDB_SIGNATURE2);
    assert(region_bytes(img2, region, 0, 4) =~= u32_le(KDB_SIGNATURE1));
    assert(region_bytes(img2, region, 4, 4) =~= u32_le(KDB_SIGNATURE2));
    assert(region_bytes(img2, region, 0, 4).subrange(0, 4) =~= u32_le(KDB_SIGNATURE1));
    assert(region_bytes(img2, region, 4, 4).subrange(0, 4) =~= u32_le(KDB_SIGNATURE2));
    lemma_le_u32_of(region_bytes(img2, region, 0, 4), 0, KDB_SIGNATURE1);
    lemma_le_u32_of(region_bytes(img2, region, 4, 4), 0, KDB_SIGNATURE2);
    let h = header_bytes(img2, region);
    lemma_u32_le_zero();
    assert(h.subrange(40, 44) =~= u32_le(0));
    assert(h.subrange(44, 48) =~= u32_le(0));
    lemma_le_u32_of(h, 40, 0);
    lemma_le_u32_of(h, 44, 0);
}

/// Keeps a layout that passes the healthcheck and formats the device
/// otherwise; then reads the layout back and returns the record store's
/// region.
fn validate_layout(flash: &mut Flash) -> (r: Result<RegionHandle, StorageError>)
    ensures
        r is Ok <==> window_fits(old(flash)@),
        r matches Err(e) ==> e == StorageError::InvalidLayout && final(flash)@ == old(flash)@,
        r is Ok ==> final(flash)@ == validated(old(flash)@),
        r matches Ok(h) ==> h == keepass_handle(),
        r is Ok ==> healthcheck_spec(final(flash)@) is Ok,
{
    let ghost img = flash@;
    match StorageLayout::run_healthcheck(flash) {
        Ok(()) => {},
        Err(_) => {
            match StorageLayout::bootstrap_storage_write(flash) {
                Ok(()) => {},
                Err(e) => return Err(e),
            }
        },
    }
    let ghost valid = flash@;
    proof {
        lemma_healthy_handle(valid);
        assert forall|i: int| 0 <= i < 4 implies (#[trigger] stored_descriptor(valid, i)) is Some by {
            assert(descriptor_matches(valid, i));
        }
    }
    let layout = match StorageLayout::new(flash) {
        Ok(l) => l,
        Err(_) => return Err(StorageError::InvalidLayout),
    };
    layout.region_handle(DataRegion::KeePassDb)
}

/// Brings the storage up: keeps a layout that passes the healthcheck and
/// formats the device otherwise; then initializes the record store's region
/// if it holds no store, and loads the store.
pub fn open_store(flash: &mut Flash) -> (r: Result<KeePassDb, StartupError>)
    ensures
        !window_fits(old(flash)@) ==> r == Err::<KeePassDb, StartupError>(
            StartupError::Layout(StorageError::InvalidLayout),
        ) && final(flash)@ == old(flash)@,
        window_fits(old(flash)@) ==> final(flash)@ == started(old(flash)@),
        window_fits(old(flash)@) ==> (r is Ok <==> loadable(started(old(flash)@), keepass_handle())),
        window_fits(old(flash)@) && exists_spec(validated(old(flash)@), keepass_handle())
            != Ok::<bool, KDBError>(true) ==> r is Ok,
        r matches Ok(db) ==> db.wf() && db.loaded_from(final(flash)@, keepass_handle()),
        r matches Err(e) ==> e == StartupError::Layout(StorageError::InvalidLayout) || e
            == StartupError::Store(KDBError::DatabaseIntegrityError),
{
    let ghost img = flash@;
    let region = match validate_layout(flash) {
        Ok(h) => h,
        Err(e) => return Err(StartupError::Layout(e)),
    };
    let ghost valid = flash@;
    proof {
        lemma_healthy_handle(valid);
    }
    let exists = match KeePassDb::check_if_exists(flash, region) {
        Ok(b) => b,
        Err(e) => return Err(StartupError::Store(e)),
    };
    if !exists {
        match KeePassDb::initialize_db(flash, region) {
            Ok(()) => {},
            Err(e) => return Err(StartupError::Store(e)),
        }
        proof {
            lemma_initialized_loads(valid, region);
        }
    }
    assert(flash@ == started(img));
    match KeePassDb::new(flash, region) {
        Ok(db) => Ok(db),
        Err(e) => Err(StartupError::Store(e)),
    }
}

} // verus!
