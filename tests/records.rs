use passbuddy::codec::{decode_text, encode_text};
use passbuddy::keepass::entry::ENTRY_SIZE;
use passbuddy::keepass::group::GROUP_SIZE;
use passbuddy::keepass::header::{copy_array, read_u32_le};
use passbuddy::keepass::times::KdbTime;
use passbuddy::keepass::{Entry, Group, KDBError, KDBHeader, Times, HEADER_SIZE};
use passbuddy::storage::header::{get_header, LayoutHeader, STORAGE_LAYOUT_VERSION};
use passbuddy::storage::region::{DataRegion, RegionDescriptor};

fn sample_times() -> Times {
    Times {
        created: KdbTime::from_raw([1, 2, 3, 4, 5]),
        modified: KdbTime::from_raw([6, 7, 8, 9, 10]),
        accessed: KdbTime::from_raw([11, 12, 13, 14, 15]),
        expires: KdbTime::from_raw([0, 0, 0, 0, 0]),
    }
}

fn sample_entry() -> Entry {
    Entry {
        uuid: [7; 16],
        group_id: 3,
        title: encode_text("Mail"),
        username: encode_text("alice"),
        password: encode_text("s3cret"),
        url: encode_text("https://mail.example"),
        icon_id: Some(42),
        times: sample_times(),
        autotype: false,
    }
}

#[test]
fn times_round_trip() {
    let t = sample_times();
    let bytes = t.to_bytes();
    assert_eq!(bytes[0..5], [1, 2, 3, 4, 5]);
    assert_eq!(bytes[15..20], [0, 0, 0, 0, 0]);
    let back = Times::new_from_bytes(&bytes);
    assert_eq!(back.to_bytes(), bytes);
    assert_eq!(back.created, t.created);
    assert_eq!(back.expires.raw(), &[0u8; 5]);
}

#[test]
fn zero_times_are_never() {
    assert_eq!(Times::zero().to_bytes(), [0u8; 20]);
    assert_eq!(KdbTime::never().raw(), &[0u8; 5]);
}

#[test]
fn group_layout_and_round_trip() {
    let g = Group {
        group_id: 0x01020304,
        name: encode_text("Work"),
        icon_id: Some(9),
        level: 2,
        times: sample_times(),
    };
    let bytes = g.to_bytes();
    assert_eq!(bytes.len(), GROUP_SIZE);
    assert_eq!(bytes[0..4], [4, 3, 2, 1]);
    assert_eq!(bytes[4..8], *b"Work");
    assert_eq!(bytes[68..72], [9, 0, 0, 0]);
    assert_eq!(bytes[72..76], [1, 0, 0, 0]);
    assert_eq!(bytes[76..78], [2, 0]);
    assert_eq!(bytes[78..83], [1, 2, 3, 4, 5]);
    assert_eq!(bytes[98..100], [0, 0]);
    let back = Group::new_from_bytes(&bytes);
    assert_eq!(back.group_id, g.group_id);
    assert_eq!(back.name, g.name);
    assert_eq!(back.icon_id, Some(9));
    assert_eq!(back.level, 2);
    assert_eq!(back.to_bytes(), bytes);
}

#[test]
fn group_without_icon() {
    let mut g = Group::random();
    g.icon_id = None;
    let bytes = g.to_bytes();
    assert_eq!(bytes[68..76], [0; 8]);
    assert_eq!(Group::new_from_bytes(&bytes).icon_id, None);
}

#[test]
fn default_group_is_private() {
    let g = Group::random();
    assert_eq!(g.group_id, 1);
    assert_eq!(decode_text(&g.name), "Private");
    assert_eq!(g.icon_id, None);
    assert_eq!(g.level, 0);
}

#[test]
fn entry_layout_and_round_trip() {
    let e = sample_entry();
    let bytes = e.to_bytes();
    assert_eq!(bytes.len(), ENTRY_SIZE);
    assert_eq!(bytes[0..16], [7; 16]);
    assert_eq!(bytes[16..20], [3, 0, 0, 0]);
    assert_eq!(bytes[20..24], *b"Mail");
    assert_eq!(bytes[84..89], *b"alice");
    assert_eq!(bytes[148..154], *b"s3cret");
    assert_eq!(bytes[212..220], *b"https://");
    assert_eq!(bytes[340..348], [42, 0, 0, 0, 1, 0, 0, 0]);
    assert_eq!(bytes[348..353], [1, 2, 3, 4, 5]);
    assert_eq!(bytes[368], 0);
    let back = Entry::new_from_bytes(&bytes);
    assert_eq!(back.uuid, e.uuid);
    assert_eq!(decode_text(&back.username), "alice");
    assert_eq!(decode_text(&back.url), "https://mail.example");
    assert_eq!(back.icon_id, Some(42));
    assert!(!back.autotype);
    assert_eq!(back.to_bytes(), bytes);
}

#[test]
fn default_entry_fields() {
    let e = Entry::default_with_group_id(5);
    assert_eq!(e.uuid, 1u128.to_le_bytes());
    assert_eq!(e.group_id, 5);
    assert_eq!(decode_text(&e.title), "Google");
    assert_eq!(decode_text(&e.username), "carlos");
    assert_eq!(decode_text(&e.password), "123456");
    assert_eq!(decode_text(&e.url), "");
    assert!(e.autotype);
    assert_eq!(e.to_bytes()[368], 1);
}

#[test]
fn autotype_reads_any_nonzero_byte_as_on() {
    let mut bytes = Entry::default_with_group_id(1).to_bytes();
    bytes[368] = 0x80;
    assert!(Entry::new_from_bytes(&bytes).autotype);
}

#[test]
fn header_round_trip() {
    let mut h = KDBHeader::empty();
    h.flags = 0xA0B0C0D0;
    h.master_seed = [5; 16];
    h.num_groups = 2;
    h.num_entries = 7;
    h.transform_rounds = 6000;
    let bytes = h.to_bytes();
    assert_eq!(bytes.len(), HEADER_SIZE);
    assert_eq!(bytes[0..4], [0xD0, 0xC0, 0xB0, 0xA0]);
    assert_eq!(bytes[40..44], [2, 0, 0, 0]);
    assert_eq!(bytes[44..48], [7, 0, 0, 0]);
    assert_eq!(bytes[112..116], 6000u32.to_le_bytes());
    let back = KDBHeader::new_from_bytes(&bytes).unwrap();
    assert_eq!(back.num_groups, 2);
    assert_eq!(back.num_entries, 7);
    assert_eq!(back.master_seed, [5; 16]);
    assert_eq!(back.to_bytes(), bytes);
}

#[test]
fn empty_header_is_all_zero() {
    assert_eq!(KDBHeader::empty().to_bytes(), [0u8; HEADER_SIZE]);
}

#[test]
fn short_header_is_rejected() {
    let bytes = [0u8; HEADER_SIZE - 1];
    assert!(matches!(
        KDBHeader::new_from_bytes(&bytes),
        Err(KDBError::DatabaseIntegrityError)
    ));
}

#[test]
fn field_readers_check_bounds() {
    let data = [1u8, 2, 3, 4, 5];
    assert_eq!(read_u32_le(&data, 1), Ok(0x05040302));
    assert_eq!(read_u32_le(&data, 2), Err(KDBError::DatabaseIntegrityError));
    assert_eq!(read_u32_le(&data, usize::MAX), Err(KDBError::DatabaseIntegrityError));
    assert_eq!(copy_array::<2>(&data, 3), Ok([4, 5]));
    assert_eq!(copy_array::<2>(&data, 4), Err(KDBError::DatabaseIntegrityError));
}

#[test]
fn region_descriptor_round_trip() {
    let d = RegionDescriptor {
        kind: DataRegion::KeePassDb,
        offset: 0x203000,
        capacity: 0x10000,
        used_len: 524,
        crc32: 0xDEADBEEF,
    };
    let bytes = d.to_bytes();
    assert_eq!(bytes[0], 2);
    assert_eq!(bytes[1..5], [0x00, 0x30, 0x20, 0x00]);
    assert_eq!(bytes[5..9], [0x00, 0x00, 0x01, 0x00]);
    assert_eq!(bytes[17..20], [0, 0, 0]);
    assert_eq!(RegionDescriptor::new_from_bytes(&bytes), Some(d));
}

#[test]
fn region_descriptor_rejects_unknown_kind() {
    let mut bytes = RegionDescriptor::empty().to_bytes();
    assert_eq!(bytes[0], 3);
    bytes[0] = 4;
    assert_eq!(RegionDescriptor::new_from_bytes(&bytes), None);
}

#[test]
fn empty_descriptors() {
    let d = RegionDescriptor::empty_with_kind(DataRegion::UserConfig);
    assert_eq!(d.kind, DataRegion::UserConfig);
    assert_eq!((d.offset, d.capacity, d.used_len, d.crc32), (0, 0, 0, 0));
    assert_eq!(RegionDescriptor::empty().kind, DataRegion::Scratch);
}

#[test]
fn layout_header_round_trip() {
    let h = get_header();
    assert_eq!(h.magic, *b"PBDY");
    assert_eq!(h.layout_version, STORAGE_LAYOUT_VERSION);
    assert_eq!(h.region_count, 4);
    let bytes = h.get_bytes();
    assert_eq!(bytes, [b'P', b'B', b'D', b'Y', 1, 0, 4]);
    assert_eq!(LayoutHeader::new_from_bytes(&bytes), h);
}
