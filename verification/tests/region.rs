use zero_gc::barrier::ADDRESS_MASK;
use zero_gc::{GcError, Region, RegionKind};

#[test]
fn new_region_is_empty() {
    let region = Region::new(RegionKind::Small, 0x1000, 64).unwrap();
    assert_eq!(region.kind(), RegionKind::Small);
    assert_eq!(region.base(), 0x1000);
    assert_eq!(region.capacity(), 64);
    assert_eq!(region.occupied(), 0);
    assert_eq!(region.available(), 64);
    assert!(!region.has_handed_out(0x1000));
    assert!(!region.is_live(0x1000));
}

#[test]
fn region_must_lie_below_the_address_limit() {
    assert!(Region::new(RegionKind::Small, ADDRESS_MASK, 1).is_some());
    assert!(Region::new(RegionKind::Small, ADDRESS_MASK, 2).is_none());
    assert!(Region::new(RegionKind::Medium, 0, ADDRESS_MASK + 1).is_some());
    assert!(Region::new(RegionKind::Medium, 1, ADDRESS_MASK + 1).is_none());
    assert!(Region::new(RegionKind::Large, 0, u64::MAX).is_none());
    assert!(Region::new(RegionKind::Large, u64::MAX, u64::MAX).is_none());
}

#[test]
fn region_allocate_bumps_the_watermark() {
    let mut region = Region::new(RegionKind::Small, 0x1000, 64).unwrap();
    assert_eq!(region.allocate(16), Ok(0x1000));
    assert_eq!(region.allocate(8), Ok(0x1010));
    assert_eq!(region.allocate(1), Ok(0x1018));
    assert_eq!(region.occupied(), 25);
    assert_eq!(region.available(), 39);
    assert!(region.is_live(0x1000));
    assert!(region.is_live(0x1010));
    assert!(region.is_live(0x1018));
    assert!(!region.is_live(0x1001));
    assert!(!region.has_handed_out(0x1019));
    assert!(!region.has_handed_out(0x0fff));
}

#[test]
fn region_storage_is_zeroed() {
    let mut region = Region::new(RegionKind::Small, 0, 64).unwrap();
    let address = region.allocate(5).unwrap();
    assert_eq!(region.bytes(address), Some(&[0u8, 0, 0, 0, 0][..]));
}

#[test]
fn region_place_keeps_the_bytes() {
    let mut region = Region::new(RegionKind::Small, 0x40, 64).unwrap();
    let address = region.place(vec![1, 2, 3]).unwrap();
    assert_eq!(address, 0x40);
    assert_eq!(region.bytes(address), Some(&[1u8, 2, 3][..]));
    assert_eq!(region.occupied(), 3);
}

#[test]
fn region_exhaustion_is_an_error_and_changes_nothing() {
    let mut region = Region::new(RegionKind::Small, 0, 10).unwrap();
    assert_eq!(region.allocate(6), Ok(0));
    assert!(!region.has_room(5));
    assert_eq!(region.allocate(5), Err(GcError::RegionExhausted));
    assert_eq!(region.occupied(), 6);
    assert_eq!(region.available(), 4);
    assert!(region.has_room(4));
    assert_eq!(region.allocate(4), Ok(6));
    assert_eq!(region.allocate(0), Err(GcError::RegionExhausted));
    assert_eq!(region.allocate(1), Err(GcError::RegionExhausted));
    assert_eq!(region.available(), 0);
}

#[test]
fn empty_objects_get_addresses_of_their_own() {
    let mut region = Region::new(RegionKind::Small, 100, 10).unwrap();
    assert_eq!(region.allocate(0), Ok(100));
    assert_eq!(region.allocate(0), Ok(101));
    assert_eq!(region.allocate(2), Ok(102));
    assert_eq!(region.occupied(), 2);
    assert_eq!(region.available(), 6);
    assert_eq!(region.bytes(100), Some(&[][..]));
}

#[test]
fn large_region_holds_one_object_for_its_lifetime() {
    let mut region = Region::new(RegionKind::Large, 0, 4096).unwrap();
    assert_eq!(region.allocate(3000), Ok(0));
    assert_eq!(region.allocate(10), Err(GcError::RegionExhausted));
    assert_eq!(region.free(0), Ok(()));
    assert_eq!(region.occupied(), 0);
    assert_eq!(region.allocate(10), Err(GcError::RegionExhausted));
}

#[test]
fn region_free_lowers_occupancy_and_keeps_the_address_taken() {
    let mut region = Region::new(RegionKind::Medium, 0x100, 100).unwrap();
    let first = region.allocate(10).unwrap();
    let second = region.allocate(20).unwrap();
    assert_eq!(region.free(first), Ok(()));
    assert_eq!(region.occupied(), 20);
    assert_eq!(region.available(), 70);
    assert!(!region.is_live(first));
    assert!(region.has_handed_out(first));
    assert!(region.is_live(second));
    assert_eq!(region.bytes(first), None);
    let third = region.allocate(10).unwrap();
    assert_eq!(third, 0x100 + 30);
}

#[test]
fn region_free_of_what_is_not_there_fails() {
    let mut region = Region::new(RegionKind::Small, 0x100, 100).unwrap();
    let first = region.allocate(10).unwrap();
    assert_eq!(region.free(first + 1), Err(GcError::PointerOutOfRange));
    assert_eq!(region.free(0), Err(GcError::PointerOutOfRange));
    assert_eq!(region.free(0x100 + 99), Err(GcError::PointerOutOfRange));
    assert_eq!(region.free(first), Ok(()));
    assert_eq!(region.free(first), Err(GcError::PointerOutOfRange));
    assert_eq!(region.occupied(), 0);
}

#[test]
fn region_write_replaces_the_bytes_of_one_object() {
    let mut region = Region::new(RegionKind::Small, 0, 100).unwrap();
    let first = region.allocate(3).unwrap();
    let second = region.allocate(2).unwrap();
    assert_eq!(region.write(first, &[7, 8, 9]), Ok(()));
    assert_eq!(region.bytes(first), Some(&[7u8, 8, 9][..]));
    assert_eq!(region.bytes(second), Some(&[0u8, 0][..]));
    assert_eq!(region.occupied(), 5);
}

#[test]
fn region_write_errors() {
    let mut region = Region::new(RegionKind::Small, 0, 100).unwrap();
    let first = region.allocate(3).unwrap();
    assert_eq!(region.write(first, &[1, 2]), Err(GcError::InvalidCast));
    assert_eq!(region.write(first, &[1, 2, 3, 4]), Err(GcError::InvalidCast));
    assert_eq!(region.write(first + 1, &[1, 2, 3]), Err(GcError::PointerOutOfRange));
    assert_eq!(region.bytes(first), Some(&[0u8, 0, 0][..]));
    region.free(first).unwrap();
    assert_eq!(region.write(first, &[1, 2, 3]), Err(GcError::PointerOutOfRange));
}

#[test]
fn region_finds_every_object_among_many() {
    let mut region = Region::new(RegionKind::Small, 1000, 10_000).unwrap();
    let mut addresses = Vec::new();
    for i in 0..200usize {
        addresses.push(region.place(vec![i as u8; i % 7]).unwrap());
    }
    for (i, address) in addresses.iter().enumerate() {
        assert_eq!(region.bytes(*address), Some(&vec![i as u8; i % 7][..]));
    }
    for window in addresses.windows(2) {
        assert!(window[0] < window[1]);
    }
}
