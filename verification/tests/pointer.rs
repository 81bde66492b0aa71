use zero_gc::barrier::{ADDRESS_MASK, FINALIZABLE_BIT, FLAG_MASK, MARKED0_BIT, MARKED1_BIT, REMAPPED_BIT};
use zero_gc::{GcObject, GcPointer};

#[test]
fn layout_constants_are_the_documented_bits() {
    assert_eq!(ADDRESS_MASK, (1u64 << 42) - 1);
    assert_eq!(FINALIZABLE_BIT, 1u64 << 42);
    assert_eq!(REMAPPED_BIT, 1u64 << 43);
    assert_eq!(MARKED1_BIT, 1u64 << 44);
    assert_eq!(MARKED0_BIT, 1u64 << 45);
    assert_eq!(FLAG_MASK, 0b1111u64 << 42);
    assert_eq!(ADDRESS_MASK & FLAG_MASK, 0);
}

#[test]
fn make_starts_with_all_flags_cleared() {
    let pointer = GcPointer::make(0x1234_5678);
    assert_eq!(pointer.as_pointer(), 0x1234_5678);
    assert!(!pointer.is_finalizable());
    assert!(!pointer.is_remapped());
    assert!(!pointer.is_marked0());
    assert!(!pointer.is_marked1());
}

#[test]
fn every_flag_combination_keeps_the_address() {
    let addresses = [0u64, 1, 0x1000, 0x0000_0100_0000_0000, 0x0000_02ff_ffff_ffff, ADDRESS_MASK];
    for address in addresses {
        for combination in 0u8..16 {
            let mut pointer = GcPointer::make(address);
            pointer.set_finalize(combination & 1 != 0);
            pointer.set_remapped(combination & 2 != 0);
            pointer.set_marked1(combination & 4 != 0);
            pointer.set_marked0(combination & 8 != 0);
            assert_eq!(pointer.as_pointer(), address);
            assert_eq!(pointer.is_finalizable(), combination & 1 != 0);
            assert_eq!(pointer.is_remapped(), combination & 2 != 0);
            assert_eq!(pointer.is_marked1(), combination & 4 != 0);
            assert_eq!(pointer.is_marked0(), combination & 8 != 0);
        }
    }
}

#[test]
fn set_then_clear_restores_the_other_flags() {
    for combination in 0u8..16 {
        let mut pointer = GcPointer::make(0x00ff_00ff_00);
        pointer.set_finalize(combination & 1 != 0);
        pointer.set_remapped(combination & 2 != 0);
        pointer.set_marked1(combination & 4 != 0);
        pointer.set_marked0(combination & 8 != 0);

        pointer.set_remapped(true);
        pointer.set_remapped(false);
        assert_eq!(pointer.is_finalizable(), combination & 1 != 0);
        assert_eq!(pointer.is_marked1(), combination & 4 != 0);
        assert_eq!(pointer.is_marked0(), combination & 8 != 0);
        assert!(!pointer.is_remapped());
        assert_eq!(pointer.as_pointer(), 0x00ff_00ff_00);

        pointer.set_marked0(true);
        pointer.set_marked0(false);
        assert_eq!(pointer.is_finalizable(), combination & 1 != 0);
        assert_eq!(pointer.is_marked1(), combination & 4 != 0);
        assert!(!pointer.is_marked0());
    }
}

#[test]
fn redirect_changes_the_address_only() {
    let mut pointer = GcPointer::make(0x4000);
    pointer.set_finalize(true);
    pointer.set_marked1(true);
    pointer.redirect(ADDRESS_MASK);
    assert_eq!(pointer.as_pointer(), ADDRESS_MASK);
    assert!(pointer.is_finalizable());
    assert!(pointer.is_marked1());
    assert!(!pointer.is_remapped());
    assert!(!pointer.is_marked0());
    pointer.redirect(0);
    assert_eq!(pointer.as_pointer(), 0);
    assert!(pointer.is_finalizable());
}

#[test]
fn object_header_records_the_size_of_its_type() {
    let object = GcObject::make::<u64>(0x2000);
    assert_eq!(object.as_pointer(), 0x2000);
    assert_eq!(object.size(), 8);
    assert!(object.holds::<u64>());
    assert!(object.holds::<[u8; 8]>());
    assert!(!object.holds::<u32>());
    let byte = GcObject::make::<u8>(0x2008);
    assert_eq!(byte.size(), 1);
    assert!(byte.holds::<u8>());
}

#[test]
fn word_holds_the_address_and_the_flag_bits() {
    let mut pointer = GcPointer::make(0x1234);
    assert_eq!(pointer.word(), 0x1234);
    pointer.set_finalize(true);
    pointer.set_marked0(true);
    assert_eq!(pointer.word(), 0x1234 | (1 << 42) | (1 << 45));
    pointer.set_remapped(true);
    pointer.set_marked1(true);
    assert_eq!(pointer.word(), 0x1234 | FLAG_MASK);
    pointer.redirect(ADDRESS_MASK);
    assert_eq!(pointer.word(), 0x0000_3fff_ffff_ffff);
    pointer.set_marked0(false);
    assert_eq!(pointer.word(), 0x0000_1fff_ffff_ffff);
    pointer.set_finalize(false);
    pointer.set_remapped(false);
    pointer.set_marked1(false);
    assert_eq!(pointer.word(), ADDRESS_MASK);
}
