use zero_gc::barrier::ADDRESS_MASK;
use zero_gc::{
    GcError, GcObject, GcPointer, RegionKind, SizingPolicy, TheWorld, TheWorldControl,
};

const MIB: u64 = 1024 * 1024;

fn control(percent: u8) -> TheWorldControl {
    TheWorldControl::new(percent).unwrap()
}

/// Small below 128 bytes in regions of 1000, medium below 512 in regions of
/// 4000, large regions in steps of 1000.
fn tiny_policy() -> SizingPolicy {
    SizingPolicy::new(128, 512, 1000, 4000, 1000).unwrap()
}

fn tiny_world(limit: u64) -> TheWorld {
    TheWorld::new(control(70), tiny_policy(), 0, limit).unwrap()
}

fn pattern(size: usize) -> Vec<u8> {
    (0..size).map(|i| (i * 31 + 7) as u8).collect()
}

#[test]
fn control_accepts_percentages_only() {
    assert!(TheWorldControl::new(0).is_some());
    assert!(TheWorldControl::new(70).is_some());
    assert!(TheWorldControl::new(100).is_some());
    assert!(TheWorldControl::new(101).is_none());
    assert!(TheWorldControl::new(255).is_none());
    assert_eq!(TheWorldControl::new(70).unwrap().initiating_heap_occupancy_percent, 70);
    assert!(!TheWorldControl { initiating_heap_occupancy_percent: 101 }.is_valid());
}

#[test]
fn new_world_is_empty() {
    let world = TheWorld::new(control(70), SizingPolicy::default(), 0x1000, 64 * MIB).unwrap();
    assert_eq!(world.occupied(), 0);
    assert_eq!(world.capacity(), 0);
    assert_eq!(world.region_count(), 0);
    assert_eq!(world.occupancy_fraction(), 0);
    assert_eq!(world.control().initiating_heap_occupancy_percent, 70);
    assert_eq!(world.policy().large_unit, 2 * MIB);
}

#[test]
fn new_world_refuses_invalid_parameters() {
    let policy = SizingPolicy::default();
    let bad_control = TheWorldControl { initiating_heap_occupancy_percent: 101 };
    assert!(TheWorld::new(bad_control, policy, 0, MIB).is_none());
    let bad_policy = SizingPolicy { large_unit: 0, ..policy };
    assert!(TheWorld::new(control(70), bad_policy, 0, MIB).is_none());
    assert!(TheWorld::new(control(70), policy, 2, 1).is_none());
    assert!(TheWorld::new(control(70), policy, 0, ADDRESS_MASK + 2).is_none());
    assert!(TheWorld::new(control(70), policy, 0, ADDRESS_MASK + 1).is_some());
    assert!(TheWorld::new(control(70), policy, 5, 5).is_some());
}

#[test]
fn allocate_returns_fresh_zeroed_storage() {
    let mut world = TheWorld::new(control(70), tiny_policy(), 0x5000, 0x10_0000).unwrap();
    let first = world.allocate(16).unwrap();
    assert_eq!(first.as_pointer(), 0x5000);
    assert_eq!(first.size(), 16);
    assert!(!first.head().is_remapped());
    assert!(!first.head().is_finalizable());
    assert!(!first.head().is_marked0());
    assert!(!first.head().is_marked1());
    assert_eq!(world.as_bytes(&first).unwrap(), &[0u8; 16][..]);
    let second = world.allocate(4).unwrap();
    assert_eq!(second.as_pointer(), 0x5010);
    assert_eq!(world.occupied(), 20);
    assert_eq!(world.region_count(), 1);
    assert_eq!(world.capacity(), 1000);
}

#[test]
fn allocate_puts_each_size_class_into_its_own_kind_of_region() {
    let mut world = tiny_world(1 << 20);
    let small = world.allocate(127).unwrap();
    let medium = world.allocate(128).unwrap();
    let other_medium = world.allocate(511).unwrap();
    let large = world.allocate(512).unwrap();
    let other_small = world.allocate(5).unwrap();
    assert_eq!(world.kind_at(small.as_pointer()), Some(RegionKind::Small));
    assert_eq!(world.kind_at(medium.as_pointer()), Some(RegionKind::Medium));
    assert_eq!(world.kind_at(other_medium.as_pointer()), Some(RegionKind::Medium));
    assert_eq!(world.kind_at(large.as_pointer()), Some(RegionKind::Large));
    assert_eq!(world.kind_at(other_small.as_pointer()), Some(RegionKind::Small));
    // Regions open one after another: small 0..1000, medium 1000..5000, large 5000..6000.
    assert_eq!(small.as_pointer(), 0);
    assert_eq!(medium.as_pointer(), 1000);
    assert_eq!(other_medium.as_pointer(), 1128);
    assert_eq!(large.as_pointer(), 5000);
    assert_eq!(other_small.as_pointer(), 127);
    assert_eq!(world.region_count(), 3);
    assert_eq!(world.capacity(), 6000);
    assert_eq!(world.occupied(), 127 + 128 + 511 + 512 + 5);
    assert_eq!(world.kind_at(6000), None);
    assert_eq!(world.kind_at(1), None);
}

#[test]
fn every_large_object_gets_a_region_cut_to_fit() {
    let mut world = tiny_world(1 << 20);
    let first = world.allocate(512).unwrap();
    assert_eq!(world.capacity(), 1000);
    let second = world.allocate(1000).unwrap();
    assert_eq!(world.capacity(), 2000);
    let third = world.allocate(1001).unwrap();
    assert_eq!(world.capacity(), 4000);
    assert_eq!(first.as_pointer(), 0);
    assert_eq!(second.as_pointer(), 1000);
    assert_eq!(third.as_pointer(), 2000);
    assert_eq!(world.region_count(), 3);
}

#[test]
fn allocate_opens_a_second_region_when_the_first_is_full() {
    let mut world = tiny_world(1 << 20);
    for i in 0..10u64 {
        let object = world.allocate(100).unwrap();
        assert_eq!(object.as_pointer(), i * 100);
    }
    assert_eq!(world.region_count(), 1);
    let next = world.allocate(100).unwrap();
    assert_eq!(next.as_pointer(), 1000);
    assert_eq!(world.region_count(), 2);
    assert_eq!(world.capacity(), 2000);
    assert_eq!(world.occupied(), 1100);
}

#[test]
fn allocate_takes_the_first_region_with_room() {
    let mut world = tiny_world(1 << 20);
    world.allocate(100).unwrap();
    for _ in 0..9 {
        world.allocate(99).unwrap();
    }
    // 9 bytes are left in the first region: too few for 10, enough for 9.
    let spilled = world.allocate(10).unwrap();
    assert_eq!(spilled.as_pointer(), 1000);
    let fitted = world.allocate(9).unwrap();
    assert_eq!(fitted.as_pointer(), 991);
    assert_eq!(world.region_count(), 2);
}

#[test]
fn allocate_fails_with_region_exhausted_when_no_region_can_be_opened() {
    let mut world = tiny_world(1500);
    let first = world.allocate(100).unwrap();
    assert_eq!(world.capacity(), 1000);
    // A medium region of 4000 bytes does not fit below the limit.
    assert!(matches!(world.allocate(200), Err(GcError::RegionExhausted)));
    // Neither does a large one of 1000.
    assert!(matches!(world.allocate(600), Err(GcError::RegionExhausted)));
    // The small region still serves.
    for _ in 0..9 {
        world.allocate(100).unwrap();
    }
    assert!(matches!(world.allocate(1), Err(GcError::RegionExhausted)));
    assert_eq!(world.occupied(), 1000);
    assert_eq!(world.capacity(), 1000);
    assert_eq!(world.region_count(), 1);
    assert_eq!(world.as_bytes(&first).unwrap().len(), 100);
}

#[test]
fn allocate_of_what_no_word_can_size_fails_without_an_attempt() {
    let mut world = TheWorld::new(control(70), SizingPolicy::default(), 0, ADDRESS_MASK + 1).unwrap();
    assert!(matches!(world.allocate(usize::MAX), Err(GcError::RegionExhausted)));
    assert!(matches!(world.allocate((ADDRESS_MASK + 2) as usize), Err(GcError::RegionExhausted)));
    assert_eq!(world.region_count(), 0);
    assert_eq!(world.occupied(), 0);
}

#[test]
fn store_keeps_the_bytes_it_was_given() {
    let mut world = tiny_world(1 << 20);
    let object = world.store(vec![9, 8, 7, 6]).unwrap();
    assert_eq!(object.size(), 4);
    assert_eq!(world.as_bytes(&object).unwrap(), &[9u8, 8, 7, 6][..]);
    assert_eq!(world.occupied(), 4);
    let medium = world.store(pattern(300)).unwrap();
    assert_eq!(world.kind_at(medium.as_pointer()), Some(RegionKind::Medium));
    assert_eq!(world.as_bytes(&medium).unwrap(), &pattern(300)[..]);
}

#[test]
fn round_trip_of_representative_sizes() {
    let policy = SizingPolicy::default();
    let sizes = [
        1usize,
        policy.small_threshold as usize,
        policy.medium_threshold as usize,
        policy.medium_capacity as usize + 12345,
    ];
    let mut world = TheWorld::new(control(70), policy, 0x10_0000, ADDRESS_MASK + 1).unwrap();
    let mut objects = Vec::new();
    for size in sizes {
        let object = world.allocate(size).unwrap();
        assert_eq!(world.write(&object, &pattern(size)), Ok(()));
        objects.push(object);
    }
    for (object, size) in objects.iter().zip(sizes) {
        assert_eq!(object.size(), size);
        assert_eq!(world.as_bytes(object).unwrap(), &pattern(size)[..]);
    }
    assert_eq!(world.kind_at(objects[0].as_pointer()), Some(RegionKind::Small));
    assert_eq!(world.kind_at(objects[1].as_pointer()), Some(RegionKind::Medium));
    assert_eq!(world.kind_at(objects[2].as_pointer()), Some(RegionKind::Large));
    assert_eq!(world.kind_at(objects[3].as_pointer()), Some(RegionKind::Large));
}

#[test]
fn write_changes_one_object_only() {
    let mut world = tiny_world(1 << 20);
    let first = world.allocate(3).unwrap();
    let second = world.allocate(3).unwrap();
    assert_eq!(world.write(&second, &[1, 2, 3]), Ok(()));
    assert_eq!(world.as_bytes(&first).unwrap(), &[0u8, 0, 0][..]);
    assert_eq!(world.as_bytes(&second).unwrap(), &[1u8, 2, 3][..]);
    assert_eq!(world.occupied(), 6);
}

#[test]
fn operations_on_an_address_without_an_object_give_pointer_out_of_range() {
    let mut world = tiny_world(1 << 20);
    let object = world.allocate(8).unwrap();
    let nowhere = GcObject::with_size(GcPointer::make(0x7777), 8);
    let inside = GcObject::with_size(GcPointer::make(object.as_pointer() + 1), 8);
    for mut bad in [nowhere, inside] {
        assert_eq!(world.validate(&bad), Err(GcError::PointerOutOfRange));
        assert!(matches!(world.as_bytes(&bad), Err(GcError::PointerOutOfRange)));
        assert_eq!(world.write(&bad, &[0; 8]), Err(GcError::PointerOutOfRange));
        assert_eq!(world.free(&bad), Err(GcError::PointerOutOfRange));
        assert!(matches!(world.relocate(&mut bad), Err(GcError::PointerOutOfRange)));
    }
    assert_eq!(world.occupied(), 8);
    assert_eq!(world.validate(&object), Ok(()));
}

#[test]
fn a_header_with_the_wrong_size_gives_invalid_cast() {
    let mut world = tiny_world(1 << 20);
    let object = world.allocate(8).unwrap();
    let mut wrong = GcObject::with_size(object.head(), 4);
    assert_eq!(world.validate(&wrong), Err(GcError::InvalidCast));
    assert!(matches!(world.as_bytes(&wrong), Err(GcError::InvalidCast)));
    assert_eq!(world.write(&wrong, &[0; 4]), Err(GcError::InvalidCast));
    assert_eq!(world.free(&wrong), Err(GcError::InvalidCast));
    assert!(matches!(world.relocate(&mut wrong), Err(GcError::InvalidCast)));
    assert_eq!(world.write(&object, &[0; 4]), Err(GcError::InvalidCast));
    assert_eq!(world.write(&object, &[0; 9]), Err(GcError::InvalidCast));
    assert_eq!(world.occupied(), 8);
    assert_eq!(world.as_bytes(&object).unwrap(), &[0u8; 8][..]);
}

#[test]
fn free_lowers_the_occupancy_and_retires_the_address() {
    let mut world = tiny_world(1 << 20);
    let first = world.allocate(40).unwrap();
    let second = world.allocate(60).unwrap();
    assert_eq!(world.free(&first), Ok(()));
    assert_eq!(world.occupied(), 60);
    assert_eq!(world.capacity(), 1000);
    assert_eq!(world.free(&first), Err(GcError::PointerOutOfRange));
    assert!(matches!(world.as_bytes(&first), Err(GcError::PointerOutOfRange)));
    assert_eq!(world.kind_at(first.as_pointer()), Some(RegionKind::Small));
    assert_eq!(world.as_bytes(&second).unwrap().len(), 60);
    let third = world.allocate(40).unwrap();
    assert_eq!(third.as_pointer(), 100);
}

#[test]
fn occupancy_fraction_is_the_rounded_down_percentage() {
    let mut world = tiny_world(1 << 20);
    assert_eq!(world.occupancy_fraction(), 0);
    world.allocate(9).unwrap();
    assert_eq!(world.occupancy_fraction(), 0);
    world.allocate(1).unwrap();
    assert_eq!(world.occupancy_fraction(), 1);
    world.allocate(109).unwrap();
    assert_eq!(world.occupancy_fraction(), 11);
    // A medium region of 4000 bytes opens: 119 + 300 of 5000.
    world.allocate(300).unwrap();
    assert_eq!(world.capacity(), 5000);
    assert_eq!(world.occupancy_fraction(), 8);
}

#[test]
fn occupancy_fraction_reaches_one_hundred_when_every_byte_is_taken() {
    let mut world = tiny_world(1000);
    for _ in 0..10 {
        world.allocate(100).unwrap();
    }
    assert_eq!(world.occupancy_fraction(), 100);
    assert!(world.should_collect());
}

/// A collaborator that only records whether it was told to start a cycle.
struct Scheduler {
    signals: Vec<u8>,
}

impl Scheduler {
    fn check(&mut self, world: &TheWorld) {
        if world.should_collect() {
            self.signals.push(world.occupancy_fraction());
        }
    }
}

#[test]
fn crossing_the_threshold_signals_a_cycle() {
    let mut world = tiny_world(1000);
    let mut scheduler = Scheduler { signals: Vec::new() };
    for _ in 0..10 {
        world.allocate(69).unwrap();
        scheduler.check(&world);
    }
    assert_eq!(world.occupancy_fraction(), 69);
    assert!(!world.should_collect());
    assert!(scheduler.signals.is_empty());
    world.allocate(20).unwrap();
    assert_eq!(world.occupancy_fraction(), 71);
    assert!(world.should_collect());
    scheduler.check(&world);
    assert_eq!(scheduler.signals, vec![71]);
}

#[test]
fn the_threshold_itself_signals_a_cycle() {
    let mut world = tiny_world(1000);
    for _ in 0..7 {
        world.allocate(100).unwrap();
    }
    assert_eq!(world.occupancy_fraction(), 70);
    assert!(world.should_collect());
    let mut relaxed = TheWorld::new(control(100), tiny_policy(), 0, 1000).unwrap();
    relaxed.allocate(100).unwrap();
    assert!(!relaxed.should_collect());
    let eager = TheWorld::new(control(0), tiny_policy(), 0, 1000).unwrap();
    assert!(eager.should_collect());
}

#[test]
fn has_room_tells_whether_an_allocation_would_succeed() {
    let mut world = tiny_world(1500);
    assert!(world.has_room(0));
    assert!(world.has_room(127));
    assert!(!world.has_room(128));
    assert!(world.has_room(512));
    assert!(world.has_room(1000));
    assert!(!world.has_room(1001));
    world.allocate(100).unwrap();
    assert!(world.has_room(127));
    assert!(!world.has_room(512));
    for _ in 0..9 {
        world.allocate(100).unwrap();
    }
    assert!(!world.has_room(0));
}
