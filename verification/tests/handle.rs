use zero_gc::barrier::MarkColor;
use zero_gc::{Gc, GcError, GcObject, GcPointer, SizingPolicy, TheWorld, TheWorldControl};

#[test]
fn typed_handle_knows_the_size_of_its_type() {
    let handle = Gc::<u32>::new(0x1000);
    assert_eq!(handle.object().size(), 4);
    assert_eq!(handle.object().as_pointer(), 0x1000);
    let wide = Gc::<[u64; 4]>::new(0x2000);
    assert_eq!(wide.object().size(), 32);
    let copy = wide;
    assert_eq!(copy.object().as_pointer(), wide.object().as_pointer());
}

#[test]
fn typed_handle_is_made_from_a_header_of_the_right_size_only() {
    let header = GcObject::make::<u64>(0x3000);
    assert!(Gc::<u64>::from_object(header).is_ok());
    assert!(Gc::<i64>::from_object(header).is_ok());
    assert!(matches!(Gc::<u32>::from_object(header), Err(GcError::InvalidCast)));
    assert!(matches!(Gc::<[u8; 9]>::from_object(header), Err(GcError::InvalidCast)));
    let typed = Gc::<u64>::from_object(header).unwrap();
    assert_eq!(typed.object().as_pointer(), 0x3000);
    assert_eq!(typed.object().size(), 8);
}

#[test]
fn typed_handle_reads_through_the_barrier() {
    let control = TheWorldControl::new(70).unwrap();
    let mut world = TheWorld::new(control, SizingPolicy::default(), 0x1000, 1 << 30).unwrap();
    let mut header = world.store(0x1122_3344_5566_7788u64.to_le_bytes().to_vec()).unwrap();
    let mut handle = Gc::<u64>::from_object(header).unwrap();
    assert_eq!(handle.load(&world).unwrap(), &0x1122_3344_5566_7788u64.to_le_bytes()[..]);
    assert!(handle.object().head().is_remapped());

    let mut stale = Gc::<u64>::from_object(header).unwrap();
    let moved = world.relocate(&mut header).unwrap();
    assert_eq!(stale.load(&world).unwrap(), &0x1122_3344_5566_7788u64.to_le_bytes()[..]);
    assert_eq!(stale.object().as_pointer(), moved.as_pointer());

    let mut missing = Gc::<u64>::new(0x10);
    assert!(matches!(missing.load(&world), Err(GcError::PointerOutOfRange)));
    let mut mistyped = Gc::<u32>::new(moved.as_pointer());
    assert!(matches!(mistyped.load(&world), Err(GcError::InvalidCast)));
}

#[test]
fn a_mark_counts_in_its_own_cycle_only() {
    let mut pointer = GcPointer::make(0x4000);
    let cycle = MarkColor::Marked0;
    assert!(!pointer.is_marked(cycle));
    pointer.mark(cycle);
    assert!(pointer.is_marked(cycle));
    assert!(pointer.is_marked0());
    assert!(!pointer.is_marked1());
    let next = cycle.flip();
    assert_eq!(next, MarkColor::Marked1);
    assert!(!pointer.is_marked(next));
    pointer.mark(next);
    assert!(pointer.is_marked(next));
    assert!(!pointer.is_marked0());
    assert_eq!(next.flip(), cycle);
    assert!(!pointer.is_marked(next.flip()));
    assert_eq!(pointer.as_pointer(), 0x4000);
}

#[test]
fn marking_keeps_the_other_flags() {
    let mut pointer = GcPointer::make(0x4000);
    pointer.set_finalize(true);
    pointer.set_remapped(true);
    pointer.mark(MarkColor::Marked1);
    assert!(pointer.is_finalizable());
    assert!(pointer.is_remapped());
    assert!(pointer.is_marked1());
    assert_eq!(pointer.as_pointer(), 0x4000);
}
