//! The heap: the regions of all three kinds, the occupancy they add up to,
//! and the forwarding addresses of the objects that were moved.

use std::collections::HashMap;
use vstd::prelude::*;
use crate::barrier::{GcObject, GcPointer, ObjectView, PointerView, ADDRESS_MASK};
use crate::errors::{GcError, GcResult};
use crate::gc_head::TheWorldControl;
use crate::heap::{
    lemma_first_fit, lemma_found, lemma_lookup_in, lemma_occupancy_is_percentage,
    lemma_placed_world, lemma_relocated_world, lemma_released_world, lemma_totals_bound,
    lemma_written_world, WorldView,
};
use crate::region::{address_limit, zeros, Region};
use crate::sizing::{RegionKind, SizingPolicy};

verus! {

/// The world: the heap of the collector.
#[derive(Debug)]
pub struct TheWorld {
    control: TheWorldControl,
    policy: SizingPolicy,
    base: u64,
    limit: u64,
    frontier: u64,
    occupied: u64,
    regions: Vec<Region>,
    forwarding: HashMap<u64, u64>,
}

impl View for TheWorld {
    type V = WorldView;

    closed spec fn view(&self) -> WorldView {
        WorldView {
            control: self.control,
            policy: self.policy,
            base: self.base as nat,
            limit: self.limit as nat,
            frontier: self.frontier as nat,
            occupied: self.occupied as nat,
            regions: Seq::new(self.regions@.len(), |i: int| self.regions@[i]@),
            forwarding: self.forwarding@,
        }
    }
}

impl TheWorld {
    /// Create a heap without regions that may use the addresses from `base`
    /// up to, not including, `limit`. `None` where a parameter is invalid,
    /// `base` lies above `limit`, or `limit` lies beyond the addresses a
    /// colored pointer can hold.
    pub fn new(control: TheWorldControl, policy: SizingPolicy, base: u64, limit: u64) -> (world:
        Option<TheWorld>)
        ensures
            world.is_some() <==> control.wf() && policy.wf() && base <= limit <= address_limit(),
            world.is_some() ==> world.unwrap()@ == WorldView::empty(
                control,
                policy,
                base as nat,
                limit as nat,
            ),
            world.is_some() ==> world.unwrap()@.wf(),
    {
        if !control.is_valid() || !policy.is_valid() || base > limit || limit > ADDRESS_MASK + 1 {
            return None;
        }
        let world = TheWorld {
            control,
            policy,
            base,
            limit,
            frontier: base,
            occupied: 0,
            regions: Vec::new(),
            forwarding: HashMap::new(),
        };
        assert(world@.regions =~= Seq::empty());
        Some(world)
    }

    /// The tunable parameters the heap was created with.
    pub fn control(&self) -> (control: TheWorldControl)
        ensures
            control == self@.control,
    {
        self.control
    }

    /// The sizing policy the heap was created with.
    pub fn policy(&self) -> (policy: SizingPolicy)
        ensures
            policy == self@.policy,
    {
        self.policy
    }

    /// The bytes of the objects in use.
    pub fn occupied(&self) -> (occupied: u64)
        ensures
            occupied as nat == self@.occupied,
    {
        self.occupied
    }

    /// The capacities of all regions together.
    pub fn capacity(&self) -> (capacity: u64)
        requires
            self@.wf(),
        ensures
            capacity as nat == self@.capacity(),
    {
        self.frontier - self.base
    }

    /// The number of regions the heap has opened.
    pub fn region_count(&self) -> (count: usize)
        ensures
            count as nat == self@.regions.len(),
    {
        self.regions.len()
    }

    /// Look for the region whose extent covers `address`, by bisection over
    /// the regions, which lie in the order of their addresses.
    fn locate(&self, address: u64) -> (found: Option<usize>)
        requires
            self@.wf(),
        ensures
            match found {
                Some(i) => i < self@.regions.len() && self@.regions[i as int].covers(address as int),
                None => !self@.holds(address as int),
            },
    {
        let mut low: usize = 0;
        let mut high: usize = self.regions.len();
        while low < high
            invariant
                self@.wf(),
                low <= high <= self.regions.len(),
                forall|k: int|
                    0 <= k < low ==> (#[trigger] self@.regions[k]).base + self@.regions[k].capacity
                        <= address,
                forall|k: int|
                    high <= k < self.regions.len() ==> (#[trigger] self@.regions[k]).base > address,
            decreases high - low,
        {
            let middle: usize = low + (high - low) / 2;
            let start: u64 = self.regions[middle].base();
            let extent: u64 = self.regions[middle].capacity();
            if address < start {
                assert forall|k: int| middle <= k < self.regions.len() implies (
                #[trigger] self@.regions[k]).base > address by {
                    if middle < k {
                        assert(self@.regions[middle as int].base
                            + self@.regions[middle as int].capacity <= self@.regions[k].base);
                    }
                }
                high = middle;
            } else if address - start >= extent {
                assert forall|k: int| 0 <= k < middle + 1 implies (#[trigger] self@.regions[k]).base
                    + self@.regions[k].capacity <= address by {
                    if k < middle {
                        assert(self@.regions[k].base + self@.regions[k].capacity
                            <= self@.regions[middle as int].base);
                    }
                }
                low = middle + 1;
            } else {
                return Some(middle);
            }
        }
        proof {
            if self@.holds(address as int) {
                lemma_found(self@, address as int);
            }
        }
        None
    }

    /// The kind of the region that has handed `address` out; `None` where
    /// the heap has not handed it out.
    pub fn kind_at(&self, address: u64) -> (kind: Option<RegionKind>)
        requires
            self@.wf(),
        ensures
            kind.is_some() <==> self@.holds(address as int),
            kind.is_some() ==> kind.unwrap() == self@.kind_at(address as int),
    {
        match self.locate(address) {
            Some(i) => {
                proof {
                    lemma_lookup_in(self@, i as int, address as int);
                }
                if self.regions[i].has_handed_out(address) {
                    Some(self.regions[i].kind())
                } else {
                    None
                }
            },
            None => None,
        }
    }

    /// Check a header against the heap. Fails with `PointerOutOfRange` where
    /// no object in use starts at the header's address, and with
    /// `InvalidCast` where one does and the header's size is not its size.
    pub fn validate(&self, object: &GcObject) -> (result: GcResult<()>)
        requires
            self@.wf(),
        ensures
            match result {
                Ok(_) => self@.designates(object@),
                Err(error) => if self@.live(object@.pointer.address as int) {
                    &&& error == GcError::InvalidCast
                    &&& self@.bytes_at(object@.pointer.address as int).len() != object@.size
                } else {
                    error == GcError::PointerOutOfRange
                },
            },
    {
        let address: u64 = object.as_pointer();
        match self.locate(address) {
            Some(i) => {
                proof {
                    lemma_lookup_in(self@, i as int, address as int);
                }
                match self.regions[i].bytes(address) {
                    Some(bytes) => {
                        if bytes.len() == object.size() {
                            Ok(())
                        } else {
                            Err(GcError::InvalidCast)
                        }
                    },
                    None => Err(GcError::PointerOutOfRange),
                }
            },
            None => Err(GcError::PointerOutOfRange),
        }
    }

    /// The number of the first region of the kind for `size` bytes that has
    /// room for them; the number of regions where none has.
    fn first_fit(&self, size: usize) -> (i: usize)
        requires
            self@.wf(),
        ensures
            i as int == self@.first_fit(size as nat),
            i <= self@.regions.len(),
    {
        let kind = self.policy.classify(size);
        let mut i: usize = 0;
        while i < self.regions.len()
            invariant
                self@.wf(),
                i <= self.regions.len(),
                kind == self@.policy.kind_of(size as nat),
                self@.first_fit_from(i as int, size as nat) == self@.first_fit(size as nat),
            decreases self.regions.len() - i,
        {
            if self.regions[i].kind() == kind && self.regions[i].has_room(size) {
                return i;
            }
            i = i + 1;
        }
        i
    }

    /// Whether an object of `size` bytes can be placed: a region of its kind
    /// has room for it, or a region for it can be opened below the limit.
    pub fn has_room(&self, size: usize) -> (room: bool)
        requires
            self@.wf(),
        ensures
            room == self@.can_place(size as nat),
    {
        if self.first_fit(size) < self.regions.len() {
            return true;
        }
        match self.policy.capacity_for(size) {
            Some(capacity) => capacity <= self.limit - self.frontier,
            None => false,
        }
    }

    /// Make ready for an object of `size` bytes: find the first region of
    /// its kind that has room, or open a region for it at the frontier.
    /// Returns the number of that region; `None`, with nothing changed,
    /// where no region has room and none can be opened below the limit.
    fn prepare(&mut self, size: usize) -> (slot: Option<usize>)
        requires
            old(self)@.wf(),
        ensures
            match slot {
                Some(i) => {
                    &&& old(self)@.can_place(size as nat)
                    &&& i as int == old(self)@.first_fit(size as nat)
                    &&& final(self)@ == old(self)@.prepared(size as nat)
                },
                None => !old(self)@.can_place(size as nat) && final(self)@ == old(self)@,
            },
    {
        let kind = self.policy.classify(size);
        let i: usize = self.first_fit(size);
        if i == self.regions.len() {
            let capacity: u64 = match self.policy.capacity_for(size) {
                Some(capacity) => capacity,
                None => {
                    return None;
                },
            };
            if capacity > self.limit - self.frontier {
                return None;
            }
            let region = match Region::new(kind, self.frontier, capacity) {
                Some(region) => region,
                None => unreached(),
            };
            self.regions.push(region);
            self.frontier = self.frontier + capacity;
            assert(self@.regions =~= old(self)@.prepared(size as nat).regions);
        }
        Some(i)
    }

    /// Put an object with the given bytes into the region that was made
    /// ready for it, and return its header.
    fn fill(&mut self, Ghost(origin): Ghost<WorldView>, i: usize, bytes: Vec<u8>) -> (object:
        GcObject)
        requires
            origin.wf(),
            origin.can_place(bytes@.len()),
            i as int == origin.first_fit(bytes@.len()),
            old(self)@ == origin.prepared(bytes@.len()),
        ensures
            final(self)@ == origin.placed(bytes@),
            final(self)@.wf(),
            0 <= origin.placement(bytes@.len()) <= ADDRESS_MASK,
            object@ == (ObjectView {
                pointer: PointerView::fresh(origin.placement(bytes@.len()) as u64),
                size: bytes@.len(),
            }),
            !origin.holds(object@.pointer.address as int),
            final(self)@.designates(object@),
            final(self)@.objects() == origin.objects().insert(
                object@.pointer.address as int,
                bytes@,
            ),
            final(self)@.kind_at(object@.pointer.address as int) == origin.policy.kind_of(
                bytes@.len(),
            ),
            final(self)@.occupied == origin.occupied + bytes@.len(),
            final(self)@.forwarding == origin.forwarding,
    {
        let size: usize = bytes.len();
        proof {
            lemma_first_fit(origin, 0, size as nat);
            lemma_placed_world(origin, bytes@);
            lemma_totals_bound(origin.placed(bytes@).regions);
        }
        let ghost ready = self@;
        let address: u64 = match self.regions[i].place(bytes) {
            Ok(address) => address,
            Err(_) => unreached(),
        };
        self.occupied = self.occupied + size as u64;
        assert(self@.regions =~= ready.regions.update(
            i as int,
            ready.regions[i as int].placed(bytes@),
        ));
        GcObject::with_size(GcPointer::make(address), size)
    }

    /// Take an object with the given bytes: into the first region of the
    /// kind for its size that has room, or into a region opened for it at
    /// the frontier. Returns the header of the object, with a pointer
    /// without flags. Fails with `RegionExhausted`, and changes nothing,
    /// where no region has room and none can be opened below the limit.
    pub fn store(&mut self, bytes: Vec<u8>) -> (result: GcResult<GcObject>)
        requires
            old(self)@.wf(),
        ensures
            final(self)@.wf(),
            match result {
                Ok(object) => {
                    &&& old(self)@.can_place(bytes@.len())
                    &&& 0 <= old(self)@.placement(bytes@.len()) <= ADDRESS_MASK
                    &&& object@ == (ObjectView {
                        pointer: PointerView::fresh(old(self)@.placement(bytes@.len()) as u64),
                        size: bytes@.len(),
                    })
                    &&& final(self)@ == old(self)@.placed(bytes@)
                    &&& !old(self)@.holds(object@.pointer.address as int)
                    &&& final(self)@.designates(object@)
                    &&& final(self)@.objects() == old(self)@.objects().insert(
                        object@.pointer.address as int,
                        bytes@,
                    )
                    &&& final(self)@.kind_at(object@.pointer.address as int)
                        == old(self)@.policy.kind_of(bytes@.len())
                    &&& final(self)@.occupied == old(self)@.occupied + bytes@.len()
                    &&& final(self)@.forwarding == old(self)@.forwarding
                },
                Err(error) => {
                    &&& error == GcError::RegionExhausted
                    &&& !old(self)@.can_place(bytes@.len())
                    &&& final(self)@ == old(self)@
                },
            },
    {
        match self.prepare(bytes.len()) {
            Some(i) => Ok(self.fill(Ghost(old(self)@), i, bytes)),
            None => Err(GcError::RegionExhausted),
        }
    }

    /// Serve a request for `size` bytes: classify it, take the first region
    /// of that kind with room or open a new one, and return the header of
    /// the zeroed storage. The occupancy grows by `size`. Fails with
    /// `RegionExhausted`, and changes nothing, where no region has room and
    /// none can be opened below the limit.
    pub fn allocate(&mut self, size: usize) -> (result: GcResult<GcObject>)
        requires
            old(self)@.wf(),
        ensures
            final(self)@.wf(),
            match result {
                Ok(object) => {
                    &&& old(self)@.can_place(size as nat)
                    &&& 0 <= old(self)@.placement(size as nat) <= ADDRESS_MASK
                    &&& object@ == (ObjectView {
                        pointer: PointerView::fresh(old(self)@.placement(size as nat) as u64),
                        size: size as nat,
                    })
                    &&& final(self)@ == old(self)@.allocated(size as nat)
                    &&& !old(self)@.holds(object@.pointer.address as int)
                    &&& final(self)@.designates(object@)
                    &&& final(self)@.objects() == old(self)@.objects().insert(
                        object@.pointer.address as int,
                        zeros(size as nat),
                    )
                    &&& final(self)@.kind_at(object@.pointer.address as int)
                        == old(self)@.policy.kind_of(size as nat)
                    &&& final(self)@.occupied == old(self)@.occupied + size
                    &&& final(self)@.forwarding == old(self)@.forwarding
                },
                Err(error) => {
                    &&& error == GcError::RegionExhausted
                    &&& !old(self)@.can_place(size as nat)
                    &&& final(self)@ == old(self)@
                },
            },
    {
        match self.prepare(size) {
            Some(i) => {
                let bytes: Vec<u8> = vec![0u8; size];
                assert(bytes@ =~= zeros(size as nat));
                Ok(self.fill(Ghost(old(self)@), i, bytes))
            },
            None => Err(GcError::RegionExhausted),
        }
    }

    /// Take the designated object out of use. The occupancy falls by its
    /// size; its address is not handed out again. Fails with
    /// `PointerOutOfRange` where no object in use starts at the header's
    /// address, and with `InvalidCast` where the header's size is not the
    /// object's size; a failure changes nothing.
    pub fn free(&mut self, object: &GcObject) -> (result: GcResult<()>)
        requires
            old(self)@.wf(),
        ensures
            final(self)@.wf(),
            match result {
                Ok(_) => {
                    &&& old(self)@.designates(object@)
                    &&& final(self)@ == old(self)@.released(object@.pointer.address as int)
                    &&& final(self)@.objects() == old(self)@.objects().remove(
                        object@.pointer.address as int,
                    )
                    &&& final(self)@.occupied == old(self)@.occupied - object@.size
                    &&& final(self)@.forwarding == old(self)@.forwarding
                },
                Err(error) => {
                    &&& final(self)@ == old(self)@
                    &&& if old(self)@.live(object@.pointer.address as int) {
                        &&& error == GcError::InvalidCast
                        &&& old(self)@.bytes_at(object@.pointer.address as int).len()
                            != object@.size
                    } else {
                        error == GcError::PointerOutOfRange
                    }
                },
            },
    {
        match self.validate(object) {
            Ok(_) => {},
            Err(error) => {
                return Err(error);
            },
        }
        self.retire(object.as_pointer());
        Ok(())
    }

    /// Take the object in use at `address` out of use.
    fn retire(&mut self, address: u64)
        requires
            old(self)@.wf(),
            old(self)@.live(address as int),
        ensures
            final(self)@.wf(),
            final(self)@ == old(self)@.released(address as int),
            final(self)@.objects() == old(self)@.objects().remove(address as int),
            final(self)@.occupied == old(self)@.occupied - old(self)@.bytes_at(address as int).len(),
            final(self)@.forwarding == old(self)@.forwarding,
    {
        let i: usize = match self.locate(address) {
            Some(i) => i,
            None => unreached(),
        };
        proof {
            lemma_found(self@, address as int);
            lemma_released_world(self@, address as int);
        }
        let before: u64 = self.regions[i].occupied();
        match self.regions[i].free(address) {
            Ok(_) => {},
            Err(_) => unreached(),
        }
        let after: u64 = self.regions[i].occupied();
        self.occupied = self.occupied - (before - after);
        assert(self@.regions =~= old(self)@.released(address as int).regions);
    }

    /// The bytes of the designated object. Fails with `PointerOutOfRange`
    /// where no object in use starts at the header's address, and with
    /// `InvalidCast` where the header's size is not the object's size.
    pub fn as_bytes(&self, object: &GcObject) -> (result: GcResult<&[u8]>)
        requires
            self@.wf(),
        ensures
            match result {
                Ok(bytes) => {
                    &&& self@.designates(object@)
                    &&& bytes@ == self@.objects()[object@.pointer.address as int]
                    &&& bytes@.len() == object@.size
                },
                Err(error) => if self@.live(object@.pointer.address as int) {
                    &&& error == GcError::InvalidCast
                    &&& self@.bytes_at(object@.pointer.address as int).len() != object@.size
                } else {
                    error == GcError::PointerOutOfRange
                },
            },
    {
        let address: u64 = object.as_pointer();
        match self.locate(address) {
            Some(i) => {
                proof {
                    lemma_lookup_in(self@, i as int, address as int);
                }
                match self.regions[i].bytes(address) {
                    Some(bytes) => {
                        if bytes.len() == object.size() {
                            Ok(bytes)
                        } else {
                            Err(GcError::InvalidCast)
                        }
                    },
                    None => Err(GcError::PointerOutOfRange),
                }
            },
            None => Err(GcError::PointerOutOfRange),
        }
    }

    /// Replace the bytes of the designated object by `data`. Fails with
    /// `PointerOutOfRange` where no object in use starts at the header's
    /// address, and with `InvalidCast` where the header's size, or the
    /// length of `data`, is not the object's size; a failure changes nothing.
    pub fn write(&mut self, object: &GcObject, data: &[u8]) -> (result: GcResult<()>)
        requires
            old(self)@.wf(),
        ensures
            final(self)@.wf(),
            match result {
                Ok(_) => {
                    &&& old(self)@.designates(object@)
                    &&& data@.len() == object@.size
                    &&& final(self)@ == old(self)@.written(object@.pointer.address as int, data@)
                    &&& final(self)@.objects() == old(self)@.objects().insert(
                        object@.pointer.address as int,
                        data@,
                    )
                    &&& final(self)@.occupied == old(self)@.occupied
                    &&& final(self)@.forwarding == old(self)@.forwarding
                },
                Err(error) => {
                    &&& final(self)@ == old(self)@
                    &&& if old(self)@.live(object@.pointer.address as int) {
                        &&& error == GcError::InvalidCast
                        &&& !old(self)@.designates(object@) || data@.len() != object@.size
                    } else {
                        error == GcError::PointerOutOfRange
                    }
                },
            },
    {
        match self.validate(object) {
            Ok(_) => {},
            Err(error) => {
                return Err(error);
            },
        }
        if data.len() != object.size() {
            return Err(GcError::InvalidCast);
        }
        let address: u64 = object.as_pointer();
        let i: usize = match self.locate(address) {
            Some(i) => i,
            None => unreached(),
        };
        proof {
            lemma_found(self@, address as int);
            lemma_written_world(self@, address as int, data@);
        }
        match self.regions[i].write(address, data) {
            Ok(_) => {},
            Err(_) => unreached(),
        }
        assert(self@.regions =~= old(self)@.written(address as int, data@).regions);
        Ok(())
    }

    /// Move the designated object. Where the object was moved before, the
    /// heap stays as it is and the caller adopts the forwarding address
    /// that is there. Where the object lies in a large region, it stays
    /// where it is and its header comes back unchanged. Otherwise a copy of
    /// its bytes is stored as a new object, the old object goes out of use,
    /// and a forwarding entry leads from its address to the copy's.
    ///
    /// Where the object has another address now, the header that was passed
    /// in loses its `remapped` mark, since its address is stale, and the
    /// header that is returned carries the new address and the mark; the
    /// other flags are those of the header that was passed in.
    ///
    /// Fails with `PointerOutOfRange` where the address has no forwarding
    /// entry and no object in use starts at it, with `InvalidCast` where
    /// the header's size is not the object's size, and with
    /// `AllocationFailed` where the copy cannot be stored; a failure
    /// changes nothing.
    pub fn relocate(&mut self, object: &mut GcObject) -> (result: GcResult<GcObject>)
        requires
            old(self)@.wf(),
        ensures
            final(self)@.wf(),
            match result {
                Ok(moved) => if old(self)@.forwarding.contains_key(old(object)@.pointer.address) {
                    &&& final(self)@ == old(self)@
                    &&& moved@ == old(object)@.moved_to(
                        old(self)@.forwarding[old(object)@.pointer.address],
                    )
                    &&& final(object)@ == old(object)@.left_behind()
                } else if old(self)@.policy.kind_of(old(object)@.size) == RegionKind::Large {
                    &&& old(self)@.designates(old(object)@)
                    &&& final(self)@ == old(self)@
                    &&& moved@ == old(object)@
                    &&& final(object)@ == old(object)@
                } else {
                    &&& old(self)@.designates(old(object)@)
                    &&& old(self)@.can_place(old(object)@.size)
                    &&& final(self)@ == old(self)@.relocated(old(object)@.pointer.address as int)
                    &&& moved@ == old(object)@.moved_to(
                        old(self)@.placement(old(object)@.size) as u64,
                    )
                    &&& final(object)@ == old(object)@.left_behind()
                    &&& !old(self)@.holds(moved@.pointer.address as int)
                    &&& final(self)@.designates(moved@)
                    &&& final(self)@.objects() == old(self)@.objects().remove(
                        old(object)@.pointer.address as int,
                    ).insert(
                        moved@.pointer.address as int,
                        old(self)@.objects()[old(object)@.pointer.address as int],
                    )
                    &&& final(self)@.forwarding == old(self)@.forwarding.insert(
                        old(object)@.pointer.address,
                        moved@.pointer.address,
                    )
                    &&& final(self)@.kind_at(moved@.pointer.address as int) != RegionKind::Large
                    &&& final(self)@.occupied == old(self)@.occupied
                },
                Err(error) => {
                    &&& final(self)@ == old(self)@
                    &&& final(object)@ == old(object)@
                    &&& !old(self)@.forwarding.contains_key(old(object)@.pointer.address)
                    &&& if !old(self)@.live(old(object)@.pointer.address as int) {
                        error == GcError::PointerOutOfRange
                    } else if old(self)@.bytes_at(old(object)@.pointer.address as int).len()
                        != old(object)@.size {
                        error == GcError::InvalidCast
                    } else {
                        &&& error == GcError::AllocationFailed
                        &&& old(self)@.policy.kind_of(old(object)@.size) != RegionKind::Large
                        &&& !old(self)@.can_place(old(object)@.size)
                    }
                },
            },
    {
        let address: u64 = object.as_pointer();
        let size: usize = object.size();
        let mut stale: GcPointer = object.head();
        stale.set_remapped(false);
        let mut current: GcPointer = object.head();
        current.set_remapped(true);
        match self.forwarding.get(&address) {
            Some(target) => {
                proof {
                    lemma_found(self@, *target as int);
                }
                current.redirect(*target);
                object.set_head(stale);
                return Ok(GcObject::with_size(current, size));
            },
            None => {},
        }
        match self.validate(object) {
            Ok(_) => {},
            Err(error) => {
                return Err(error);
            },
        }
        if self.policy.classify(size) == RegionKind::Large {
            return Ok(*object);
        }
        if !self.has_room(size) {
            return Err(GcError::AllocationFailed);
        }
        let mut copy: Vec<u8> = Vec::new();
        match self.as_bytes(object) {
            Ok(bytes) => {
                copy.extend_from_slice(bytes);
                assert(copy@ =~= bytes@);
            },
            Err(_) => unreached(),
        }
        proof {
            lemma_relocated_world(self@, address as int);
            lemma_placed_world(self@, copy@);
        }
        let target: u64 = match self.store(copy) {
            Ok(placed) => placed.as_pointer(),
            Err(_) => unreached(),
        };
        self.retire(address);
        self.forwarding.insert(address, target);
        current.redirect(target);
        object.set_head(stale);
        Ok(GcObject::with_size(current, size))
    }

    /// The load barrier, to be passed by every pointer before it is
    /// followed. A pointer marked as remapped is current and stays as it is.
    /// Any other pointer is redirected to the forwarding address where the
    /// object it designates was moved, and is marked as remapped either way.
    pub fn load_barrier(&self, pointer: &mut GcPointer)
        requires
            self@.wf(),
        ensures
            final(pointer)@ == self@.resolve(old(pointer)@),
    {
        if pointer.is_remapped() {
            return ;
        }
        let address: u64 = pointer.as_pointer();
        match self.forwarding.get(&address) {
            Some(target) => {
                proof {
                    assert(self@.forwarding.contains_key(address));
                    lemma_found(self@, *target as int);
                }
                pointer.redirect(*target);
            },
            None => {},
        }
        pointer.set_remapped(true);
    }

    /// Read an object through the load barrier: bring the header's pointer
    /// up to date, then return the bytes of the object it designates. Fails
    /// as `as_bytes` does, on the header as the barrier left it.
    pub fn load(&self, object: &mut GcObject) -> (result: GcResult<&[u8]>)
        requires
            self@.wf(),
        ensures
            final(object)@ == (ObjectView {
                pointer: self@.resolve(old(object)@.pointer),
                size: old(object)@.size,
            }),
            match result {
                Ok(bytes) => {
                    &&& self@.designates(final(object)@)
                    &&& bytes@ == self@.objects()[final(object)@.pointer.address as int]
                },
                Err(error) => if self@.live(final(object)@.pointer.address as int) {
                    &&& error == GcError::InvalidCast
                    &&& self@.bytes_at(final(object)@.pointer.address as int).len()
                        != final(object)@.size
                } else {
                    error == GcError::PointerOutOfRange
                },
            },
    {
        let mut head = object.head();
        self.load_barrier(&mut head);
        object.set_head(head);
        self.as_bytes(object)
    }

    /// The occupied share of the capacity in percent, rounded down; zero
    /// while no region is open.
    pub fn occupancy_fraction(&self) -> (percent: u8)
        requires
            self@.wf(),
        ensures
            percent as nat == self@.occupancy_percent(),
            percent <= 100,
    {
        let capacity: u64 = self.frontier - self.base;
        if capacity == 0 {
            return 0;
        }
        proof {
            lemma_occupancy_is_percentage(self@);
        }
        (self.occupied * 100 / capacity) as u8
    }

    /// Whether the occupancy has reached the share at which a collection
    /// cycle is to start. The heap only gives the signal; to run the cycle
    /// is the caller's business.
    pub fn should_collect(&self) -> (due: bool)
        requires
            self@.wf(),
        ensures
            due == self@.cycle_due(),
    {
        self.control.reached_by(self.occupancy_fraction())
    }
}

} // verus!
