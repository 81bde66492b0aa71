//! The model of the heap: what the heap is as a mathematical value, what
//! each operation makes of it, and the laws that follow.
//!
//! The heap is a row of regions in an address range, a count of occupied
//! bytes, and a map of forwarding addresses. Every operation of the heap is
//! a function from one such value to the next; the lemmas say what the
//! operations keep and what they change.

use vstd::prelude::*;
use crate::barrier::{Flag, ObjectView, PointerView, ADDRESS_MASK};
use crate::gc_head::TheWorldControl;
use crate::region::{
    address_limit, lemma_holds_below_top, lemma_placed, lemma_released, lemma_written, zeros,
    BlockView, RegionView,
};
use crate::sizing::{round_up, RegionKind, SizingPolicy};

verus! {


/// The occupied bytes of all `regions` together.
pub open spec fn total_occupied(regions: Seq<RegionView>) -> nat
    decreases regions.len(),
{
    if regions.len() == 0 {
        0
    } else {
        total_occupied(regions.drop_last()) + regions.last().occupied
    }
}

/// The capacities of all `regions` together.
pub open spec fn total_capacity(regions: Seq<RegionView>) -> nat
    decreases regions.len(),
{
    if regions.len() == 0 {
        0
    } else {
        total_capacity(regions.drop_last()) + regions.last().capacity
    }
}

/// What the heap knows of an address it has handed out.
pub struct Found {
    /// The number of the region the address lies in.
    pub region: int,
    /// The kind of that region.
    pub kind: RegionKind,
    /// The record of the object that starts at the address.
    pub block: BlockView,
}

/// A region's record of an address, seen from the heap.
pub open spec fn lift(region: int, kind: RegionKind, block: Option<BlockView>) -> Option<Found> {
    match block {
        Some(block) => Some(Found { region, kind, block }),
        None => None,
    }
}

/// Whether the region numbered `i` of `regions` has handed `address` out.
pub open spec fn held_in(regions: Seq<RegionView>, i: int, address: int) -> bool {
    0 <= i < regions.len() && regions[i].holds(address)
}

/// Whether one of `regions` has handed `address` out.
pub open spec fn held(regions: Seq<RegionView>, address: int) -> bool {
    exists|i: int| held_in(regions, i, address)
}

/// The number of the region among `regions` that has handed `address` out.
pub open spec fn holder(regions: Seq<RegionView>, address: int) -> int {
    choose|i: int| held_in(regions, i, address)
}

/// What `regions` know of `address`, if one of them has handed it out.
pub open spec fn find(regions: Seq<RegionView>, address: int) -> Option<Found> {
    if held(regions, address) {
        lift(
            holder(regions, address),
            regions[holder(regions, address)].kind,
            regions[holder(regions, address)].lookup(address),
        )
    } else {
        None
    }
}

/// What the heap is: its parameters, the address range it may use, the
/// regions it has opened in that range, one after another, and the
/// forwarding addresses of the objects that were moved.
pub struct WorldView {
    pub control: TheWorldControl,
    pub policy: SizingPolicy,
    /// The first address the heap may use.
    pub base: nat,
    /// One past the last address the heap may use.
    pub limit: nat,
    /// The address at which the next region opens.
    pub frontier: nat,
    /// The running count of the bytes of the objects in use.
    pub occupied: nat,
    pub regions: Seq<RegionView>,
    /// From the address an object was moved away from to the address it was moved to.
    pub forwarding: Map<u64, u64>,
}

impl WorldView {
    /// Whether the region numbered `i` has handed `address` out.
    pub open spec fn holds_in(self, i: int, address: int) -> bool {
        held_in(self.regions, i, address)
    }

    /// Whether the heap has handed `address` out, to an object in use or not.
    pub open spec fn holds(self, address: int) -> bool {
        held(self.regions, address)
    }

    /// The number of the region that has handed `address` out.
    pub open spec fn region_of(self, address: int) -> int {
        holder(self.regions, address)
    }

    /// What the heap knows of `address`, if it has handed it out.
    pub open spec fn lookup(self, address: int) -> Option<Found> {
        find(self.regions, address)
    }

    /// Whether an object in use starts at `address`.
    pub open spec fn live(self, address: int) -> bool {
        self.lookup(address) matches Some(found) && found.block.live
    }

    /// Whether an object that is no longer in use starts at `address`.
    pub open spec fn retired(self, address: int) -> bool {
        self.lookup(address) matches Some(found) && !found.block.live
    }

    /// Whether `address` was handed out by a region that is not large.
    pub open spec fn settled(self, address: int) -> bool {
        self.lookup(address) matches Some(found) && found.kind != RegionKind::Large
    }

    /// The bytes of the object that starts at `address`.
    pub open spec fn bytes_at(self, address: int) -> Seq<u8> {
        self.lookup(address).unwrap().block.bytes
    }

    /// The size of the object that starts at `address`.
    pub open spec fn size_at(self, address: int) -> nat {
        self.lookup(address).unwrap().block.size
    }

    /// The kind of the region that `address` lies in.
    pub open spec fn kind_at(self, address: int) -> RegionKind {
        self.lookup(address).unwrap().kind
    }

    /// The objects in use: their bytes, by their addresses.
    pub open spec fn objects(self) -> Map<int, Seq<u8>> {
        Map::new(|address: int| self.live(address), |address: int| self.bytes_at(address))
    }

    /// Whether the header designates an object in use, with its true size.
    pub open spec fn designates(self, object: ObjectView) -> bool {
        &&& self.live(object.pointer.address as int)
        &&& self.bytes_at(object.pointer.address as int).len() == object.size
    }

    /// The capacities of all regions together.
    pub open spec fn capacity(self) -> nat {
        total_capacity(self.regions)
    }

    /// The occupied share of the capacity in percent, rounded down; zero
    /// while no region is open.
    pub open spec fn occupancy_percent(self) -> nat {
        if self.capacity() == 0 {
            0
        } else {
            self.occupied * 100 / self.capacity()
        }
    }

    /// Whether the occupancy has reached the share at which a collection
    /// cycle is to start.
    pub open spec fn cycle_due(self) -> bool {
        self.occupancy_percent() >= self.control.initiating_heap_occupancy_percent
    }

    /// The layout of the heap: valid parameters, valid regions that lie one
    /// after another between the base and the frontier, and counters that
    /// are the sums over the regions.
    pub open spec fn wf_layout(self) -> bool {
        &&& self.control.wf()
        &&& self.policy.wf()
        &&& self.base <= self.frontier <= self.limit <= address_limit()
        &&& forall|i: int| 0 <= i < self.regions.len() ==> (#[trigger] self.regions[i]).wf()
        &&& forall|i: int|
            0 <= i < self.regions.len() ==> self.base <= (#[trigger] self.regions[i]).base
                && self.regions[i].base + self.regions[i].capacity <= self.frontier
        &&& forall|i: int, j: int|
            0 <= i < j < self.regions.len() ==> (#[trigger] self.regions[i]).base
                + self.regions[i].capacity <= (#[trigger] self.regions[j]).base
        &&& total_capacity(self.regions) == self.frontier - self.base
        &&& self.occupied == total_occupied(self.regions)
    }

    /// Whether a region agrees with the sizing policy: it has the capacity
    /// of its kind, it holds objects of its size class only, and a large
    /// region holds one object and is cut to fit it.
    pub open spec fn class_ok(self, region: RegionView) -> bool {
        &&& forall|j: int|
            0 <= j < region.blocks.len() ==> self.policy.kind_of(
                (#[trigger] region.blocks[j]).size,
            ) == region.kind
        &&& match region.kind {
            RegionKind::Small => region.capacity == self.policy.small_capacity,
            RegionKind::Medium => region.capacity == self.policy.medium_capacity,
            RegionKind::Large => region.blocks.len() == 1 && region.capacity == round_up(
                region.blocks[0].size,
                self.policy.large_unit as nat,
            ),
        }
    }

    /// Every region agrees with the sizing policy.
    pub open spec fn wf_classes(self) -> bool {
        forall|i: int| 0 <= i < self.regions.len() ==> self.class_ok(#[trigger] self.regions[i])
    }

    /// Every forwarding entry leads from an object that is out of use to an
    /// address in a region that is not large.
    pub open spec fn wf_forwarding(self) -> bool {
        forall|from: u64| #[trigger]
            self.forwarding.contains_key(from) ==> self.retired(from as int) && self.settled(
                self.forwarding[from] as int,
            )
    }

    /// The invariant of the heap.
    pub open spec fn wf(self) -> bool {
        &&& self.wf_layout()
        &&& self.wf_classes()
        &&& self.wf_forwarding()
    }

    /// A heap without regions.
    pub open spec fn empty(
        control: TheWorldControl,
        policy: SizingPolicy,
        base: nat,
        limit: nat,
    ) -> WorldView {
        WorldView {
            control,
            policy,
            base,
            limit,
            frontier: base,
            occupied: 0,
            regions: Seq::empty(),
            forwarding: Map::empty(),
        }
    }

    /// The heap with the region numbered `i` replaced.
    pub open spec fn with_region(self, i: int, region: RegionView) -> WorldView {
        WorldView {
            occupied: (self.occupied - self.regions[i].occupied + region.occupied) as nat,
            regions: self.regions.update(i, region),
            ..self
        }
    }

    /// The heap with one more region, empty, opened at the frontier.
    pub open spec fn opened(self, kind: RegionKind, capacity: nat) -> WorldView {
        WorldView {
            frontier: self.frontier + capacity,
            regions: self.regions.push(RegionView::empty(kind, self.frontier, capacity)),
            ..self
        }
    }

    /// Whether the region numbered `i` is of the kind for `size` bytes and
    /// has room for them.
    pub open spec fn fits(self, i: int, size: nat) -> bool {
        &&& 0 <= i < self.regions.len()
        &&& self.regions[i].kind == self.policy.kind_of(size)
        &&& self.regions[i].room_for(size)
    }

    /// The number of the first region from `start` on that fits `size`
    /// bytes; the number of regions where none does.
    pub open spec fn first_fit_from(self, start: int, size: nat) -> int
        decreases self.regions.len() - start,
    {
        if start < 0 || start >= self.regions.len() {
            self.regions.len() as int
        } else if self.fits(start, size) {
            start
        } else {
            self.first_fit_from(start + 1, size)
        }
    }

    /// The number of the first region that fits `size` bytes; the number of
    /// regions where none does.
    pub open spec fn first_fit(self, size: nat) -> int {
        self.first_fit_from(0, size)
    }

    /// Whether an object of `size` bytes can be placed: a region fits it, or
    /// a region for it can be opened below the limit.
    pub open spec fn can_place(self, size: nat) -> bool {
        ||| self.first_fit(size) < self.regions.len()
        ||| self.frontier + self.policy.capacity_of(size) <= self.limit
    }

    /// The heap ready to take an object of `size` bytes in the region
    /// numbered `first_fit(size)`: as it is where a region fits, with a new
    /// region otherwise.
    pub open spec fn prepared(self, size: nat) -> WorldView {
        if self.first_fit(size) < self.regions.len() {
            self
        } else {
            self.opened(self.policy.kind_of(size), self.policy.capacity_of(size))
        }
    }

    /// The address the next object of `size` bytes gets: the watermark of
    /// the first region that fits it, or the frontier where none does.
    pub open spec fn placement(self, size: nat) -> int {
        self.prepared(size).regions[self.first_fit(size)].next_address()
    }

    /// The heap after it has taken an object with the bytes `bytes`.
    pub open spec fn placed(self, bytes: Seq<u8>) -> WorldView {
        self.prepared(bytes.len()).with_region(
            self.first_fit(bytes.len()),
            self.prepared(bytes.len()).regions[self.first_fit(bytes.len())].placed(bytes),
        )
    }

    /// The heap after it has handed out `size` zeroed bytes.
    pub open spec fn allocated(self, size: nat) -> WorldView {
        self.placed(zeros(size))
    }

    /// The heap after the object at `address` went out of use.
    pub open spec fn released(self, address: int) -> WorldView {
        self.with_region(
            self.region_of(address),
            self.regions[self.region_of(address)].released(address),
        )
    }

    /// The heap after the object at `address` took the bytes `data`.
    pub open spec fn written(self, address: int, data: Seq<u8>) -> WorldView {
        self.with_region(
            self.region_of(address),
            self.regions[self.region_of(address)].written(address, data),
        )
    }

    /// The heap after the object at `address` was moved: a copy of its bytes
    /// is placed, the old object goes out of use, and a forwarding entry leads
    /// from the old address to the new one.
    pub open spec fn relocated(self, address: int) -> WorldView {
        WorldView {
            forwarding: self.forwarding.insert(
                address as u64,
                self.placement(self.bytes_at(address).len()) as u64,
            ),
            ..self.placed(self.bytes_at(address)).released(address)
        }
    }

    /// What the load barrier makes of a pointer: a pointer marked as
    /// remapped is taken as it is; another one is redirected where its
    /// address has a forwarding entry, and is marked as remapped either way.
    pub open spec fn resolve(self, pointer: PointerView) -> PointerView {
        if pointer.remapped {
            pointer
        } else if self.forwarding.contains_key(pointer.address) {
            pointer.with_address(self.forwarding[pointer.address]).with_flag(Flag::Remapped, true)
        } else {
            pointer.with_flag(Flag::Remapped, true)
        }
    }
}

/// A region that was appended counts with its occupied bytes and its capacity.
pub proof fn lemma_totals_push(regions: Seq<RegionView>, region: RegionView)
    ensures
        total_occupied(regions.push(region)) == total_occupied(regions) + region.occupied,
        total_capacity(regions.push(region)) == total_capacity(regions) + region.capacity,
{
    assert(regions.push(region).drop_last() =~= regions);
}

/// Replacing one region changes the sums by the differences.
pub proof fn lemma_totals_update(regions: Seq<RegionView>, i: int, region: RegionView)
    requires
        0 <= i < regions.len(),
    ensures
        regions[i].occupied <= total_occupied(regions),
        regions[i].capacity <= total_capacity(regions),
        total_occupied(regions.update(i, region)) == total_occupied(regions) - regions[i].occupied
            + region.occupied,
        total_capacity(regions.update(i, region)) == total_capacity(regions) - regions[i].capacity
            + region.capacity,
    decreases regions.len(),
{
    if i == regions.len() - 1 {
        assert(regions.update(i, region).drop_last() =~= regions.drop_last());
    } else {
        lemma_totals_update(regions.drop_last(), i, region);
        assert(regions.update(i, region).drop_last() =~= regions.drop_last().update(i, region));
    }
}

/// Valid regions together occupy no more than their capacities together.
pub proof fn lemma_totals_bound(regions: Seq<RegionView>)
    requires
        forall|i: int| 0 <= i < regions.len() ==> (#[trigger] regions[i]).wf(),
    ensures
        total_occupied(regions) <= total_capacity(regions),
    decreases regions.len(),
{
    if regions.len() > 0 {
        lemma_totals_bound(regions.drop_last());
    }
}

/// Within the extent of a region, the heap knows of an address what that
/// region knows of it.
pub proof fn lemma_lookup_in(world: WorldView, i: int, address: int)
    requires
        world.wf_layout(),
        0 <= i < world.regions.len(),
        world.regions[i].covers(address),
    ensures
        world.lookup(address) == lift(i, world.regions[i].kind, world.regions[i].lookup(address)),
        world.base <= address < world.frontier,
{
    if world.holds(address) {
        let k = world.region_of(address);
        lemma_holds_below_top(world.regions[k], address);
    } else {
        assert(!world.holds_in(i, address));
    }
}

/// An address that the heap has handed out lies within the region that the
/// heap names for it, and within the range of a colored pointer.
pub proof fn lemma_found(world: WorldView, address: int)
    requires
        world.wf_layout(),
        world.holds(address),
    ensures
        0 <= world.region_of(address) < world.regions.len(),
        world.regions[world.region_of(address)].holds(address),
        world.regions[world.region_of(address)].covers(address),
        world.lookup(address).is_some(),
        world.base <= address < world.frontier,
        address <= ADDRESS_MASK,
{
    let k = world.region_of(address);
    lemma_holds_below_top(world.regions[k], address);
}

/// Replacing a region by one of the same kind and extent keeps the layout,
/// and changes what the heap knows of an address within that extent only.
pub proof fn lemma_with_region(world: WorldView, i: int, region: RegionView)
    requires
        world.wf_layout(),
        0 <= i < world.regions.len(),
        region.wf(),
        region.base == world.regions[i].base,
        region.capacity == world.regions[i].capacity,
        region.kind == world.regions[i].kind,
    ensures
        world.with_region(i, region).wf_layout(),
        world.with_region(i, region).occupied + world.regions[i].occupied == world.occupied
            + region.occupied,
        forall|address: int| #[trigger]
            world.with_region(i, region).lookup(address) == (if world.regions[i].covers(address) {
                lift(i, region.kind, region.lookup(address))
            } else {
                world.lookup(address)
            }),
{
    let after = world.with_region(i, region);
    lemma_totals_update(world.regions, i, region);
    assert forall|address: int| #[trigger]
        after.lookup(address) == (if world.regions[i].covers(address) {
            lift(i, region.kind, region.lookup(address))
        } else {
            world.lookup(address)
        }) by {
        if world.regions[i].covers(address) {
            lemma_lookup_in(after, i, address);
        } else if world.holds(address) {
            lemma_found(world, address);
            let k = world.region_of(address);
            lemma_lookup_in(after, k, address);
        } else if after.holds(address) {
            lemma_found(after, address);
            let k = after.region_of(address);
            assert(world.holds_in(k, address));
        }
    }
}

/// Opening an empty region at the frontier keeps the layout and changes
/// nothing that the heap knows of any address.
pub proof fn lemma_opened(world: WorldView, kind: RegionKind, capacity: nat)
    requires
        world.wf_layout(),
        world.frontier + capacity <= world.limit,
    ensures
        world.opened(kind, capacity).wf_layout(),
        forall|address: int| #[trigger]
            world.opened(kind, capacity).lookup(address) == world.lookup(address),
{
    let after = world.opened(kind, capacity);
    let region = RegionView::empty(kind, world.frontier, capacity);
    let last = world.regions.len() as int;
    lemma_totals_push(world.regions, region);
    assert forall|address: int| #[trigger] after.lookup(address) == world.lookup(address) by {
        if world.holds(address) {
            lemma_found(world, address);
            let k = world.region_of(address);
            lemma_lookup_in(after, k, address);
        } else if after.holds(address) {
            let k = after.region_of(address);
            if k < last {
                assert(world.holds_in(k, address));
            }
        }
    }
}

/// The first fit is what its name says: no region before it fits, and it
/// fits itself unless it is past the last region.
pub proof fn lemma_first_fit(world: WorldView, start: int, size: nat)
    requires
        0 <= start <= world.regions.len(),
    ensures
        start <= world.first_fit_from(start, size) <= world.regions.len(),
        world.first_fit_from(start, size) < world.regions.len() ==> world.fits(
            world.first_fit_from(start, size),
            size,
        ),
        forall|k: int| start <= k < world.first_fit_from(start, size) ==> !world.fits(k, size),
    decreases world.regions.len() - start,
{
    if start < world.regions.len() && !world.fits(start, size) {
        lemma_first_fit(world, start + 1, size);
    }
}

/// What placing an object does. The heap stays valid. The object gets an
/// address that the heap had not handed out before, in a region of the kind
/// for its size; it is in use there with the given bytes. Nothing else that
/// the heap knows of any address changes: the other objects in use and their
/// bytes stay, and so do the forwarding entries. The occupancy grows by the
/// size of the object; the capacity grows only where a region was opened.
pub proof fn lemma_placed_world(world: WorldView, bytes: Seq<u8>)
    requires
        world.wf(),
        world.can_place(bytes.len()),
    ensures
        world.placed(bytes).wf(),
        world.lookup(world.placement(bytes.len())).is_none(),
        world.base <= world.placement(bytes.len()) < world.limit,
        forall|address: int| #[trigger]
            world.placed(bytes).lookup(address) == (if address == world.placement(bytes.len()) {
                Some(
                    Found {
                        region: world.first_fit(bytes.len()),
                        kind: world.policy.kind_of(bytes.len()),
                        block: BlockView::holding(
                            world.prepared(bytes.len()).regions[world.first_fit(bytes.len())].top,
                            bytes,
                        ),
                    },
                )
            } else {
                world.lookup(address)
            }),
        world.placed(bytes).objects() == world.objects().insert(
            world.placement(bytes.len()),
            bytes,
        ),
        world.placed(bytes).occupied == world.occupied + bytes.len(),
        world.placed(bytes).forwarding == world.forwarding,
        world.placed(bytes).base == world.base,
        world.placed(bytes).limit == world.limit,
        world.placed(bytes).control == world.control,
        world.placed(bytes).policy == world.policy,
        world.placed(bytes).frontier == (if world.first_fit(bytes.len()) < world.regions.len() {
            world.frontier
        } else {
            world.frontier + world.policy.capacity_of(bytes.len())
        }),
{
    let size = bytes.len();
    let i = world.first_fit(size);
    let ready = world.prepared(size);
    let region = ready.regions[i];
    let after = world.placed(bytes);
    let fresh = world.placement(size);
    lemma_first_fit(world, 0, size);
    if i == world.regions.len() {
        lemma_opened(world, world.policy.kind_of(size), world.policy.capacity_of(size));
    }
    lemma_placed(region, bytes);
    lemma_with_region(ready, i, region.placed(bytes));
    lemma_lookup_in(ready, i, fresh);
    assert forall|address: int| #[trigger]
        after.lookup(address) == (if address == fresh {
            Some(
                Found {
                    region: i,
                    kind: world.policy.kind_of(size),
                    block: BlockView::holding(region.top, bytes),
                },
            )
        } else {
            world.lookup(address)
        }) by {
        if region.covers(address) {
            lemma_lookup_in(ready, i, address);
        }
    }
    assert(after.wf_classes()) by {
        assert forall|k: int| 0 <= k < after.regions.len() implies after.class_ok(
            #[trigger] after.regions[k],
        ) by {
            if k == i {
                let grown = region.placed(bytes);
                assert forall|j: int| 0 <= j < grown.blocks.len() implies world.policy.kind_of(
                    (#[trigger] grown.blocks[j]).size,
                ) == grown.kind by {}
            }
        }
    }
    assert(after.wf_forwarding()) by {
        assert forall|from: u64| #[trigger] after.forwarding.contains_key(from) implies after.retired(
            from as int,
        ) && after.settled(after.forwarding[from] as int) by {
            assert(after.lookup(world.forwarding[from] as int) == world.lookup(
                world.forwarding[from] as int,
            ));
        }
    }
}

/// What releasing an object does. The heap stays valid. The object at
/// `address` is out of use; its address stays handed out. Every other
/// object and every forwarding entry stays. The occupancy falls by the size
/// of the object; the capacity stays.
pub proof fn lemma_released_world(world: WorldView, address: int)
    requires
        world.wf(),
        world.live(address),
    ensures
        world.released(address).wf(),
        world.bytes_at(address).len() <= world.occupied,
        world.bytes_at(address).len() == world.size_at(address),
        forall|other: int| #[trigger]
            world.released(address).lookup(other) == (if other == address {
                Some(
                    Found {
                        block: world.lookup(address).unwrap().block.dropped(),
                        ..world.lookup(address).unwrap()
                    },
                )
            } else {
                world.lookup(other)
            }),
        world.released(address).objects() == world.objects().remove(address),
        world.released(address).occupied == world.occupied - world.bytes_at(address).len(),
        world.released(address) == (WorldView {
            occupied: world.released(address).occupied,
            regions: world.released(address).regions,
            ..world
        }),
{
    let i = world.region_of(address);
    let region = world.regions[i];
    let after = world.released(address);
    lemma_released(region, address);
    lemma_with_region(world, i, region.released(address));
    assert forall|other: int| #[trigger]
        after.lookup(other) == (if other == address {
            Some(
                Found {
                    block: world.lookup(address).unwrap().block.dropped(),
                    ..world.lookup(address).unwrap()
                },
            )
        } else {
            world.lookup(other)
        }) by {
        if region.covers(other) {
            lemma_lookup_in(world, i, other);
        }
    }
    assert(after.wf_classes()) by {
        assert forall|k: int| 0 <= k < after.regions.len() implies after.class_ok(
            #[trigger] after.regions[k],
        ) by {
            if k == i {
                let shrunk = region.released(address);
                assert forall|j: int| 0 <= j < shrunk.blocks.len() implies world.policy.kind_of(
                    (#[trigger] shrunk.blocks[j]).size,
                ) == shrunk.kind by {}
            }
        }
    }
    assert(after.wf_forwarding()) by {
        assert forall|from: u64| #[trigger] after.forwarding.contains_key(from) implies after.retired(
            from as int,
        ) && after.settled(after.forwarding[from] as int) by {
            assert(after.lookup(world.forwarding[from] as int) == after.lookup(
                world.forwarding[from] as int,
            ));
        }
    }
}

/// What overwriting an object does. The heap stays valid. The object at
/// `address` has the new bytes. Every other object and every forwarding
/// entry stays, and so do the occupancy and the capacity.
pub proof fn lemma_written_world(world: WorldView, address: int, data: Seq<u8>)
    requires
        world.wf(),
        world.live(address),
        data.len() == world.bytes_at(address).len(),
    ensures
        world.written(address, data).wf(),
        forall|other: int| #[trigger]
            world.written(address, data).lookup(other) == (if other == address {
                Some(
                    Found {
                        block: world.lookup(address).unwrap().block.filled(data),
                        ..world.lookup(address).unwrap()
                    },
                )
            } else {
                world.lookup(other)
            }),
        world.written(address, data).objects() == world.objects().insert(address, data),
        world.written(address, data) == (WorldView {
            regions: world.written(address, data).regions,
            ..world
        }),
{
    let i = world.region_of(address);
    let region = world.regions[i];
    let after = world.written(address, data);
    lemma_written(region, address, data);
    lemma_with_region(world, i, region.written(address, data));
    assert forall|other: int| #[trigger]
        after.lookup(other) == (if other == address {
            Some(
                Found {
                    block: world.lookup(address).unwrap().block.filled(data),
                    ..world.lookup(address).unwrap()
                },
            )
        } else {
            world.lookup(other)
        }) by {
        if region.covers(other) {
            lemma_lookup_in(world, i, other);
        }
    }
    assert(after.wf_classes()) by {
        assert forall|k: int| 0 <= k < after.regions.len() implies after.class_ok(
            #[trigger] after.regions[k],
        ) by {
            if k == i {
                let changed = region.written(address, data);
                assert forall|j: int| 0 <= j < changed.blocks.len() implies world.policy.kind_of(
                    (#[trigger] changed.blocks[j]).size,
                ) == changed.kind by {}
            }
        }
    }
    assert(after.wf_forwarding()) by {
        assert forall|from: u64| #[trigger] after.forwarding.contains_key(from) implies after.retired(
            from as int,
        ) && after.settled(after.forwarding[from] as int) by {
            assert(after.lookup(world.forwarding[from] as int) == after.lookup(
                world.forwarding[from] as int,
            ));
        }
    }
}

/// In a valid heap every object lies in a region of the kind for its size.
pub proof fn lemma_kind_of_object(world: WorldView, address: int)
    requires
        world.wf(),
        world.holds(address),
    ensures
        world.kind_at(address) == world.policy.kind_of(world.size_at(address)),
        world.live(address) ==> world.bytes_at(address).len() == world.size_at(address),
{
    let i = world.region_of(address);
    let j = world.regions[i].index_of(address);
    assert(world.class_ok(world.regions[i]));
    assert(world.regions[i].blocks[j].wf());
}

/// Adding a forwarding entry that leads from an object out of use to an
/// address in a region that is not large keeps the heap valid and its
/// objects as they are.
pub proof fn lemma_forwarded(world: WorldView, from: u64, to: u64)
    requires
        world.wf(),
        world.retired(from as int),
        world.settled(to as int),
    ensures
        (WorldView { forwarding: world.forwarding.insert(from, to), ..world }).wf(),
        (WorldView { forwarding: world.forwarding.insert(from, to), ..world }).objects()
            == world.objects(),
{
    let after = WorldView { forwarding: world.forwarding.insert(from, to), ..world };
    assert forall|k: int| 0 <= k < after.regions.len() implies after.class_ok(
        #[trigger] after.regions[k],
    ) by {}
}

/// What moving an object does. The heap stays valid. A copy of the object,
/// with the same bytes, is in use at an address that the heap had not
/// handed out before, in a region that is not large; the old object is out of
/// use. A forwarding entry leads from the old address to the new one. Every
/// other object and every other forwarding entry stays, and so does the
/// occupancy.
pub proof fn lemma_relocated_world(world: WorldView, address: int)
    requires
        world.wf(),
        world.live(address),
        world.kind_at(address) != RegionKind::Large,
        world.can_place(world.bytes_at(address).len()),
    ensures
        world.relocated(address).wf(),
        0 <= address <= ADDRESS_MASK,
        0 <= world.placement(world.bytes_at(address).len()) <= ADDRESS_MASK,
        !world.forwarding.contains_key(address as u64),
        world.lookup(world.placement(world.bytes_at(address).len())).is_none(),
        world.relocated(address).objects() == world.objects().remove(address).insert(
            world.placement(world.bytes_at(address).len()),
            world.bytes_at(address),
        ),
        world.relocated(address).forwarding == world.forwarding.insert(
            address as u64,
            world.placement(world.bytes_at(address).len()) as u64,
        ),
        world.relocated(address).retired(address),
        world.relocated(address).settled(world.placement(world.bytes_at(address).len())),
        world.relocated(address).live(world.placement(world.bytes_at(address).len())),
        world.relocated(address).bytes_at(world.placement(world.bytes_at(address).len()))
            == world.bytes_at(address),
        world.relocated(address).occupied == world.occupied,
        world.relocated(address).base == world.base,
        world.relocated(address).limit == world.limit,
        world.relocated(address).control == world.control,
        world.relocated(address).policy == world.policy,
{
    let bytes = world.bytes_at(address);
    let target = world.placement(bytes.len());
    let copied = world.placed(bytes);
    let moved = copied.released(address);
    lemma_found(world, address);
    lemma_placed_world(world, bytes);
    lemma_released_world(copied, address);
    lemma_forwarded(moved, address as u64, target as u64);
    assert(world.objects().insert(target, bytes).remove(address) =~= world.objects().remove(
        address,
    ).insert(target, bytes));
}

/// The load barrier heals a pointer once and for all: what it returns is
/// marked as remapped, and the barrier leaves such a pointer as it is.
pub proof fn lemma_resolve_idempotent(world: WorldView, pointer: PointerView)
    ensures
        world.resolve(pointer).remapped,
        world.resolve(world.resolve(pointer)) == world.resolve(pointer),
        pointer.remapped ==> world.resolve(pointer) == pointer,
        world.resolve(pointer).finalizable == pointer.finalizable,
        world.resolve(pointer).marked0 == pointer.marked0,
        world.resolve(pointer).marked1 == pointer.marked1,
{
}

/// Once an object was moved, the load barrier leads every pointer that
/// still carries the old address, and is not marked as remapped, to the new
/// address. However many readers pass the barrier, and however often the
/// object is offered for moving again, they all arrive at that one address.
pub proof fn lemma_forwarded_readers_agree(world: WorldView, first: PointerView, second: PointerView)
    requires
        world.forwarding.contains_key(first.address),
        first.address == second.address,
        !first.remapped,
        !second.remapped,
    ensures
        world.resolve(first).address == world.forwarding[first.address],
        world.resolve(second).address == world.resolve(first).address,
{
}

/// A forwarding entry never leads into a large region: the address it
/// leads to was handed out by a region that is small or medium.
pub proof fn lemma_never_into_large(world: WorldView, from: u64)
    requires
        world.wf(),
        world.forwarding.contains_key(from),
    ensures
        world.holds(world.forwarding[from] as int),
        world.kind_at(world.forwarding[from] as int) != RegionKind::Large,
        world.forwarding[from] <= ADDRESS_MASK,
        !world.live(from as int),
{
    lemma_found(world, world.forwarding[from] as int);
}

/// Every address that was handed out belongs to exactly one region.
pub proof fn lemma_one_region_per_object(world: WorldView, i: int, j: int, address: int)
    requires
        world.wf(),
        world.holds_in(i, address),
        world.holds_in(j, address),
    ensures
        i == j,
        i == world.region_of(address),
{
    lemma_holds_below_top(world.regions[i], address);
    lemma_holds_below_top(world.regions[j], address);
    lemma_lookup_in(world, i, address);
}

/// The heap never counts more bytes as occupied than its regions can hold,
/// so that the occupancy is a percentage.
pub proof fn lemma_occupancy_is_percentage(world: WorldView)
    requires
        world.wf(),
    ensures
        world.occupied <= world.capacity(),
        world.occupancy_percent() <= 100,
{
    lemma_totals_bound(world.regions);
    if world.capacity() > 0 {
        let occupied = world.occupied as int;
        let capacity = world.capacity() as int;
        assert(occupied * 100 / capacity <= 100) by (nonlinear_arith)
            requires
                0 <= occupied <= capacity,
                capacity > 0,
        ;
    }
}

} // verus!
