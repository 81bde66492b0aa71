//! Regions: contiguous stretches of the heap's address range that hand out
//! space by advancing a watermark and keep the bytes of their objects.
//!
//! A region never hands an address out twice. Releasing an object gives its
//! bytes back, lowers the count of occupied bytes and leaves the watermark
//! where it is, so that an address which a stale pointer may still carry is
//! never given to another object.

use vstd::prelude::*;
use crate::barrier::ADDRESS_MASK;
use crate::errors::{GcError, GcResult};
use crate::sizing::RegionKind;

verus! {

/// One past the highest address a colored pointer can hold.
pub open spec fn address_limit() -> nat {
    (ADDRESS_MASK + 1) as nat
}

/// The address space an object of `size` bytes takes: its size, and one
/// byte for an empty object, so that no two objects share an address.
pub open spec fn footprint_of(size: nat) -> nat {
    if size == 0 {
        1
    } else {
        size
    }
}

/// `size` bytes of zero.
pub open spec fn zeros(size: nat) -> Seq<u8> {
    Seq::new(size, |i: int| 0u8)
}

/// What a region records of one object it has handed out.
pub struct BlockView {
    /// Distance of the object from the region's base.
    pub offset: nat,
    /// The size of the object in bytes.
    pub size: nat,
    /// The object's bytes while it is in use; none afterwards.
    pub bytes: Seq<u8>,
    /// Whether the object is still in use.
    pub live: bool,
}

impl BlockView {
    /// An object in use has as many bytes as its size says; an object out
    /// of use has none.
    pub open spec fn wf(self) -> bool {
        self.bytes.len() == (if self.live {
            self.size
        } else {
            0
        })
    }

    /// The offset just past the object.
    pub open spec fn end(self) -> nat {
        self.offset + footprint_of(self.size)
    }

    /// The bytes the object contributes to the occupancy of its region.
    pub open spec fn weight(self) -> nat {
        if self.live {
            self.size
        } else {
            0
        }
    }

    /// The record of an object with the given bytes, in use at `offset`.
    pub open spec fn holding(offset: nat, bytes: Seq<u8>) -> BlockView {
        BlockView { offset, size: bytes.len(), bytes, live: true }
    }

    /// The record of the object once it is out of use.
    pub open spec fn dropped(self) -> BlockView {
        BlockView { bytes: Seq::empty(), live: false, ..self }
    }

    /// The record of the object with other bytes.
    pub open spec fn filled(self, bytes: Seq<u8>) -> BlockView {
        BlockView { bytes, ..self }
    }
}

/// The bytes of the live objects among `blocks`.
pub open spec fn live_bytes(blocks: Seq<BlockView>) -> nat
    decreases blocks.len(),
{
    if blocks.len() == 0 {
        0
    } else {
        live_bytes(blocks.drop_last()) + blocks.last().weight()
    }
}

/// What a region is: its kind and extent, its watermark, and the objects it
/// has handed out, in the order of their addresses.
pub struct RegionView {
    pub kind: RegionKind,
    /// The first address of the region.
    pub base: nat,
    /// The number of addresses the region spans.
    pub capacity: nat,
    /// The watermark: how much of the capacity has been handed out.
    pub top: nat,
    /// The bytes of the live objects.
    pub occupied: nat,
    pub blocks: Seq<BlockView>,
}

impl RegionView {
    /// The invariant of a region: it lies within the address range of a
    /// colored pointer, its objects lie one after another below the
    /// watermark, the watermark lies within the capacity, every object in
    /// use has the bytes its size says, the occupied bytes are those of the
    /// objects in use, and a large region has at most one object.
    pub open spec fn wf(self) -> bool {
        &&& self.base + self.capacity <= address_limit()
        &&& self.top <= self.capacity
        &&& self.occupied == live_bytes(self.blocks)
        &&& self.occupied <= self.top
        &&& forall|j: int| 0 <= j < self.blocks.len() ==> (#[trigger] self.blocks[j]).wf()
        &&& forall|j: int| 0 <= j < self.blocks.len() ==> #[trigger] self.blocks[j].end() <= self.top
        &&& forall|j: int, k: int|
            0 <= j < k < self.blocks.len() ==> #[trigger] self.blocks[j].end()
                <= #[trigger] self.blocks[k].offset
        &&& self.kind == RegionKind::Large ==> self.blocks.len() <= 1
    }

    /// A region without objects.
    pub open spec fn empty(kind: RegionKind, base: nat, capacity: nat) -> RegionView {
        RegionView { kind, base, capacity, top: 0, occupied: 0, blocks: Seq::empty() }
    }

    /// Whether `address` lies within the region's extent.
    pub open spec fn covers(self, address: int) -> bool {
        self.base <= address < self.base + self.capacity
    }

    /// Whether the object numbered `j` starts at `address`.
    pub open spec fn starts(self, j: int, address: int) -> bool {
        0 <= j < self.blocks.len() && self.base + self.blocks[j].offset == address
    }

    /// Whether the region has handed `address` out, to an object in use or not.
    pub open spec fn holds(self, address: int) -> bool {
        exists|j: int| self.starts(j, address)
    }

    /// The number of the object that starts at `address`.
    pub open spec fn index_of(self, address: int) -> int {
        choose|j: int| self.starts(j, address)
    }

    /// The record of the object that starts at `address`, if there is one.
    pub open spec fn lookup(self, address: int) -> Option<BlockView> {
        if self.holds(address) {
            Some(self.blocks[self.index_of(address)])
        } else {
            None
        }
    }

    /// Whether an object in use starts at `address`.
    pub open spec fn live_at(self, address: int) -> bool {
        self.lookup(address) matches Some(block) && block.live
    }

    /// The bytes of the object that starts at `address`.
    pub open spec fn bytes_at(self, address: int) -> Seq<u8> {
        self.lookup(address).unwrap().bytes
    }

    /// The size of the object that starts at `address`.
    pub open spec fn size_at(self, address: int) -> nat {
        self.lookup(address).unwrap().size
    }

    /// Whether the region can take one more object of `size` bytes.
    pub open spec fn room_for(self, size: nat) -> bool {
        &&& self.top + footprint_of(size) <= self.capacity
        &&& self.kind == RegionKind::Large ==> self.blocks.len() == 0
    }

    /// The address the next object gets.
    pub open spec fn next_address(self) -> int {
        (self.base + self.top) as int
    }

    /// The region after it has taken an object with the bytes `bytes` at the
    /// watermark.
    pub open spec fn placed(self, bytes: Seq<u8>) -> RegionView {
        RegionView {
            top: self.top + footprint_of(bytes.len()),
            occupied: self.occupied + bytes.len(),
            blocks: self.blocks.push(BlockView::holding(self.top, bytes)),
            ..self
        }
    }

    /// The region after it has handed out `size` zeroed bytes at the watermark.
    pub open spec fn allocated(self, size: nat) -> RegionView {
        self.placed(zeros(size))
    }

    /// The region after the object at `address` went out of use.
    pub open spec fn released(self, address: int) -> RegionView {
        RegionView {
            occupied: (self.occupied - self.size_at(address)) as nat,
            blocks: self.blocks.update(
                self.index_of(address),
                self.blocks[self.index_of(address)].dropped(),
            ),
            ..self
        }
    }

    /// The region after the object at `address` took the bytes `data`.
    pub open spec fn written(self, address: int, data: Seq<u8>) -> RegionView {
        RegionView {
            blocks: self.blocks.update(
                self.index_of(address),
                self.blocks[self.index_of(address)].filled(data),
            ),
            ..self
        }
    }
}

/// An object that was appended counts with its weight.
pub proof fn lemma_live_bytes_push(blocks: Seq<BlockView>, block: BlockView)
    ensures
        live_bytes(blocks.push(block)) == live_bytes(blocks) + block.weight(),
{
    assert(blocks.push(block).drop_last() =~= blocks);
}

/// Replacing one object's record changes the sum by the difference of the weights.
pub proof fn lemma_live_bytes_update(blocks: Seq<BlockView>, j: int, block: BlockView)
    requires
        0 <= j < blocks.len(),
    ensures
        blocks[j].weight() <= live_bytes(blocks),
        live_bytes(blocks.update(j, block)) == live_bytes(blocks) - blocks[j].weight()
            + block.weight(),
    decreases blocks.len(),
{
    if j == blocks.len() - 1 {
        assert(blocks.update(j, block).drop_last() =~= blocks.drop_last());
    } else {
        lemma_live_bytes_update(blocks.drop_last(), j, block);
        assert(blocks.update(j, block).drop_last() =~= blocks.drop_last().update(j, block));
    }
}

/// In a valid region an address belongs to at most one object, and an
/// address that belongs to one lies below the watermark.
pub proof fn lemma_starts_unique(region: RegionView, j: int, address: int)
    requires
        region.wf(),
        region.starts(j, address),
    ensures
        region.holds(address),
        region.index_of(address) == j,
        region.lookup(address) == Some(region.blocks[j]),
        region.base <= address < region.base + region.top,
        region.covers(address),
{
    let k = region.index_of(address);
    assert(region.blocks[j].end() <= region.top);
    if k < j {
        assert(region.blocks[k].end() <= region.blocks[j].offset);
    }
    if j < k {
        assert(region.blocks[j].end() <= region.blocks[k].offset);
    }
}

/// An address that the region holds lies below its watermark.
pub proof fn lemma_holds_below_top(region: RegionView, address: int)
    requires
        region.wf(),
        region.holds(address),
    ensures
        region.base <= address < region.base + region.top,
        region.covers(address),
        region.starts(region.index_of(address), address),
{
    lemma_starts_unique(region, region.index_of(address), address);
}

/// What taking an object does: the region stays valid, the address at the
/// watermark, which belonged to no object, now holds a live object with the
/// given bytes, and every other address is as it was.
pub proof fn lemma_placed(region: RegionView, bytes: Seq<u8>)
    requires
        region.wf(),
        region.room_for(bytes.len()),
    ensures
        region.placed(bytes).wf(),
        region.lookup(region.next_address()).is_none(),
        forall|address: int| #[trigger]
            region.placed(bytes).lookup(address) == (if address == region.next_address() {
                Some(BlockView::holding(region.top, bytes))
            } else {
                region.lookup(address)
            }),
{
    let after = region.placed(bytes);
    let fresh = region.next_address();
    let last = region.blocks.len() as int;
    lemma_live_bytes_push(region.blocks, after.blocks[last]);
    if region.holds(fresh) {
        lemma_holds_below_top(region, fresh);
    }
    assert forall|address: int| #[trigger]
        after.lookup(address) == (if address == fresh {
            Some(BlockView::holding(region.top, bytes))
        } else {
            region.lookup(address)
        }) by {
        if address == fresh {
            lemma_starts_unique(after, last, fresh);
        } else if region.holds(address) {
            let j = region.index_of(address);
            lemma_starts_unique(after, j, address);
        } else if after.holds(address) {
            let j = after.index_of(address);
            assert(region.starts(j, address));
        }
    }
}

/// What rewriting the record of one object does, where its offset and its
/// footprint stay: the region stays valid, the object has the new record,
/// and every other address is as it was.
proof fn lemma_replaced(region: RegionView, after: RegionView, address: int, block: BlockView)
    requires
        region.wf(),
        region.holds(address),
        block.offset == region.blocks[region.index_of(address)].offset,
        block.size == region.blocks[region.index_of(address)].size,
        block.wf(),
        after == (RegionView {
            occupied: after.occupied,
            blocks: region.blocks.update(region.index_of(address), block),
            ..region
        }),
        block.weight() <= region.blocks[region.index_of(address)].weight(),
        after.occupied + region.blocks[region.index_of(address)].weight() == region.occupied
            + block.weight(),
    ensures
        after.wf(),
        region.blocks[region.index_of(address)].weight() <= region.occupied,
        forall|other: int| #[trigger]
            after.lookup(other) == (if other == address {
                Some(block)
            } else {
                region.lookup(other)
            }),
{
    let i = region.index_of(address);
    lemma_live_bytes_update(region.blocks, i, block);
    assert(after.wf()) by {
        assert forall|k: int| 0 <= k < after.blocks.len() implies #[trigger] after.blocks[k].end()
            <= after.top by {
            assert(region.blocks[k].end() <= region.top);
        }
        assert forall|k: int, l: int| 0 <= k < l < after.blocks.len() implies #[trigger]
            after.blocks[k].end() <= #[trigger] after.blocks[l].offset by {
            assert(region.blocks[k].end() <= region.blocks[l].offset);
        }
    }
    assert forall|other: int| #[trigger]
        after.lookup(other) == (if other == address {
            Some(block)
        } else {
            region.lookup(other)
        }) by {
        if region.holds(other) {
            let j = region.index_of(other);
            lemma_starts_unique(after, j, other);
        } else if after.holds(other) {
            let j = after.index_of(other);
            assert(region.starts(j, other));
        }
    }
}

/// What releasing an object does: the region stays valid, the object at
/// `address` is out of use and has given its bytes back, and every other
/// address is as it was.
pub proof fn lemma_released(region: RegionView, address: int)
    requires
        region.wf(),
        region.live_at(address),
    ensures
        region.released(address).wf(),
        region.size_at(address) <= region.occupied,
        region.size_at(address) == region.bytes_at(address).len(),
        forall|other: int| #[trigger]
            region.released(address).lookup(other) == (if other == address {
                Some(region.lookup(address).unwrap().dropped())
            } else {
                region.lookup(other)
            }),
{
    let block = region.lookup(address).unwrap().dropped();
    lemma_live_bytes_update(region.blocks, region.index_of(address), block);
    lemma_replaced(region, region.released(address), address, block);
}

/// What overwriting an object does: the region stays valid, the object at
/// `address` has the new bytes, and every other address is as it was.
pub proof fn lemma_written(region: RegionView, address: int, data: Seq<u8>)
    requires
        region.wf(),
        region.live_at(address),
        data.len() == region.bytes_at(address).len(),
    ensures
        region.written(address, data).wf(),
        forall|other: int| #[trigger]
            region.written(address, data).lookup(other) == (if other == address {
                Some(region.lookup(address).unwrap().filled(data))
            } else {
                region.lookup(other)
            }),
{
    let block = region.lookup(address).unwrap().filled(data);
    lemma_replaced(region, region.written(address, data), address, block);
}

/// The record a region keeps of one object.
#[derive(Debug)]
struct Block {
    offset: u64,
    size: usize,
    bytes: Vec<u8>,
    live: bool,
}

impl View for Block {
    type V = BlockView;

    closed spec fn view(&self) -> BlockView {
        BlockView {
            offset: self.offset as nat,
            size: self.size as nat,
            bytes: self.bytes@,
            live: self.live,
        }
    }
}

/// A stretch of the heap that hands out space for objects of one size class.
#[derive(Debug)]
pub struct Region {
    kind: RegionKind,
    base: u64,
    capacity: u64,
    top: u64,
    occupied: u64,
    blocks: Vec<Block>,
}

impl View for Region {
    type V = RegionView;

    closed spec fn view(&self) -> RegionView {
        RegionView {
            kind: self.kind,
            base: self.base as nat,
            capacity: self.capacity as nat,
            top: self.top as nat,
            occupied: self.occupied as nat,
            blocks: Seq::new(self.blocks@.len(), |j: int| self.blocks@[j]@),
        }
    }
}

impl Region {
    /// Open an empty region of `capacity` bytes at `base`; `None` where the
    /// region would reach beyond the addresses a colored pointer can hold.
    pub fn new(kind: RegionKind, base: u64, capacity: u64) -> (region: Option<Region>)
        ensures
            region.is_some() <==> base + capacity <= address_limit(),
            region.is_some() ==> region.unwrap()@ == RegionView::empty(
                kind,
                base as nat,
                capacity as nat,
            ),
            region.is_some() ==> region.unwrap()@.wf(),
    {
        if capacity > ADDRESS_MASK + 1 || base > ADDRESS_MASK + 1 - capacity {
            return None;
        }
        let region = Region { kind, base, capacity, top: 0, occupied: 0, blocks: Vec::new() };
        assert(region@.blocks =~= Seq::empty());
        Some(region)
    }

    /// The size class of the region.
    pub fn kind(&self) -> (kind: RegionKind)
        ensures
            kind == self@.kind,
    {
        self.kind
    }

    /// The first address of the region.
    pub fn base(&self) -> (base: u64)
        ensures
            base as nat == self@.base,
    {
        self.base
    }

    /// The number of bytes the region spans.
    pub fn capacity(&self) -> (capacity: u64)
        ensures
            capacity as nat == self@.capacity,
    {
        self.capacity
    }

    /// The bytes of the objects in use.
    pub fn occupied(&self) -> (occupied: u64)
        ensures
            occupied as nat == self@.occupied,
    {
        self.occupied
    }

    /// The bytes of address space still to be handed out.
    pub fn available(&self) -> (available: u64)
        requires
            self@.wf(),
        ensures
            available as nat == self@.capacity - self@.top,
    {
        self.capacity - self.top
    }

    /// Whether the region can take one more object of `size` bytes.
    pub fn has_room(&self, size: usize) -> (room: bool)
        requires
            self@.wf(),
        ensures
            room == self@.room_for(size as nat),
    {
        let footprint: u64 = if size == 0 {
            1
        } else {
            size as u64
        };
        footprint <= self.capacity - self.top && (self.kind != RegionKind::Large
            || self.blocks.len() == 0)
    }

    /// Look for the object that starts at `address`, by bisection over the
    /// objects, which lie in the order of their addresses.
    fn find(&self, address: u64) -> (found: Option<usize>)
        requires
            self@.wf(),
        ensures
            match found {
                Some(j) => self@.starts(j as int, address as int),
                None => !self@.holds(address as int),
            },
    {
        if address < self.base {
            return None;
        }
        let target: u64 = address - self.base;
        let mut low: usize = 0;
        let mut high: usize = self.blocks.len();
        while low < high
            invariant
                self@.wf(),
                low <= high <= self.blocks.len(),
                target == address - self.base,
                forall|k: int| 0 <= k < low ==> (#[trigger] self@.blocks[k]).offset < target,
                forall|k: int|
                    high <= k < self.blocks.len() ==> (#[trigger] self@.blocks[k]).offset > target,
            decreases high - low,
        {
            let middle: usize = low + (high - low) / 2;
            let offset: u64 = self.blocks[middle].offset;
            if offset == target {
                return Some(middle);
            }
            if offset < target {
                assert forall|k: int| 0 <= k < middle + 1 implies (#[trigger] self@.blocks[k]).offset
                    < target by {
                    if k < middle {
                        assert(self@.blocks[k].end() <= self@.blocks[middle as int].offset);
                    }
                }
                low = middle + 1;
            } else {
                assert forall|k: int| middle <= k < self.blocks.len() implies (
                #[trigger] self@.blocks[k]).offset > target by {
                    if middle < k {
                        assert(self@.blocks[middle as int].end() <= self@.blocks[k].offset);
                    }
                }
                high = middle;
            }
        }
        proof {
            if self@.holds(address as int) {
                let j = self@.index_of(address as int);
                assert(self@.blocks[j].offset == target);
            }
        }
        None
    }

    /// Whether the region has handed `address` out, to an object in use or not.
    pub fn has_handed_out(&self, address: u64) -> (held: bool)
        requires
            self@.wf(),
        ensures
            held == self@.holds(address as int),
    {
        self.find(address).is_some()
    }

    /// Whether an object in use starts at `address`.
    pub fn is_live(&self, address: u64) -> (live: bool)
        requires
            self@.wf(),
        ensures
            live == self@.live_at(address as int),
    {
        match self.find(address) {
            Some(j) => {
                proof {
                    lemma_starts_unique(self@, j as int, address as int);
                }
                self.blocks[j].live
            },
            None => false,
        }
    }

    /// Take an object with the given bytes at the watermark and return its
    /// address. Fails with `RegionExhausted`, and changes nothing, where the
    /// space left is too small or a large region has had its one object.
    pub fn place(&mut self, bytes: Vec<u8>) -> (result: GcResult<u64>)
        requires
            old(self)@.wf(),
        ensures
            final(self)@.wf(),
            match result {
                Ok(address) => {
                    &&& old(self)@.room_for(bytes@.len())
                    &&& address == old(self)@.next_address()
                    &&& final(self)@ == old(self)@.placed(bytes@)
                },
                Err(error) => {
                    &&& error == GcError::RegionExhausted
                    &&& !old(self)@.room_for(bytes@.len())
                    &&& final(self)@ == old(self)@
                },
            },
    {
        let size: usize = bytes.len();
        if !self.has_room(size) {
            return Err(GcError::RegionExhausted);
        }
        let footprint: u64 = if size == 0 {
            1
        } else {
            size as u64
        };
        let address: u64 = self.base + self.top;
        proof {
            lemma_placed(self@, bytes@);
        }
        self.blocks.push(Block { offset: self.top, size, bytes, live: true });
        self.top = self.top + footprint;
        self.occupied = self.occupied + size as u64;
        assert(self@.blocks =~= old(self)@.placed(bytes@).blocks);
        Ok(address)
    }

    /// Hand out `size` zeroed bytes at the watermark and return their
    /// address. Fails with `RegionExhausted`, and changes nothing, where the
    /// space left is too small or a large region has had its one object.
    pub fn allocate(&mut self, size: usize) -> (result: GcResult<u64>)
        requires
            old(self)@.wf(),
        ensures
            final(self)@.wf(),
            match result {
                Ok(address) => {
                    &&& old(self)@.room_for(size as nat)
                    &&& address == old(self)@.next_address()
                    &&& final(self)@ == old(self)@.allocated(size as nat)
                },
                Err(error) => {
                    &&& error == GcError::RegionExhausted
                    &&& !old(self)@.room_for(size as nat)
                    &&& final(self)@ == old(self)@
                },
            },
    {
        if !self.has_room(size) {
            return Err(GcError::RegionExhausted);
        }
        let bytes: Vec<u8> = vec![0u8; size];
        assert(bytes@ =~= zeros(size as nat));
        self.place(bytes)
    }

    /// Take the object at `address` out of use. Its bytes are given back and
    /// no longer count as occupied; its address is not handed out again. Fails with
    /// `PointerOutOfRange`, and changes nothing, where no object in use
    /// starts at `address`.
    pub fn free(&mut self, address: u64) -> (result: GcResult<()>)
        requires
            old(self)@.wf(),
        ensures
            final(self)@.wf(),
            match result {
                Ok(_) => {
                    &&& old(self)@.live_at(address as int)
                    &&& final(self)@ == old(self)@.released(address as int)
                },
                Err(error) => {
                    &&& error == GcError::PointerOutOfRange
                    &&& !old(self)@.live_at(address as int)
                    &&& final(self)@ == old(self)@
                },
            },
    {
        match self.find(address) {
            Some(j) => {
                proof {
                    lemma_starts_unique(self@, j as int, address as int);
                }
                if !self.blocks[j].live {
                    return Err(GcError::PointerOutOfRange);
                }
                proof {
                    lemma_released(self@, address as int);
                }
                let size: usize = self.blocks[j].size;
                self.blocks[j].live = false;
                self.blocks[j].bytes = Vec::new();
                self.occupied = self.occupied - size as u64;
                assert(self@.blocks =~= old(self)@.released(address as int).blocks);
                Ok(())
            },
            None => Err(GcError::PointerOutOfRange),
        }
    }

    /// The bytes of the object in use at `address`; `None` where there is none.
    pub fn bytes(&self, address: u64) -> (bytes: Option<&[u8]>)
        requires
            self@.wf(),
        ensures
            bytes.is_some() <==> self@.live_at(address as int),
            bytes.is_some() ==> bytes.unwrap()@ == self@.bytes_at(address as int),
    {
        match self.find(address) {
            Some(j) => {
                proof {
                    lemma_starts_unique(self@, j as int, address as int);
                }
                if self.blocks[j].live {
                    Some(self.blocks[j].bytes.as_slice())
                } else {
                    None
                }
            },
            None => None,
        }
    }

    /// Replace the bytes of the object in use at `address` by `data`, which
    /// must have the object's size. Fails with `PointerOutOfRange` where no
    /// object in use starts at `address`, and with `InvalidCast` where the
    /// sizes differ; a failure changes nothing.
    pub fn write(&mut self, address: u64, data: &[u8]) -> (result: GcResult<()>)
        requires
            old(self)@.wf(),
        ensures
            final(self)@.wf(),
            match result {
                Ok(_) => {
                    &&& old(self)@.live_at(address as int)
                    &&& data@.len() == old(self)@.bytes_at(address as int).len()
                    &&& final(self)@ == old(self)@.written(address as int, data@)
                },
                Err(error) => {
                    &&& final(self)@ == old(self)@
                    &&& !old(self)@.live_at(address as int) ==> error == GcError::PointerOutOfRange
                    &&& old(self)@.live_at(address as int) ==> {
                        &&& error == GcError::InvalidCast
                        &&& data@.len() != old(self)@.bytes_at(address as int).len()
                    }
                },
            },
    {
        match self.find(address) {
            Some(j) => {
                proof {
                    lemma_starts_unique(self@, j as int, address as int);
                }
                if !self.blocks[j].live {
                    return Err(GcError::PointerOutOfRange);
                }
                if self.blocks[j].bytes.len() != data.len() {
                    return Err(GcError::InvalidCast);
                }
                proof {
                    lemma_written(self@, address as int, data@);
                }
                let mut copy: Vec<u8> = Vec::new();
                copy.extend_from_slice(data);
                assert(copy@ =~= data@);
                self.blocks[j].bytes = copy;
                assert(self@.blocks =~= old(self)@.written(address as int, data@).blocks);
                Ok(())
            },
            None => Err(GcError::PointerOutOfRange),
        }
    }
}

} // verus!
