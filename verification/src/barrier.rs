//! Colored pointers: a heap address and four collector flags in one word.
//!
//! The low 42 bits of the word hold the address. The four bits above them
//! hold, from the lowest up, the flags `finalizable`, `remapped`, `marked1`
//! and `marked0`. The remaining high bits are never set, so that the
//! address and the flags say all there is to say of a pointer.

use vstd::prelude::*;

verus! {

/// The bits of the word that hold the address.
pub const ADDRESS_MASK: u64 = 0x0000_03ff_ffff_ffff;

/// The bit that tells whether the object needs finalization.
pub const FINALIZABLE_BIT: u64 = 0x0000_0400_0000_0000;

/// The bit that tells whether the address is known to be current.
pub const REMAPPED_BIT: u64 = 0x0000_0800_0000_0000;

/// The second of the two alternating mark bits.
pub const MARKED1_BIT: u64 = 0x0000_1000_0000_0000;

/// The first of the two alternating mark bits.
pub const MARKED0_BIT: u64 = 0x0000_2000_0000_0000;

/// All four flag bits together.
pub const FLAG_MASK: u64 = 0x0000_3c00_0000_0000;

/// The bits of the word that are in use: the address and the flags.
pub const WORD_MASK: u64 = 0x0000_3fff_ffff_ffff;

/// What a colored pointer means: an address and four independent flags.
pub struct PointerView {
    pub address: u64,
    pub finalizable: bool,
    pub remapped: bool,
    pub marked1: bool,
    pub marked0: bool,
}

/// One of the four flags of a colored pointer.
pub enum Flag {
    Finalizable,
    Remapped,
    Marked1,
    Marked0,
}

/// Which of the two mark bits counts in the current collection cycle. Each
/// new cycle takes the other one, so that the marks of the cycle before
/// need not be cleared: they no longer count.
#[derive(Clone, Copy, Debug, PartialEq, Eq, Structural)]
pub enum MarkColor {
    Marked0,
    Marked1,
}

impl MarkColor {
    /// The color of the cycle before, and of the cycle after.
    pub open spec fn other(self) -> MarkColor {
        match self {
            MarkColor::Marked0 => MarkColor::Marked1,
            MarkColor::Marked1 => MarkColor::Marked0,
        }
    }

    /// The color of the next cycle.
    pub fn flip(self) -> (next: MarkColor)
        ensures
            next == self.other(),
    {
        match self {
            MarkColor::Marked0 => MarkColor::Marked1,
            MarkColor::Marked1 => MarkColor::Marked0,
        }
    }
}

impl PointerView {
    /// Whether the pointer is marked in a cycle of the given color.
    pub open spec fn marked_in(self, color: MarkColor) -> bool {
        match color {
            MarkColor::Marked0 => self.marked0,
            MarkColor::Marked1 => self.marked1,
        }
    }

    /// The pointer marked in a cycle of the given color: it carries the
    /// mark bit of that color and not the other one.
    pub open spec fn marked_for(self, color: MarkColor) -> PointerView {
        match color {
            MarkColor::Marked0 => PointerView { marked0: true, marked1: false, ..self },
            MarkColor::Marked1 => PointerView { marked0: false, marked1: true, ..self },
        }
    }

    /// A pointer to `address` with no flag set.
    pub open spec fn fresh(address: u64) -> PointerView {
        PointerView {
            address,
            finalizable: false,
            remapped: false,
            marked1: false,
            marked0: false,
        }
    }

    /// The value of one flag.
    pub open spec fn flag(self, flag: Flag) -> bool {
        match flag {
            Flag::Finalizable => self.finalizable,
            Flag::Remapped => self.remapped,
            Flag::Marked1 => self.marked1,
            Flag::Marked0 => self.marked0,
        }
    }

    /// The pointer with one flag written.
    pub open spec fn with_flag(self, flag: Flag, value: bool) -> PointerView {
        match flag {
            Flag::Finalizable => PointerView { finalizable: value, ..self },
            Flag::Remapped => PointerView { remapped: value, ..self },
            Flag::Marked1 => PointerView { marked1: value, ..self },
            Flag::Marked0 => PointerView { marked0: value, ..self },
        }
    }

    /// The pointer after a series of flag writes, carried out first to last.
    pub open spec fn with_flags(self, writes: Seq<(Flag, bool)>) -> PointerView
        decreases writes.len(),
    {
        if writes.len() == 0 {
            self
        } else {
            self.with_flags(writes.drop_last()).with_flag(writes.last().0, writes.last().1)
        }
    }

    /// The pointer aimed at another address, flags untouched.
    pub open spec fn with_address(self, address: u64) -> PointerView {
        PointerView { address, ..self }
    }

    /// The word that encodes the pointer: the address with the bit of each
    /// flag that is set.
    pub open spec fn word(self) -> u64 {
        self.address | (if self.finalizable {
            FINALIZABLE_BIT
        } else {
            0
        }) | (if self.remapped {
            REMAPPED_BIT
        } else {
            0
        }) | (if self.marked1 {
            MARKED1_BIT
        } else {
            0
        }) | (if self.marked0 {
            MARKED0_BIT
        } else {
            0
        })
    }
}

/// However many flags are written, and in whatever order, the address stays.
pub proof fn lemma_flags_keep_address(pointer: PointerView, writes: Seq<(Flag, bool)>)
    ensures
        pointer.with_flags(writes).address == pointer.address,
    decreases writes.len(),
{
    if writes.len() > 0 {
        lemma_flags_keep_address(pointer, writes.drop_last());
    }
}

/// A pointer made for `address` yields `address` after any series of flag writes.
pub proof fn lemma_fresh_keeps_address(address: u64, writes: Seq<(Flag, bool)>)
    ensures
        PointerView::fresh(address).with_flags(writes).address == address,
{
    lemma_flags_keep_address(PointerView::fresh(address), writes);
}

/// A mark lasts for one cycle: a pointer marked in a cycle of one color is
/// marked in that cycle, and counts as unmarked as soon as the color flips.
/// Marking moves neither the address nor the other two flags.
pub proof fn lemma_mark_lasts_one_cycle(pointer: PointerView, color: MarkColor)
    ensures
        pointer.marked_for(color).marked_in(color),
        !pointer.marked_for(color).marked_in(color.other()),
        color.other().other() == color,
        pointer.marked_for(color).address == pointer.address,
        pointer.marked_for(color).finalizable == pointer.finalizable,
        pointer.marked_for(color).remapped == pointer.remapped,
{
}

/// Setting a flag and clearing it again disturbs nothing else: the address
/// and the other three flags are exactly what they were.
pub proof fn lemma_set_then_clear(pointer: PointerView, flag: Flag, other: Flag)
    ensures
        pointer.with_flag(flag, true).with_flag(flag, false) == pointer.with_flag(flag, false),
        pointer.with_flag(flag, true).with_flag(flag, false).address == pointer.address,
        other != flag ==> pointer.with_flag(flag, true).with_flag(flag, false).flag(other)
            == pointer.flag(other),
        other != flag ==> pointer.with_flag(flag, true).flag(other) == pointer.flag(other),
        !pointer.flag(flag) ==> pointer.with_flag(flag, true).with_flag(flag, false) == pointer,
{
}

/// A gc pointer.
#[derive(Clone, Copy, Debug)]
pub struct GcPointer {
    raw: u64,
}

/// The word `raw` with the bits of `bit` switched on or off.
spec fn assign_bit(raw: u64, bit: u64, on: bool) -> u64 {
    if on {
        raw | bit
    } else {
        raw & !bit
    }
}

/// The address range and the four flags occupy pairwise disjoint bits.
pub proof fn lemma_layout_disjoint()
    ensures
        ADDRESS_MASK & FLAG_MASK == 0,
        ADDRESS_MASK | FLAG_MASK == WORD_MASK,
        FLAG_MASK == FINALIZABLE_BIT | REMAPPED_BIT | MARKED1_BIT | MARKED0_BIT,
        FINALIZABLE_BIT & ADDRESS_MASK == 0,
        REMAPPED_BIT & ADDRESS_MASK == 0,
        MARKED1_BIT & ADDRESS_MASK == 0,
        MARKED0_BIT & ADDRESS_MASK == 0,
        FINALIZABLE_BIT & REMAPPED_BIT == 0,
        FINALIZABLE_BIT & MARKED1_BIT == 0,
        FINALIZABLE_BIT & MARKED0_BIT == 0,
        REMAPPED_BIT & MARKED1_BIT == 0,
        REMAPPED_BIT & MARKED0_BIT == 0,
        MARKED1_BIT & MARKED0_BIT == 0,
{
    assert(ADDRESS_MASK & FLAG_MASK == 0 && ADDRESS_MASK | FLAG_MASK == WORD_MASK && FLAG_MASK
        == FINALIZABLE_BIT | REMAPPED_BIT
        | MARKED1_BIT | MARKED0_BIT && FINALIZABLE_BIT & ADDRESS_MASK == 0 && REMAPPED_BIT
        & ADDRESS_MASK == 0 && MARKED1_BIT & ADDRESS_MASK == 0 && MARKED0_BIT & ADDRESS_MASK == 0
        && FINALIZABLE_BIT & REMAPPED_BIT == 0 && FINALIZABLE_BIT & MARKED1_BIT == 0
        && FINALIZABLE_BIT & MARKED0_BIT == 0 && REMAPPED_BIT & MARKED1_BIT == 0 && REMAPPED_BIT
        & MARKED0_BIT == 0 && MARKED1_BIT & MARKED0_BIT == 0) by (bit_vector);
}

/// Switching the bits of `bit` leaves every bit outside of it as it was.
proof fn lemma_assign_keeps(raw: u64, bit: u64, on: bool, mask: u64)
    requires
        bit & mask == 0,
    ensures
        assign_bit(raw, bit, on) & mask == raw & mask,
{
    assert((raw | bit) & mask == raw & mask) by (bit_vector)
        requires
            bit & mask == 0,
    ;
    assert((raw & !bit) & mask == raw & mask) by (bit_vector)
        requires
            bit & mask == 0,
    ;
}

/// After switching, a test of `bit` answers with the value that was written.
proof fn lemma_assign_takes(raw: u64, bit: u64, on: bool)
    requires
        bit != 0,
    ensures
        (assign_bit(raw, bit, on) & bit != 0) == on,
{
    assert((raw | bit) & bit != 0) by (bit_vector)
        requires
            bit != 0,
    ;
    assert((raw & !bit) & bit == 0) by (bit_vector);
}

/// Switching one flag bit writes that flag and keeps the address and the other flags.
proof fn lemma_assign_flag(raw: u64, bit: u64, on: bool)
    requires
        bit == FINALIZABLE_BIT || bit == REMAPPED_BIT || bit == MARKED1_BIT || bit == MARKED0_BIT,
    ensures
        raw <= WORD_MASK ==> assign_bit(raw, bit, on) <= WORD_MASK,
        assign_bit(raw, bit, on) & ADDRESS_MASK == raw & ADDRESS_MASK,
        (assign_bit(raw, bit, on) & FINALIZABLE_BIT != 0) == (if bit == FINALIZABLE_BIT {
            on
        } else {
            raw & FINALIZABLE_BIT != 0
        }),
        (assign_bit(raw, bit, on) & REMAPPED_BIT != 0) == (if bit == REMAPPED_BIT {
            on
        } else {
            raw & REMAPPED_BIT != 0
        }),
        (assign_bit(raw, bit, on) & MARKED1_BIT != 0) == (if bit == MARKED1_BIT {
            on
        } else {
            raw & MARKED1_BIT != 0
        }),
        (assign_bit(raw, bit, on) & MARKED0_BIT != 0) == (if bit == MARKED0_BIT {
            on
        } else {
            raw & MARKED0_BIT != 0
        }),
{
    lemma_layout_disjoint();
    assert(bit & FINALIZABLE_BIT == FINALIZABLE_BIT & bit && bit & REMAPPED_BIT == REMAPPED_BIT
        & bit && bit & MARKED1_BIT == MARKED1_BIT & bit && bit & MARKED0_BIT == MARKED0_BIT & bit)
        by (bit_vector);
    assert(raw <= WORD_MASK ==> (raw | bit) <= WORD_MASK && (raw & !bit) <= WORD_MASK)
        by (bit_vector)
        requires
            bit <= WORD_MASK,
    ;
    lemma_assign_takes(raw, bit, on);
    lemma_assign_keeps(raw, bit, on, ADDRESS_MASK);
    if bit != FINALIZABLE_BIT {
        lemma_assign_keeps(raw, bit, on, FINALIZABLE_BIT);
    }
    if bit != REMAPPED_BIT {
        lemma_assign_keeps(raw, bit, on, REMAPPED_BIT);
    }
    if bit != MARKED1_BIT {
        lemma_assign_keeps(raw, bit, on, MARKED1_BIT);
    }
    if bit != MARKED0_BIT {
        lemma_assign_keeps(raw, bit, on, MARKED0_BIT);
    }
}

impl View for GcPointer {
    type V = PointerView;

    closed spec fn view(&self) -> PointerView {
        PointerView {
            address: self.raw & ADDRESS_MASK,
            finalizable: self.raw & FINALIZABLE_BIT != 0,
            remapped: self.raw & REMAPPED_BIT != 0,
            marked1: self.raw & MARKED1_BIT != 0,
            marked0: self.raw & MARKED0_BIT != 0,
        }
    }
}

/// A word that uses no bit beyond the address and the flags is the word
/// that its address and its flags encode.
proof fn lemma_word_is_encoding(raw: u64)
    requires
        raw <= WORD_MASK,
    ensures
        raw == (PointerView {
            address: raw & ADDRESS_MASK,
            finalizable: raw & FINALIZABLE_BIT != 0,
            remapped: raw & REMAPPED_BIT != 0,
            marked1: raw & MARKED1_BIT != 0,
            marked0: raw & MARKED0_BIT != 0,
        }).word(),
{
    let finalizable: u64 = raw & FINALIZABLE_BIT;
    let remapped: u64 = raw & REMAPPED_BIT;
    let marked1: u64 = raw & MARKED1_BIT;
    let marked0: u64 = raw & MARKED0_BIT;
    assert(raw == (raw & ADDRESS_MASK) | finalizable | remapped | marked1 | marked0)
        by (bit_vector)
        requires
            raw <= WORD_MASK,
            finalizable == raw & FINALIZABLE_BIT,
            remapped == raw & REMAPPED_BIT,
            marked1 == raw & MARKED1_BIT,
            marked0 == raw & MARKED0_BIT,
    ;
    assert((finalizable == 0 || finalizable == FINALIZABLE_BIT) && (remapped == 0 || remapped
        == REMAPPED_BIT) && (marked1 == 0 || marked1 == MARKED1_BIT) && (marked0 == 0 || marked0
        == MARKED0_BIT)) by (bit_vector)
        requires
            finalizable == raw & FINALIZABLE_BIT,
            remapped == raw & REMAPPED_BIT,
            marked1 == raw & MARKED1_BIT,
            marked0 == raw & MARKED0_BIT,
    ;
}

impl GcPointer {
    /// No bit beyond the address and the flags is set.
    #[verifier::type_invariant]
    spec fn canonical(self) -> bool {
        self.raw <= WORD_MASK
    }

    /// Create a new gc pointer to `address`, with all four flags cleared.
    pub fn make(address: u64) -> (pointer: GcPointer)
        requires
            address <= ADDRESS_MASK,
        ensures
            pointer@ == PointerView::fresh(address),
    {
        proof {
            assert(address & ADDRESS_MASK == address) by (bit_vector)
                requires
                    address <= ADDRESS_MASK,
            ;
            assert(address & FINALIZABLE_BIT == 0 && address & REMAPPED_BIT == 0 && address
                & MARKED1_BIT == 0 && address & MARKED0_BIT == 0) by (bit_vector)
                requires
                    address <= ADDRESS_MASK,
            ;
        }
        GcPointer { raw: address }
    }

    /// Get the low 42 bits of the pointer: the address, whatever the flags are.
    pub fn as_pointer(&self) -> (address: u64)
        ensures
            address == self@.address,
            address <= ADDRESS_MASK,
    {
        let raw: u64 = self.raw;
        assert(raw & ADDRESS_MASK <= ADDRESS_MASK) by (bit_vector);
        raw & ADDRESS_MASK
    }

    /// The whole word: the address in the low 42 bits, the flags above them.
    pub fn word(&self) -> (word: u64)
        ensures
            word == self@.word(),
            word <= WORD_MASK,
    {
        proof {
            use_type_invariant(self);
            lemma_word_is_encoding(self.raw);
        }
        self.raw
    }

    /// Whether the object is finalizable (bit 42 of the word).
    pub fn is_finalizable(&self) -> (set: bool)
        ensures
            set == self@.finalizable,
    {
        self.raw & FINALIZABLE_BIT != 0
    }

    /// Write the finalizable flag; the address and the other flags stay.
    pub fn set_finalize(&mut self, finalize: bool)
        ensures
            final(self)@ == old(self)@.with_flag(Flag::Finalizable, finalize),
    {
        proof {
            use_type_invariant(&*self);
            lemma_assign_flag(self.raw, FINALIZABLE_BIT, finalize);
        }
        if finalize {
            self.raw |= FINALIZABLE_BIT;
        } else {
            self.raw &= !FINALIZABLE_BIT;
        }
    }

    /// Whether the address is known to be current (bit 43 of the word).
    pub fn is_remapped(&self) -> (set: bool)
        ensures
            set == self@.remapped,
    {
        self.raw & REMAPPED_BIT != 0
    }

    /// Write the remapped flag; the address and the other flags stay.
    pub fn set_remapped(&mut self, remapped: bool)
        ensures
            final(self)@ == old(self)@.with_flag(Flag::Remapped, remapped),
    {
        proof {
            use_type_invariant(&*self);
            lemma_assign_flag(self.raw, REMAPPED_BIT, remapped);
        }
        if remapped {
            self.raw |= REMAPPED_BIT;
        } else {
            self.raw &= !REMAPPED_BIT;
        }
    }

    /// Whether the object carries the second mark bit (bit 44 of the word).
    pub fn is_marked1(&self) -> (set: bool)
        ensures
            set == self@.marked1,
    {
        self.raw & MARKED1_BIT != 0
    }

    /// Write the second mark bit; the address and the other flags stay.
    pub fn set_marked1(&mut self, marked: bool)
        ensures
            final(self)@ == old(self)@.with_flag(Flag::Marked1, marked),
    {
        proof {
            use_type_invariant(&*self);
            lemma_assign_flag(self.raw, MARKED1_BIT, marked);
        }
        if marked {
            self.raw |= MARKED1_BIT;
        } else {
            self.raw &= !MARKED1_BIT;
        }
    }

    /// Whether the object carries the first mark bit (bit 45 of the word).
    pub fn is_marked0(&self) -> (set: bool)
        ensures
            set == self@.marked0,
    {
        self.raw & MARKED0_BIT != 0
    }

    /// Write the first mark bit; the address and the other flags stay.
    pub fn set_marked0(&mut self, marked0: bool)
        ensures
            final(self)@ == old(self)@.with_flag(Flag::Marked0, marked0),
    {
        proof {
            use_type_invariant(&*self);
            lemma_assign_flag(self.raw, MARKED0_BIT, marked0);
        }
        if marked0 {
            self.raw |= MARKED0_BIT;
        } else {
            self.raw &= !MARKED0_BIT;
        }
    }

    /// Whether the object is marked in a cycle of the given color. The mark
    /// bit of the other color does not count.
    pub fn is_marked(&self, color: MarkColor) -> (marked: bool)
        ensures
            marked == self@.marked_in(color),
    {
        match color {
            MarkColor::Marked0 => self.is_marked0(),
            MarkColor::Marked1 => self.is_marked1(),
        }
    }

    /// Mark the object in a cycle of the given color: set the mark bit of
    /// that color and clear the other one.
    pub fn mark(&mut self, color: MarkColor)
        ensures
            final(self)@ == old(self)@.marked_for(color),
    {
        match color {
            MarkColor::Marked0 => {
                self.set_marked0(true);
                self.set_marked1(false);
            },
            MarkColor::Marked1 => {
                self.set_marked1(true);
                self.set_marked0(false);
            },
        }
    }

    /// Point at `address` instead; all four flags stay as they are.
    pub fn redirect(&mut self, address: u64)
        requires
            address <= ADDRESS_MASK,
        ensures
            final(self)@ == old(self)@.with_address(address),
    {
        let raw: u64 = self.raw;
        proof {
            use_type_invariant(&*self);
            assert(((raw & !ADDRESS_MASK) | address) <= WORD_MASK) by (bit_vector)
                requires
                    raw <= WORD_MASK,
                    address <= ADDRESS_MASK,
            ;
            assert(((raw & !ADDRESS_MASK) | address) & ADDRESS_MASK == address) by (bit_vector)
                requires
                    address <= ADDRESS_MASK,
            ;
            assert(((raw & !ADDRESS_MASK) | address) & FINALIZABLE_BIT == raw & FINALIZABLE_BIT
                && ((raw & !ADDRESS_MASK) | address) & REMAPPED_BIT == raw & REMAPPED_BIT && ((raw
                & !ADDRESS_MASK) | address) & MARKED1_BIT == raw & MARKED1_BIT && ((raw
                & !ADDRESS_MASK) | address) & MARKED0_BIT == raw & MARKED0_BIT) by (bit_vector)
                requires
                    address <= ADDRESS_MASK,
            ;
        }
        self.raw = (raw & !ADDRESS_MASK) | address;
    }
}

/// What an object header means: where the object is and how many bytes it has.
pub struct ObjectView {
    pub pointer: PointerView,
    pub size: nat,
}

impl ObjectView {
    /// The header of the object once it lives at `address`: it carries
    /// that address and the `remapped` mark, and is otherwise as it was.
    pub open spec fn moved_to(self, address: u64) -> ObjectView {
        ObjectView {
            pointer: self.pointer.with_flag(Flag::Remapped, true).with_address(address),
            ..self
        }
    }

    /// The header of an object that was moved away: it has lost the
    /// `remapped` mark, and is otherwise as it was.
    pub open spec fn left_behind(self) -> ObjectView {
        ObjectView { pointer: self.pointer.with_flag(Flag::Remapped, false), ..self }
    }
}

/// A untyped gc object.
#[derive(Clone, Copy, Debug)]
pub struct GcObject {
    head: GcPointer,
    size: usize,
}

impl View for GcObject {
    type V = ObjectView;

    closed spec fn view(&self) -> ObjectView {
        ObjectView { pointer: self.head@, size: self.size as nat }
    }
}

impl GcObject {
    /// Make the header of a value of type `T` that lives at `address`: a
    /// pointer without flags and the size of `T`.
    pub fn make<T>(address: u64) -> (object: GcObject)
        requires
            address <= ADDRESS_MASK,
        ensures
            object@ == (ObjectView {
                pointer: PointerView::fresh(address),
                size: vstd::layout::size_of::<T>(),
            }),
    {
        let header = GcPointer::make(address);
        let size: usize = core::mem::size_of::<T>();
        GcObject { head: header, size }
    }

    /// Pair a pointer with the byte size of the object it designates.
    pub fn with_size(head: GcPointer, size: usize) -> (object: GcObject)
        ensures
            object@ == (ObjectView { pointer: head@, size: size as nat }),
    {
        GcObject { head, size }
    }

    /// Get the address of the object, whatever the flags of its pointer are.
    pub fn as_pointer(&self) -> (address: u64)
        ensures
            address == self@.pointer.address,
            address <= ADDRESS_MASK,
    {
        self.head.as_pointer()
    }

    /// The colored pointer of the header.
    pub fn head(&self) -> (head: GcPointer)
        ensures
            head@ == self@.pointer,
    {
        self.head
    }

    /// Replace the colored pointer of the header; the size stays.
    pub fn set_head(&mut self, head: GcPointer)
        ensures
            final(self)@ == (ObjectView { pointer: head@, size: old(self)@.size }),
    {
        self.head = head;
    }

    /// Get the size of the object in bytes.
    pub fn size(&self) -> (size: usize)
        ensures
            size as nat == self@.size,
    {
        self.size
    }

    /// Whether the object has exactly the size of a `T`, so that it may be
    /// read as one.
    pub fn holds<T>(&self) -> (fits: bool)
        ensures
            fits == (self@.size == vstd::layout::size_of::<T>()),
    {
        self.size == core::mem::size_of::<T>()
    }
}

} // verus!
