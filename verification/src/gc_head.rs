//! Typed object handles and the tunable parameters of the collector.

use core::marker::PhantomData;
use vstd::prelude::*;
use crate::barrier::{GcObject, GcPointer, ObjectView, PointerView, ADDRESS_MASK};
use crate::errors::{GcError, GcResult};
use crate::world::TheWorld;

verus! {

/// A typed gc object: an object header that is known to have the size of a `T`.
#[derive(Debug)]
pub struct Gc<T> {
    /// Pointer to the head
    head: GcPointer,
    /// Size of the data
    size: usize,
    /// Phantom data
    typing: PhantomData<T>,
}

impl<T> View for Gc<T> {
    type V = ObjectView;

    closed spec fn view(&self) -> ObjectView {
        ObjectView { pointer: self.head@, size: self.size as nat }
    }
}

impl<T> Clone for Gc<T> {
    fn clone(&self) -> (copy: Gc<T>)
        ensures
            copy@ == self@,
    {
        proof {
            use_type_invariant(self);
        }
        Gc { head: self.head, size: self.size, typing: PhantomData }
    }
}

impl<T> Copy for Gc<T> {

}

impl<T> Gc<T> {
    #[verifier::type_invariant]
    spec fn sized(self) -> bool {
        self.size as nat == vstd::layout::size_of::<T>()
    }

    /// Create the handle of a `T` that lives at `address`.
    pub fn new(address: u64) -> (gc: Gc<T>)
        requires
            address <= ADDRESS_MASK,
        ensures
            gc@ == (ObjectView {
                pointer: PointerView::fresh(address),
                size: vstd::layout::size_of::<T>(),
            }),
    {
        Gc { head: GcPointer::make(address), size: core::mem::size_of::<T>(), typing: PhantomData }
    }

    /// Take an untyped header for a `T`. Fails with `InvalidCast` where the
    /// header does not have the size of a `T`.
    pub fn from_object(object: GcObject) -> (result: GcResult<Gc<T>>)
        ensures
            match result {
                Ok(gc) => object@.size == vstd::layout::size_of::<T>() && gc@ == object@,
                Err(error) => object@.size != vstd::layout::size_of::<T>() && error
                    == GcError::InvalidCast,
            },
    {
        if object.holds::<T>() {
            Ok(Gc { head: object.head(), size: object.size(), typing: PhantomData })
        } else {
            Err(GcError::InvalidCast)
        }
    }

    /// Read the object through the load barrier of the heap it lives in:
    /// bring the handle's pointer up to date, then return the bytes of the
    /// object, which are as many as a `T` has. Fails with
    /// `PointerOutOfRange` where no object in use starts at the address the
    /// barrier arrives at, and with `InvalidCast` where that object does not
    /// have the size of a `T`.
    pub fn load<'a>(&mut self, world: &'a TheWorld) -> (result: GcResult<&'a [u8]>)
        requires
            world@.wf(),
        ensures
            final(self)@ == (ObjectView {
                pointer: world@.resolve(old(self)@.pointer),
                size: old(self)@.size,
            }),
            match result {
                Ok(bytes) => {
                    &&& world@.designates(final(self)@)
                    &&& bytes@ == world@.objects()[final(self)@.pointer.address as int]
                    &&& bytes@.len() == vstd::layout::size_of::<T>()
                },
                Err(error) => if world@.live(final(self)@.pointer.address as int) {
                    &&& error == GcError::InvalidCast
                    &&& world@.bytes_at(final(self)@.pointer.address as int).len()
                        != vstd::layout::size_of::<T>()
                } else {
                    error == GcError::PointerOutOfRange
                },
            },
    {
        proof {
            use_type_invariant(&*self);
        }
        let mut head = self.head;
        world.load_barrier(&mut head);
        self.head = head;
        world.as_bytes(&GcObject::with_size(head, self.size))
    }

    /// The untyped header of the object; its size is that of a `T`.
    pub fn object(&self) -> (object: GcObject)
        ensures
            object@ == self@,
            object@.size == vstd::layout::size_of::<T>(),
    {
        proof {
            use_type_invariant(self);
        }
        GcObject::with_size(self.head, self.size)
    }
}

/// The world control.
#[derive(Copy, Clone, Debug)]
pub struct TheWorldControl {
    /// The share of the heap, in percent, whose occupation starts a collection cycle.
    pub initiating_heap_occupancy_percent: u8,
}

impl TheWorldControl {
    /// The percentage is one: it does not exceed 100.
    pub open spec fn wf(self) -> bool {
        self.initiating_heap_occupancy_percent <= 100
    }

    /// Put the parameters together; `None` where the percentage exceeds 100.
    pub fn new(initiating_heap_occupancy_percent: u8) -> (control: Option<TheWorldControl>)
        ensures
            control.is_some() <==> initiating_heap_occupancy_percent <= 100,
            control.is_some() ==> control.unwrap() == (TheWorldControl {
                initiating_heap_occupancy_percent,
            }),
    {
        if initiating_heap_occupancy_percent <= 100 {
            Some(TheWorldControl { initiating_heap_occupancy_percent })
        } else {
            None
        }
    }

    /// Whether the percentage does not exceed 100.
    pub fn is_valid(&self) -> (valid: bool)
        ensures
            valid == self.wf(),
    {
        self.initiating_heap_occupancy_percent <= 100
    }

    /// Whether an occupancy of `percent` calls for a collection cycle.
    pub fn reached_by(&self, percent: u8) -> (reached: bool)
        ensures
            reached == (percent >= self.initiating_heap_occupancy_percent),
    {
        percent >= self.initiating_heap_occupancy_percent
    }
}

} // verus!
