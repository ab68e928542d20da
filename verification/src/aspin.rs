use vstd::prelude::*;

verus! {

/// A handle that certifies its referent sits behind a stable heap address
/// for the handle's whole lifetime: the value is placed in its own
/// allocation on creation and is never relocated while the handle exists.
///
/// A suspended computation may hold pointers into its own state, so the
/// adapters that resume one work through a handle like this rather than
/// through a bare value that the caller could move between steps.
pub struct PinHandle<T> {
    place: Box<T>,
}

impl<T> PinHandle<T> {
    /// The value behind the handle.
    pub closed spec fn value(&self) -> T {
        *self.place
    }

    /// Pins `value` by moving it into a fresh, address-stable allocation.
    pub fn new(value: T) -> (h: Self)
        ensures
            h.value() == value,
    {
        PinHandle { place: Box::new(value) }
    }

    /// Borrows the pinned value in place; the referent keeps its address
    /// for as long as the borrow lives.
    pub fn borrow_mut(&mut self) -> (r: &mut T)
        ensures
            *r == old(self).value(),
            final(self).value() == *final(r),
    {
        &mut *self.place
    }

    /// Releases the value. Only a relocatable value may leave its pin, and
    /// every type this crate hands to [`PinHandle::new`] is relocatable.
    pub fn into_inner(self) -> (value: T)
        ensures
            value == self.value(),
    {
        *self.place
    }
}

/// The capability of obtaining an address-stable handle to a value.
///
/// A type is relocatable when no reference into its own fields can exist,
/// so moving it once more, into the pinned allocation, is harmless. Every
/// sized type built from safe code here is relocatable, so the capability
/// holds for all of them; the operation is total and side-effect-free.
pub trait AsPin: Sized {
    /// Pins the value, yielding a handle to it at a stable address.
    fn as_pin(self) -> (h: PinHandle<Self>)
        ensures
            h.value() == self,
    ;
}

impl<T: Sized> AsPin for T {
    fn as_pin(self) -> (h: PinHandle<T>) {
        PinHandle::new(self)
    }
}

} // verus!
