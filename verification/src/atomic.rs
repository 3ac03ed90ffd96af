//! A box whose content can be swapped and read from several threads.
use vstd::prelude::*;
use vstd::rwlock::RwLock;
use crate::channel::AnyValue;

verus! {

/// A value shared between threads that can be replaced as a whole and read
/// as a copy.  What a read returns depends on how the threads interleave, so
/// the operations promise nothing about it.
pub struct AtomicBox<T> {
    ptr: RwLock<Box<T>, AnyValue>,
}

impl<T> AtomicBox<T> {
    /// A box holding `val`.  The value sits behind the lock, whose
    /// specification shows only that it admits any value, so no clause
    /// states what the box holds.
    pub fn new(val: T) -> (b: Self) {
        AtomicBox { ptr: RwLock::new(Box::new(val), Ghost(AnyValue)) }
    }

    /// Stores `val` and returns the value it replaced.  Other threads may
    /// store in between, so which value that is is left unstated.
    pub fn update(&self, val: T) -> (old: Box<T>) {
        let (old, handle) = self.ptr.acquire_write();
        handle.release_write(Box::new(val));
        old
    }
}

impl<T: Copy> AtomicBox<T> {
    /// A copy of the value stored now.  Other threads may store at any
    /// time, so which value that is is left unstated.
    pub fn load(&self) -> (v: T) {
        let handle = self.ptr.acquire_read();
        let value = **handle.borrow();
        handle.release_read();
        value
    }
}

impl<T> From<T> for AtomicBox<T> {
    fn from(val: T) -> (b: Self) {
        Self::new(val)
    }
}

impl<T> vstd::std_specs::convert::FromSpecImpl<T> for AtomicBox<T> {
    /// A new box says nothing about its content to verified callers, so no
    /// specification of `from` is offered either.
    open spec fn obeys_from_spec() -> bool {
        false
    }

    open spec fn from_spec(v: T) -> Self {
        vstd::pervasive::arbitrary()
    }
}

} // verus!
