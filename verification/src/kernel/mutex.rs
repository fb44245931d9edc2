//! A spin lock that hands out the value it guards while it is held.
use vstd::prelude::*;
use vstd::rwlock::{RwLock, RwLockPredicate, WriteHandle};

verus! {

/// The lock accepts every value of its type.
pub struct AnyValue;

impl<T> RwLockPredicate<T> for AnyValue {
    open spec fn inv(self, v: T) -> bool {
        true
    }
}

/// A value shared between processors, reached only through `lock`.
pub struct Mutex<T> {
    lock: RwLock<T, AnyValue>,
}

/// The lock held on a `Mutex`, with the guarded value. The holder reads and changes the value
/// and gives it back with `unlock`.
pub struct HeldMutex<'a, T> {
    data: T,
    handle: WriteHandle<'a, T, AnyValue>,
}

impl<T> Mutex<T> {
    /// A free lock guarding `t`.
    pub fn new(t: T) -> (m: Self) {
        Mutex { lock: RwLock::new(t, Ghost(AnyValue)) }
    }

    /// Spins until the lock is free, takes it, and hands out the guarded value: whatever the
    /// last holder left there. The guard holds this lock, and `unlock` gives it back to it.
    pub fn lock(&self) -> (h: HeldMutex<'_, T>)
        ensures
            h.mutex() == *self,
    {
        let (data, handle) = self.lock.acquire_write();
        HeldMutex { data, handle }
    }
}

impl<'a, T> HeldMutex<'a, T> {
    /// The lock this guard holds.
    pub closed spec fn mutex(&self) -> Mutex<T> {
        Mutex { lock: self.handle.rwlock() }
    }

    /// The guarded value while the lock is held.
    pub closed spec fn value(&self) -> T {
        self.data
    }

    /// Reads the guarded value.
    pub fn get(&self) -> (r: &T)
        ensures
            *r == self.value(),
    {
        &self.data
    }

    /// Replaces the guarded value with `t`.
    pub fn set(&mut self, t: T)
        ensures
            final(self).value() == t,
            final(self).mutex() == old(self).mutex(),
    {
        self.data = t;
    }

    /// Releases the lock, leaving the current value in it.
    pub fn unlock(self) {
        let HeldMutex { data, handle } = self;
        handle.release_write(data);
    }
}

} // verus!
