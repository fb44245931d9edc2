//! A cell that is used like a mutex where nothing can race: it hands out its value without
//! any locking.
use vstd::prelude::*;

verus! {

/// A value reached through `lock`, without synchronisation.
pub struct Notex<T> {
    data: T,
}

/// Access to the value of a `Notex` for as long as it is borrowed.
pub struct HeldNotex<'a, T> {
    pub data: &'a mut T,
}

impl<T> Notex<T> {
    /// The value held.
    pub closed spec fn value(&self) -> T {
        self.data
    }

    /// A cell holding `t`.
    pub fn new(t: T) -> (n: Self)
        ensures
            n.value() == t,
    {
        Notex { data: t }
    }

    /// Hands out the value; what the holder leaves in it is the cell's value afterwards.
    pub fn lock(&mut self) -> (h: HeldNotex<'_, T>)
        ensures
            *h.data == old(self).value(),
            final(self).value() == *final(h.data),
    {
        HeldNotex { data: &mut self.data }
    }
}

impl<'a, T> HeldNotex<'a, T> {
    /// Reads the value.
    pub fn get(&self) -> (r: &T)
        ensures
            *r == *old(self.data),
    {
        &*self.data
    }

    /// Replaces the value with `t`.
    pub fn set(&mut self, t: T)
        ensures
            *final(self).data == t,
            *final(final(self).data) == *final(old(self).data),
    {
        *self.data = t;
    }
}

} // verus!
