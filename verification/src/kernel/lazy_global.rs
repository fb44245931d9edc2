use vstd::prelude::*;

verus! {

/// A global that is filled in once, at start-up, before it is used.
pub struct LazyGlobal<T> {
    pub data: Option<T>,
}

impl<T> LazyGlobal<T> {
    /// An empty global.
    pub fn new() -> (g: Self)
        ensures
            g.data is None,
    {
        LazyGlobal { data: None }
    }

    /// Fills in the global; it must be called before the global is used.
    pub fn init(&mut self, val: T)
        ensures
            final(self).data == Some(val),
    {
        self.data = Some(val);
    }

    /// The value of the global.
    pub fn get(&self) -> (r: &T)
        requires
            self.data is Some,
        ensures
            *r == self.data->0,
    {
        self.data.as_ref().unwrap()
    }

    /// The value of the global, to be changed in place.
    pub fn get_mut(&mut self) -> (r: &mut T)
        requires
            old(self).data is Some,
        ensures
            *r == old(self).data->0,
            final(self).data == Some(*final(r)),
    {
        self.data.as_mut().unwrap()
    }
}

} // verus!
