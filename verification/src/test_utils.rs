//! A recorded signal as it is stored.

use vstd::prelude::*;

verus! {

/// A recording: the bytes of its samples, if it has any.
pub struct SampleData {
    pub data: Option<Vec<u8>>,
}

impl SampleData {
    /// Takes the bytes out of a recording that has some and leaves it without.
    pub fn take_buffer(&mut self) -> (r: Vec<u8>)
        requires
            old(self).data is Some,
        ensures
            r == old(self).data.unwrap(),
            final(self).data is None,
    {
        self.data.take().unwrap()
    }
}

} // verus!
