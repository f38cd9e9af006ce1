use vstd::prelude::*;

verus! {

/// The capability to read the current logical time. Nothing is promised of
/// the value read: two readings of one clock may differ.
pub trait Clock {
    type Time;

    /// The current time.
    fn time(&self) -> Self::Time;
}

/// A manually advanced clock: the number is the time.
impl Clock for u64 {
    type Time = u64;

    fn time(&self) -> (t: u64)
        ensures
            t == *self,
    {
        *self
    }
}

} // verus!
