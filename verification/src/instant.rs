use vstd::prelude::*;

verus! {

/// A point in time, as milliseconds since the Unix epoch.
///
/// The library never reads the clock itself: every function that depends on
/// the current time takes it as an argument.
#[derive(Clone, Copy, Debug, PartialEq, Eq, Hash)]
pub struct Instant(pub u64);

} // verus!
