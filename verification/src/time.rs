//! Points in time.
use vstd::prelude::*;

verus! {

/// A point in time: whole seconds since the start of 1970 in UTC, and
/// nanoseconds beyond them.
#[derive(Clone, Copy, Debug, PartialEq, Eq, Structural)]
pub struct Timestamp {
    pub seconds: i64,
    pub nanos: u32,
}

} // verus!
