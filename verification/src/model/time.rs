use vstd::prelude::*;

use std::time::SystemTime;

verus! {

#[verifier::external_type_specification]
#[verifier::external_body]
pub struct ExSystemTime(std::time::SystemTime);

/// Reading the system clock (`SystemTime::now`). Nothing is claimed of the reading.
pub assume_specification[ std::time::SystemTime::now ]() -> (t: std::time::SystemTime);

/// Where a point in time lies relative to the Unix epoch, in nanoseconds.
#[derive(Debug, Clone, Copy, PartialEq, Eq, Structural)]
pub enum EpochOffset {
    After(u128),
    Before(u128),
}

/// Calls `SystemTime::duration_since(UNIX_EPOCH)` and hands the distance out in
/// nanoseconds, marked by the side of the epoch it lies on. Nothing is claimed of it.
#[verifier::external_body]
pub(crate) fn epoch_offset(t: &SystemTime) -> (o: EpochOffset) {
    match t.duration_since(std::time::UNIX_EPOCH) {
        Ok(d) => EpochOffset::After(d.as_nanos()),
        Err(e) => EpochOffset::Before(e.duration().as_nanos()),
    }
}

/// The signed nanosecond count of an epoch offset, saturated to the range of `i128`.
pub open spec fn offset_nanos(o: EpochOffset) -> int {
    match o {
        EpochOffset::After(n) => if n <= i128::MAX {
            n as int
        } else {
            i128::MAX as int
        },
        EpochOffset::Before(n) => if n <= i128::MAX {
            -(n as int)
        } else {
            -(i128::MAX as int)
        },
    }
}

/// Signed nanoseconds relative to the Unix epoch for an epoch offset.
pub fn offset_to_nanos(o: EpochOffset) -> (n: i128)
    ensures
        n as int == offset_nanos(o),
{
    match o {
        EpochOffset::After(n) => if n <= i128::MAX as u128 {
            n as i128
        } else {
            i128::MAX
        },
        EpochOffset::Before(n) => if n <= i128::MAX as u128 {
            -(n as i128)
        } else {
            -i128::MAX
        },
    }
}

/// A point in time as signed nanoseconds relative to the Unix epoch.
pub fn time_to_nanos(t: &SystemTime) -> (n: i128)
    ensures
        exists|o: EpochOffset| n as int == offset_nanos(o),
{
    let o = epoch_offset(t);
    offset_to_nanos(o)
}

/// The current time as signed nanoseconds relative to the Unix epoch.
pub fn now_nanos() -> (n: i128)
    ensures
        exists|o: EpochOffset| n as int == offset_nanos(o),
{
    let t = SystemTime::now();
    time_to_nanos(&t)
}

} // verus!
