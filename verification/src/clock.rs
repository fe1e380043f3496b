//! The wall clock, read once per call, and the unit conversions that the
//! monitors apply to it.
use vstd::prelude::*;

verus! {

/// The time elapsed since the Unix epoch as whole seconds and the
/// nanoseconds past them: `SystemTime::now().duration_since(UNIX_EPOCH)`,
/// zero when the clock stands before the epoch. The contract claims only
/// that the nanosecond part is below one second, as `Duration` documents;
/// the value itself depends on the moment of the call.
#[verifier::external_body]
pub(crate) fn now_since_epoch() -> (t: (u64, u32))
    ensures
        t.1 < 1_000_000_000,
{
    let d = std::time::SystemTime::now().duration_since(std::time::UNIX_EPOCH).unwrap_or_default();
    (d.as_secs(), d.subsec_nanos())
}

/// Whole milliseconds of a duration, truncated to 64 bits
/// (`Duration::as_millis() as u64`).
pub fn millis_of(secs: u64, nanos: u32) -> (r: u64)
    requires
        nanos < 1_000_000_000,
    ensures
        r == (secs * 1000 + nanos / 1_000_000) as u64,
{
    let m: u128 = (secs as u128) * 1000 + ((nanos / 1_000_000) as u128);
    m as u64
}

/// Nanoseconds of a duration (`Duration::as_nanos() as i128`).
pub fn nanos_of(secs: u64, nanos: u32) -> (r: i128)
    requires
        nanos < 1_000_000_000,
    ensures
        r == secs * 1_000_000_000 + nanos,
{
    (secs as i128) * 1_000_000_000 + (nanos as i128)
}

} // verus!
