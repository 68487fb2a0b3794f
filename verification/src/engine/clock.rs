//! The wall clock and the stop flag.

use vstd::prelude::*;
use std::sync::atomic::{AtomicBool, Ordering};
use std::sync::Arc;
use std::time::{Duration, Instant};

verus! {

/// A point in time, as `std::time::Instant` keeps it. Nothing is claimed of what is inside.
#[verifier::external_type_specification]
#[verifier::external_body]
pub struct ExInstant(Instant);

/// `Instant::elapsed` reads the clock and returns the time since the instant; nothing is claimed of it.
pub assume_specification[ Instant::elapsed ](at: &Instant) -> (d: Duration)
;

/// `Duration::as_millis` returns the whole milliseconds of a duration; nothing is claimed of how many
/// they are.
pub assume_specification[ Duration::as_millis ](d: &Duration) -> (ms: u128)
;

/// `ms` is what a reading of the clock since `start` can come to: the whole milliseconds of a time elapsed
/// since then.
pub open spec fn clock_reads(start: Instant, ms: u128) -> bool {
    exists|d: Duration|
        #[trigger] call_ensures(Instant::elapsed, (&start,), d) && call_ensures(Duration::as_millis, (&d,), ms)
}

/// Whole milliseconds since `start`.
pub fn millis_since(start: &Instant) -> (ms: u128)
    ensures
        clock_reads(*start, ms),
{
    let d = start.elapsed();
    d.as_millis()
}

/// `r` is what a load of the stop flag can return.
pub open spec fn flag_reads(stop: Arc<AtomicBool>, r: bool) -> bool {
    call_ensures(AtomicBool::load, (&*stop, Ordering::Acquire), r)
}

/// Reads the stop flag.
pub fn stop_requested(stop: &Arc<AtomicBool>) -> (r: bool)
    ensures
        flag_reads(*stop, r),
{
    stop.load(Ordering::Acquire)
}

/// The stop flag was set by a releasing store.
pub open spec fn flag_stored(stop: Arc<AtomicBool>) -> bool {
    call_ensures(AtomicBool::store, (&*stop, true, Ordering::Release), ())
}

/// Raises the stop flag.
pub fn request_stop(stop: &Arc<AtomicBool>)
    ensures
        flag_stored(*stop),
{
    stop.store(true, Ordering::Release);
}

} // verus!
