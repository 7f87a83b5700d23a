use vstd::prelude::*;
use std::time::{Duration, SystemTime};
use crate::error::RuidError;
use crate::layout::{BitLayout, lemma_layout_powers};

verus! {

/// `std::time::SystemTime`, a reading of the wall clock. Nothing is known of
/// what a value holds.
#[verifier::external_type_specification]
#[verifier::external_body]
pub struct ExSystemTime(std::time::SystemTime);

/// Calls `SystemTime::now`. The reading is whatever the host's clock says, so
/// nothing is claimed of it.
#[verifier::external_body]
fn system_now() -> SystemTime {
    SystemTime::now()
}

/// Calls `SystemTime::duration_since`: the time from `earlier` to `later`, or
/// `None` where `later` lies before `earlier`. Nothing is claimed of the
/// duration.
#[verifier::external_body]
fn duration_between(later: &SystemTime, earlier: &SystemTime) -> Option<Duration> {
    match later.duration_since(*earlier) {
        Ok(elapsed) => Some(elapsed),
        Err(_) => None,
    }
}

/// Calls `Duration::as_millis`: the whole milliseconds in a duration. Nothing
/// is claimed of the number.
#[verifier::external_body]
fn whole_millis(elapsed: &Duration) -> u128 {
    elapsed.as_millis()
}

/// The timestamp for a clock that reads `elapsed` milliseconds after the
/// epoch, `None` standing for a clock that reads earlier than the epoch.
pub open spec fn spec_timestamp_from_elapsed(layout: BitLayout, elapsed: Option<u128>) -> Result<
    u64,
    RuidError,
> {
    match elapsed {
        None => Err(RuidError::ClockBeforeEpoch),
        Some(ms) => if ms > layout.spec_max_timestamp() {
            Err(RuidError::TimestampOverflow)
        } else {
            Ok(ms as u64)
        },
    }
}

/// Turns the milliseconds between the epoch and a clock reading into a
/// timestamp. `None` stands for a reading earlier than the epoch; a number that
/// the timestamp field cannot hold is refused.
pub fn timestamp_from_elapsed(layout: &BitLayout, elapsed: Option<u128>) -> (r: Result<
    u64,
    RuidError,
>)
    requires
        layout.wf(),
    ensures
        r == spec_timestamp_from_elapsed(*layout, elapsed),
{
    match elapsed {
        None => Err(RuidError::ClockBeforeEpoch),
        Some(ms) => {
            let max = layout.max_timestamp();
            proof {
                lemma_layout_powers(*layout);
            }
            if ms > max as u128 {
                Err(RuidError::TimestampOverflow)
            } else {
                Ok(ms as u64)
            }
        },
    }
}

/// Reads the wall clock and gives the milliseconds since `epoch` as a
/// timestamp. What the clock says is not known here: whatever it says, a
/// timestamp that comes back fits the layout's timestamp field, and the only
/// failures are a clock before the epoch and a time that the field cannot hold.
pub fn timestamp(epoch: SystemTime, layout: &BitLayout) -> (r: Result<u64, RuidError>)
    requires
        layout.wf(),
    ensures
        exists|elapsed: Option<u128>| r == spec_timestamp_from_elapsed(*layout, elapsed),
        r is Ok ==> r->Ok_0 <= layout.spec_max_timestamp(),
        r is Err ==> r->Err_0 == RuidError::ClockBeforeEpoch || r->Err_0
            == RuidError::TimestampOverflow,
{
    let now = system_now();
    let elapsed = match duration_between(&now, &epoch) {
        Some(elapsed) => Some(whole_millis(&elapsed)),
        None => None,
    };
    proof {
        lemma_layout_powers(*layout);
    }
    timestamp_from_elapsed(layout, elapsed)
}

/// The start-up check of the clock: of two readings taken `wait_ms`
/// milliseconds apart, the second must be at least `wait_ms` after the first.
pub fn clock_kept_pace(first: u64, second: u64, wait_ms: u64) -> (ok: bool)
    ensures
        ok == (first + wait_ms <= second),
{
    second >= first && second - first >= wait_ms
}

} // verus!
