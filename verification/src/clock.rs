//! Wall-clock time.
//!
//! The board has no clock of its own that keeps time while it is off, so the time is unset until
//! the network has set it.

use vstd::prelude::*;

verus! {

/// Any timestamp below this (2023-01-01) means the clock has not been set.
pub const EPOCH_SANITY: i64 = 1_672_531_200;

/// A point in time of the system's clock.
#[verifier::external_type_specification]
#[verifier::external_body]
pub struct ExSystemTime(std::time::SystemTime);

/// How far a point in time is before another.
#[verifier::external_type_specification]
#[verifier::external_body]
pub struct ExSystemTimeError(std::time::SystemTimeError);

/// `SystemTime::now`: what time it is, of which nothing can be said.
pub assume_specification[ std::time::SystemTime::now ]() -> (t: std::time::SystemTime)
;

/// The time from the beginning of 1970 to a point in time; none if it is before that.
pub uninterp spec fn since_epoch(t: std::time::SystemTime) -> Option<std::time::Duration>;

/// `SystemTime::duration_since`, with `UNIX_EPOCH` as the earlier time: the time from the beginning
/// of 1970 to a point in time, or an error if it is before that.
#[verifier::external_body]
fn duration_since_epoch(t: &std::time::SystemTime) -> (r: Result<
    std::time::Duration,
    std::time::SystemTimeError,
>)
    ensures
        match r {
            Ok(d) => since_epoch(*t) == Some(d),
            Err(_) => since_epoch(*t) is None,
        },
{
    t.duration_since(std::time::UNIX_EPOCH)
}

/// The whole seconds of a span of time.
pub uninterp spec fn whole_secs(d: std::time::Duration) -> u64;

/// `Duration::as_secs`: the whole seconds of a span of time.
pub assume_specification[ std::time::Duration::as_secs ](d: &std::time::Duration) -> (secs: u64)
    ensures
        secs == whole_secs(*d),
;

/// A timestamp, unless it shows that the clock is unset.
pub open spec fn sane(secs: u64) -> Option<i64> {
    if EPOCH_SANITY <= secs <= i64::MAX {
        Some(secs as i64)
    } else {
        None
    }
}

/// The clock counts as set exactly from the beginning of 2023 on, as far as a timestamp goes, and
/// the time is then what it says.
pub proof fn law_clock_is_set_from_2023_on(secs: u64)
    ensures
        sane(secs) is Some <==> (2023 - 1970) * 365 * 86400 + 13 * 86400 <= secs <= i64::MAX,
        sane(secs) matches Some(t) ==> t == secs,
{
}

/// A Unix timestamp, or `None` where it shows that the clock is unset.
pub fn plausible(secs: u64) -> (r: Option<i64>)
    ensures
        r == sane(secs),
{
    if secs >= 1_672_531_200 && secs <= 0x7fff_ffff_ffff_ffff {
        Some(secs as i64)
    } else {
        None
    }
}

/// The Unix timestamp of a point in time, or `None` where it shows that the clock is unset.
pub open spec fn timestamp(t: std::time::SystemTime) -> Option<i64> {
    match since_epoch(t) {
        Some(d) => sane(whole_secs(d)),
        None => None,
    }
}

/// A point in time has the timestamp of the whole seconds since the beginning of 1970, if it is not
/// before that and the clock counts as set.
pub proof fn law_timestamps_count_from_1970(t: std::time::SystemTime)
    ensures
        since_epoch(t) is None ==> timestamp(t) is None,
        since_epoch(t) matches Some(d) ==> {
            &&& timestamp(t) is Some <==> 1_672_531_200 <= whole_secs(d) <= i64::MAX
            &&& timestamp(t) matches Some(secs) ==> secs == whole_secs(d)
        },
{
}

/// The current Unix timestamp, or `None` while the clock is unset: that of the point in time that
/// the system's clock gave.
pub fn now_unix() -> (r: Option<i64>)
    ensures
        exists|t: std::time::SystemTime| r == #[trigger] timestamp(t),
        r matches Some(t) ==> t >= EPOCH_SANITY,
{
    let t = std::time::SystemTime::now();
    let r = match duration_since_epoch(&t) {
        Ok(d) => plausible(d.as_secs()),
        Err(_) => None,
    };
    assert(r == timestamp(t));
    r
}

/// What to do while waiting for the clock to be set.
#[derive(Debug, Clone, Copy, PartialEq, Eq, Structural)]
pub enum SyncWait {
    /// The clock is usable.
    Ready,
    /// Look again after so many milliseconds.
    Again(u64),
    /// The time is up.
    TimedOut,
}

/// What to do `elapsed_ms` into a wait for the first synchronisation.
pub open spec fn sync_wait(elapsed_ms: u64, timeout_ms: u64, completed: bool) -> SyncWait {
    if elapsed_ms >= timeout_ms {
        SyncWait::TimedOut
    } else if completed {
        SyncWait::Ready
    } else {
        SyncWait::Again(200)
    }
}

/// The wait is over when the time is up, and before that once the clock has been set; until then it
/// goes on in steps of a fifth of a second.
pub proof fn law_sync_is_waited_for(elapsed_ms: u64, timeout_ms: u64, completed: bool)
    ensures
        ({
            let w = sync_wait(elapsed_ms, timeout_ms, completed);
            &&& w is TimedOut <==> elapsed_ms >= timeout_ms
            &&& w is Ready <==> completed && elapsed_ms < timeout_ms
            &&& w is Again <==> !completed && elapsed_ms < timeout_ms
            &&& w matches SyncWait::Again(ms) ==> ms == 200
        }),
{
}

/// Decide what to do `elapsed_ms` into a wait for the first synchronisation.
pub fn wait_for_sync(elapsed_ms: u64, timeout_ms: u64, completed: bool) -> (w: SyncWait)
    ensures
        w == sync_wait(elapsed_ms, timeout_ms, completed),
{
    if elapsed_ms >= timeout_ms {
        SyncWait::TimedOut
    } else if completed {
        SyncWait::Ready
    } else {
        SyncWait::Again(200)
    }
}

} // verus!
