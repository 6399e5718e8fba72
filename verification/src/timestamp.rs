//! Absolute timestamps, in nanoseconds since the Unix epoch.
//!
//! A log header carries its start of measurement as a civil calendar time;
//! each bus event carries a relative offset whose unit is chosen per event by
//! a flag (`1` means milliseconds, anything else nanoseconds). The absolute
//! timestamp of an event is the header start time plus the decoded offset.

use vstd::prelude::*;

verus! {

/// Errors of the extraction pipeline.
#[derive(Clone, Copy, PartialEq, Eq, Structural, Debug)]
pub enum ExtractError {
    /// The header's embedded calendar time is not a valid civil time.
    InvalidStartTime,
    /// The header's start time lies outside the representable nanosecond range.
    StartTimeOutOfRange,
    /// An event's absolute timestamp overflows the nanosecond range.
    TimestampOutOfRange,
}

/// Milliseconds between midnight on January 1, 1970 and the given civil time
/// (proleptic Gregorian calendar, no leap seconds), as chrono computes them.
/// Negative before the epoch.
pub uninterp spec fn epoch_millis_of(
    year: int,
    month: int,
    day: int,
    hour: int,
    minute: int,
    second: int,
    milli: int,
) -> int;

pub open spec fn is_leap_year(year: int) -> bool {
    year % 4 == 0 && (year % 100 != 0 || year % 400 == 0)
}

pub open spec fn days_in_month(year: int, month: int) -> int {
    if month == 2 {
        if is_leap_year(year) { 29 } else { 28 }
    } else if month == 4 || month == 6 || month == 9 || month == 11 {
        30
    } else {
        31
    }
}

/// A valid civil time: a real calendar date and an in-range time of day.
pub open spec fn valid_civil(
    year: int,
    month: int,
    day: int,
    hour: int,
    minute: int,
    second: int,
) -> bool {
    &&& 1 <= month <= 12
    &&& 1 <= day <= days_in_month(year, month)
    &&& 0 <= hour < 24
    &&& 0 <= minute < 60
    &&& 0 <= second < 60
}

/// Relies on chrono: `NaiveDate::from_ymd_opt` returns `Some` exactly for a
/// real calendar date (the year, a `u16` here, is well inside chrono's range),
/// `NaiveDate::and_hms_milli_opt` returns `Some` exactly for an in-range time
/// of day (milliseconds above 999, which encode leap seconds, are excluded by
/// the precondition), and `DateTime::timestamp_millis` on the resulting UTC
/// time returns the number of non-leap milliseconds since the Unix epoch, a
/// function of the civil fields alone, named `epoch_millis_of` here.
#[verifier::external_body]
fn civil_to_epoch_millis(
    year: u16,
    month: u16,
    day: u16,
    hour: u16,
    minute: u16,
    second: u16,
    milli: u16,
) -> (r: Option<i64>)
    requires
        milli <= 999,
    ensures
        r is Some <==> valid_civil(
            year as int, month as int, day as int,
            hour as int, minute as int, second as int,
        ),
        r is Some ==> r->0 == epoch_millis_of(
            year as int, month as int, day as int,
            hour as int, minute as int, second as int, milli as int,
        ),
{
    chrono::NaiveDate::from_ymd_opt(year as i32, month as u32, day as u32)
        .and_then(|d| d.and_hms_milli_opt(hour as u32, minute as u32, second as u32, milli as u32))
        .map(|dt| dt.and_utc().timestamp_millis())
}

/// The log's start of measurement, converted from its civil calendar fields
/// to nanoseconds since the Unix epoch. An invalid calendar time is the fatal
/// header error of the extraction pipeline; a time before the epoch or beyond
/// the `u64` nanosecond range cannot be represented.
pub fn start_time_nanos(
    year: u16,
    month: u16,
    day: u16,
    hour: u16,
    minute: u16,
    second: u16,
    milli: u16,
) -> (r: Result<u64, ExtractError>)
    requires
        milli <= 999,
    ensures
        ({
            let valid = valid_civil(
                year as int, month as int, day as int,
                hour as int, minute as int, second as int,
            );
            let ms = epoch_millis_of(
                year as int, month as int, day as int,
                hour as int, minute as int, second as int, milli as int,
            );
            &&& (r is Ok <==> valid && 0 <= ms && ms * 1_000_000 <= u64::MAX)
            &&& (r is Ok ==> r->Ok_0 == ms * 1_000_000)
            &&& (r == Err::<u64, ExtractError>(ExtractError::InvalidStartTime) <==> !valid)
            &&& (r == Err::<u64, ExtractError>(ExtractError::StartTimeOutOfRange) <==> valid
                && !(0 <= ms && ms * 1_000_000 <= u64::MAX))
        }),
{
    match civil_to_epoch_millis(year, month, day, hour, minute, second, milli) {
        None => Err(ExtractError::InvalidStartTime),
        Some(ms) => {
            if ms < 0 {
                Err(ExtractError::StartTimeOutOfRange)
            } else {
                let ms_u: u64 = ms as u64;
                if ms_u > u64::MAX / 1_000_000 {
                    proof {
                        assert(ms * 1_000_000 > u64::MAX) by (nonlinear_arith)
                            requires ms > u64::MAX as int / 1_000_000;
                    }
                    Err(ExtractError::StartTimeOutOfRange)
                } else {
                    proof {
                        assert(ms * 1_000_000 <= u64::MAX) by (nonlinear_arith)
                            requires 0 <= ms <= u64::MAX as int / 1_000_000;
                    }
                    Ok(ms_u * 1_000_000)
                }
            }
        },
    }
}

/// The offset of an event in nanoseconds: a unit flag of `1` means the raw
/// field is in milliseconds, any other value means nanoseconds.
pub open spec fn rel_nanos(flags: u32, rel: u64) -> int {
    if flags == 1 { rel * 1_000_000 } else { rel as int }
}

/// The absolute timestamp of an event: header start plus decoded offset.
pub open spec fn abs_nanos(start_ns: u64, flags: u32, rel: u64) -> int {
    start_ns + rel_nanos(flags, rel)
}

/// Decodes one event's absolute timestamp, honoring the per-event unit flag.
/// Returns `None` exactly when the absolute time overflows the nanosecond
/// range.
pub fn decode_timestamp(start_ns: u64, flags: u32, rel: u64) -> (r: Option<u64>)
    ensures
        r is Some <==> abs_nanos(start_ns, flags, rel) <= u64::MAX,
        r is Some ==> r->0 == abs_nanos(start_ns, flags, rel),
{
    let off: u64 = if flags == 1 {
        if rel > u64::MAX / 1_000_000 {
            proof {
                assert(rel * 1_000_000 > u64::MAX) by (nonlinear_arith)
                    requires rel > u64::MAX as int / 1_000_000;
            }
            return None;
        }
        proof {
            assert(rel * 1_000_000 <= u64::MAX) by (nonlinear_arith)
                requires 0 <= rel <= u64::MAX as int / 1_000_000;
        }
        rel * 1_000_000
    } else {
        rel
    };
    if off > u64::MAX - start_ns {
        None
    } else {
        Some(start_ns + off)
    }
}

} // verus!
