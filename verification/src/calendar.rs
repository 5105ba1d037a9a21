//! Validity of a civil calendar date-time, decided by the `jiff` crate
//! and pinned down by a Gregorian-calendar specification.

use vstd::prelude::*;

verus! {

/// The error type of the `jiff` crate, opaque to the verifier; carried
/// through unchanged when a decoded field combination is out of range.
#[verifier::external_type_specification]
#[verifier::external_body]
pub struct ExJiffError(jiff::Error);

/// A leap year of the proleptic Gregorian calendar.
pub open spec fn is_leap_year(y: int) -> bool {
    y % 4 == 0 && (y % 100 != 0 || y % 400 == 0)
}

/// The number of days of month `m` of year `y`; meaningful for `1 <= m <= 12`.
pub open spec fn days_in_month(y: int, m: int) -> int {
    if m == 2 {
        if is_leap_year(y) {
            29
        } else {
            28
        }
    } else if m == 4 || m == 6 || m == 9 || m == 11 {
        30
    } else {
        31
    }
}

/// The component ranges under which `jiff::civil::DateTime::new` accepts
/// a date-time with zero seconds: year `-9999..=9999`, month `1..=12`,
/// day within the month, hour `0..=23`, minute `0..=59`.
pub open spec fn valid_civil_datetime(y: int, mo: int, d: int, h: int, mi: int) -> bool {
    &&& -9999 <= y <= 9999
    &&& 1 <= mo <= 12
    &&& 1 <= d <= days_in_month(y, mo)
    &&& 0 <= h <= 23
    &&& 0 <= mi <= 59
}

/// Relies on `jiff::civil::DateTime::new` (second and subsecond fixed at
/// zero): it returns `Ok` exactly when the year is in `-9999..=9999`, the
/// month in `1..=12`, the day at least 1 and at most the number of days
/// in that month of that year, the hour in `0..=23` and the minute in
/// `0..=59`, and returns its range error otherwise.
#[verifier::external_body]
pub(crate) fn civil_check(y: i16, mo: i8, d: i8, h: i8, mi: i8) -> (r: Result<(), jiff::Error>)
    ensures
        r is Ok <==> valid_civil_datetime(y as int, mo as int, d as int, h as int, mi as int),
{
    match jiff::civil::DateTime::new(y, mo, d, h, mi, 0, 0) {
        Ok(_) => Ok(()),
        Err(e) => Err(e),
    }
}

} // verus!
