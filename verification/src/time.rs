//! Instants and durations, modelled as whole seconds.
//!
//! An instant is the number of non-leap seconds since the Unix epoch, in
//! UTC; a duration is a signed number of seconds.  All arithmetic on them
//! is explicit `i64` arithmetic; calendar math (years and months) is done
//! by chrono behind the trusted wrappers at the bottom of this file.

use vstd::prelude::*;

verus! {

/// Seconds since the Unix epoch, in UTC.
#[derive(Clone, Copy, Debug, PartialEq, Eq, Structural)]
pub struct DateTime {
    pub secs: i64,
}

/// A span of time, in whole seconds (negative spans are allowed).
#[derive(Clone, Copy, Debug, PartialEq, Eq, Structural)]
pub struct Duration {
    pub secs: i64,
}

impl DateTime {
    pub fn from_secs(secs: i64) -> (r: DateTime)
        ensures
            r.secs == secs,
    {
        DateTime { secs }
    }

    /// The instant `self + d`, or `None` if it leaves the `i64` range.
    pub fn checked_add(self, d: Duration) -> (r: Option<DateTime>)
        ensures
            r matches Some(t) ==> t.secs == self.secs + d.secs,
            r is None <==> !fits_i64(self.secs + d.secs),
    {
        match self.secs.checked_add(d.secs) {
            Some(s) => Some(DateTime { secs: s }),
            None => None,
        }
    }

    /// The span `self - earlier`, or `None` if it leaves the `i64` range.
    pub fn checked_sub(self, earlier: DateTime) -> (r: Option<Duration>)
        ensures
            r matches Some(d) ==> d.secs == self.secs - earlier.secs,
            r is None <==> !fits_i64(self.secs - earlier.secs),
    {
        match self.secs.checked_sub(earlier.secs) {
            Some(s) => Some(Duration { secs: s }),
            None => None,
        }
    }
}

impl Duration {
    pub fn from_secs(secs: i64) -> (r: Duration)
        ensures
            r.secs == secs,
    {
        Duration { secs }
    }
}

/// Whether a mathematical integer is representable as an `i64`.
pub open spec fn fits_i64(v: int) -> bool {
    i64::MIN <= v <= i64::MAX
}

/// The year and zero-based month of the instant `secs`, by the proleptic
/// Gregorian calendar in UTC, or `None` if the instant lies outside the
/// calendar's representable range.  The meaning of this function is fixed
/// by chrono; nothing in this crate defines it.
pub uninterp spec fn civil_year_month0(secs: int) -> Option<(int, int)>;

/// The instant obtained from `secs` by replacing its calendar year with
/// `year` and its zero-based month with `month0`, keeping the day of month
/// and the time of day, or `None` if no such calendar date exists (for
/// example day 31 in a month of 30 days).  Fixed by chrono, as above.
pub uninterp spec fn with_year_month0_at(secs: int, year: int, month0: int) -> Option<int>;

/// Relies on chrono's `DateTime::<Utc>::from_timestamp` and the `Datelike`
/// accessors `year` and `month0`: for an in-range timestamp they return the
/// UTC calendar year and zero-based month (always below 12), and they
/// depend on the timestamp alone.
#[verifier::external_body]
pub fn year_month0(t: DateTime) -> (r: Option<(i32, u32)>)
    ensures
        r matches Some(p) ==> civil_year_month0(t.secs as int) == Some((p.0 as int, p.1 as int))
            && p.1 < 12,
        r is None ==> civil_year_month0(t.secs as int) is None,
{
    match chrono::DateTime::<chrono::Utc>::from_timestamp(t.secs, 0) {
        Some(dt) => Some((chrono::Datelike::year(&dt), chrono::Datelike::month0(&dt))),
        None => None,
    }
}

/// Relies on chrono's `Datelike::with_year` and `Datelike::with_month0` on
/// a UTC datetime, applied in that order: the composition changes the year
/// and then the zero-based month, and fails when either step lands on a
/// calendar date that does not exist (including an intermediate one, such
/// as the leap day under a changed year) or out of range.  Both steps
/// depend on their arguments alone (UTC has no local-time transitions).
#[verifier::external_body]
pub fn set_year_month0(t: DateTime, year: i32, month0: u32) -> (r: Option<DateTime>)
    ensures
        r matches Some(u) ==> with_year_month0_at(t.secs as int, year as int, month0 as int)
            == Some(u.secs as int),
        r is None ==> with_year_month0_at(t.secs as int, year as int, month0 as int) is None,
{
    let dt = chrono::DateTime::<chrono::Utc>::from_timestamp(t.secs, 0)?;
    let dt = chrono::Datelike::with_year(&dt, year)?;
    let dt = chrono::Datelike::with_month0(&dt, month0)?;
    Some(DateTime { secs: dt.timestamp() })
}

/// Relies on the standard clock: the current wall-clock instant as whole
/// seconds since the Unix epoch (negative for an instant before it,
/// saturated at the representable range).  Nothing is assumed of the
/// value, and no clock reading makes it panic: both directions of
/// `SystemTime::duration_since` are handled.
#[verifier::external_body]
pub fn now() -> DateTime {
    let clock = std::time::SystemTime::now().duration_since(std::time::UNIX_EPOCH);
    let secs = match clock {
        Ok(since) => i64::try_from(since.as_secs()).unwrap_or(i64::MAX),
        Err(before) => i64::try_from(before.duration().as_secs()).map_or(i64::MIN, |s| -s),
    };
    DateTime { secs }
}

} // verus!
