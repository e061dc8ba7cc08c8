//! Points in time.
use vstd::prelude::*;

use crate::transcode::timing;

verus! {

/// Seconds since 1970 and nanoseconds on top. A leap second has more than a
/// billion nanoseconds.
#[derive(Clone, Copy, Debug, PartialEq, Eq, Structural)]
pub struct Timestamp {
    pub secs: i64,
    pub nanos: u32,
}

impl Timestamp {
    /// A point in time on the calendar: from the year -262143 to the year 262142,
    /// with a leap second only at the end of a minute.
    pub open spec fn valid(self) -> bool {
        &&& -8_334_601_228_800 <= self.secs <= 8_210_266_876_799
        &&& self.nanos < 1_000_000_000 || self.nanos < 2_000_000_000 && self.secs % 60 == 59
    }

    /// Not within a leap second.
    pub open spec fn ordinary(self) -> bool {
        self.nanos < 1_000_000_000
    }

    /// Nanoseconds since 1970, past leap seconds left out.
    pub open spec fn total_nanos(self) -> int {
        self.secs * 1_000_000_000 + self.nanos
    }

    /// Is the point in time on the calendar?
    pub fn is_valid(&self) -> (r: bool)
        ensures
            r == self.valid(),
    {
        self.secs >= -8_334_601_228_800 && self.secs <= 8_210_266_876_799 && (self.nanos
            < 1_000_000_000 || self.nanos < 2_000_000_000 && ends_minute(self.secs))
    }
}

fn ends_minute(secs: i64) -> (r: bool)
    requires
        -8_334_601_228_800 <= secs <= 8_210_266_876_799,
    ensures
        r == (secs % 60 == 59),
{
    // A whole number of minutes moves the range to where remainders are plain.
    let moved: u64 = (secs + 8_334_601_228_800) as u64;
    assert(moved % 60 == (secs as int) % 60) by {
        vstd::arithmetic::div_mod::lemma_mod_multiples_vanish(
            138_910_020_480,
            secs as int,
            60,
        );
    }
    moved % 60 == 59
}

/// The leap second between two points in time, as far as it is counted: the one
/// that `then` stands in counts where `now` is later in the day, and the one that
/// `now` stands in where `now` is earlier in the day.
pub open spec fn leap_between(now: Timestamp, then: Timestamp) -> int {
    if now.secs as int % 86_400 > then.secs as int % 86_400 && !then.ordinary() {
        1
    } else if (now.secs as int % 86_400) < then.secs as int % 86_400 && !now.ordinary() {
        -1
    } else {
        0
    }
}

/// The whole seconds from `then` to `now`, rounded toward zero.
pub open spec fn elapsed_seconds(now: Timestamp, then: Timestamp) -> int {
    timing::quotient(
        now.total_nanos() - then.total_nanos() + leap_between(now, then) * 1_000_000_000,
        1_000_000_000,
    )
}

/// The whole seconds from `then` to `now`, rounded toward zero, with a leap second
/// at either end counted as `leap_between` says:
/// `DateTime::signed_duration_since` and `TimeDelta::num_seconds` of chrono on
/// the points in time that `DateTime::from_timestamp` makes of the numbers.
#[verifier::external_body]
pub(crate) fn seconds_between(now: Timestamp, then: Timestamp) -> (r: i64)
    requires
        now.valid(),
        then.valid(),
    ensures
        r == elapsed_seconds(now, then),
{
    let now = chrono::DateTime::from_timestamp(now.secs, now.nanos).unwrap();
    let then = chrono::DateTime::from_timestamp(then.secs, then.nanos).unwrap();
    now.signed_duration_since(then).num_seconds()
}

/// The present, from chrono's `Utc::now`, which ends the program on a clock that
/// is set before 1970. Nothing else is known of it than that it is on the
/// calendar and in no leap second.
#[verifier::external_body]
pub(crate) fn now() -> (r: Timestamp)
    ensures
        r.valid(),
        r.ordinary(),
        r.secs >= 0,
{
    let now = chrono::Utc::now();
    Timestamp { secs: now.timestamp(), nanos: now.timestamp_subsec_nanos() }
}

/// How chrono writes a point in time.
pub uninterp spec fn timestamp_text(secs: i64, nanos: u32) -> Seq<char>;

/// A point in time in words: what chrono's `Display` of a `DateTime<Utc>` writes.
#[verifier::external_body]
pub(crate) fn show_timestamp(at: Timestamp) -> (r: String)
    requires
        at.valid(),
    ensures
        r@ == timestamp_text(at.secs, at.nanos),
{
    chrono::DateTime::from_timestamp(at.secs, at.nanos).unwrap().to_string()
}

/// Between two times outside of leap seconds, the elapsed seconds are the whole
/// seconds from the one to the other, and as many backwards with the sign changed.
pub proof fn elapsed_seconds_are_whole(now: Timestamp, then: Timestamp)
    requires
        now.nanos < 1_000_000_000,
        then.nanos < 1_000_000_000,
    ensures
        ({
            let passed = (now.secs - then.secs) * 1_000_000_000 + now.nanos - then.nanos;
            let n = elapsed_seconds(now, then);
            &&& passed >= 0 ==> 1_000_000_000 * n <= passed < 1_000_000_000 * (n + 1)
            &&& passed < 0 ==> n <= 0
            &&& elapsed_seconds(then, now) == -n
        }),
{
    let passed = (now.secs - then.secs) * 1_000_000_000 + now.nanos - then.nanos;
    assert(now.total_nanos() - then.total_nanos() == passed);
    if passed >= 0 {
        timing::quotients_divide(passed, 1_000_000_000);
    } else {
        timing::quotients_divide(-passed, 1_000_000_000);
    }
}

} // verus!
