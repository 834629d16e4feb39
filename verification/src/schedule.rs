//! When a schedule fires next: a cron expression read against the wall
//! clock of a time zone.
//!
//! The cron expression and the search for the next matching civil time are
//! this library's own; what the wall clock shows at an instant, and which
//! instant a civil time names, come from the time zone database of `jiff`.

use vstd::prelude::*;
use crate::calendar::{lemma_time_stamp, CivilTime};
use crate::cron::{cron_of, fires_at, is_next, CronSchedule, CronView};
use crate::error::ScheduleError;

verus! {

/// A time zone of `jiff`, carried through as it is.
#[verifier::external_type_specification]
#[verifier::external_body]
pub struct ExTimeZone(jiff::tz::TimeZone);

/// The error of `jiff`, carried through as it is.
#[verifier::external_type_specification]
#[verifier::external_body]
pub struct ExZoneError(jiff::Error);

/// Calls `jiff::tz::TimeZone::get`, which looks the identifier up in the
/// time zone database. The contract claims nothing of the outcome.
#[verifier::external_body]
fn find_zone(name: &str) -> (r: Result<jiff::tz::TimeZone, jiff::Error>) {
    jiff::tz::TimeZone::get(name)
}

/// Calls `jiff::tz::TimeZone::to_datetime` on the instant `second` seconds
/// after the Unix epoch, and hands back what the wall clock of the zone
/// shows then, or `None` where `jiff` refuses the instant. The contract
/// claims nothing of the outcome; the caller checks what comes back.
#[verifier::external_body]
fn civil_at(zone: &jiff::tz::TimeZone, second: i64) -> (r: Option<CivilTime>) {
    let shown = zone.to_datetime(jiff::Timestamp::from_second(second).ok()?);
    Some(
        CivilTime {
            year: shown.year(),
            month: shown.month(),
            day: shown.day(),
            hour: shown.hour(),
            minute: shown.minute(),
            second: shown.second(),
        },
    )
}

/// Calls `jiff::tz::TimeZone::to_timestamp` on the civil time, and hands
/// back the instant in seconds after the Unix epoch, or `None` where `jiff`
/// refuses the civil time or the instant. Where the wall clock skips the
/// civil time, `jiff` takes the time after the gap; where it shows the
/// civil time twice, `jiff` takes the first. The contract claims nothing of
/// the outcome.
#[verifier::external_body]
fn instant_in(zone: &jiff::tz::TimeZone, civil: &CivilTime) -> (r: Option<i64>) {
    let shown = jiff::civil::DateTime::new(
        civil.year,
        civil.month,
        civil.day,
        civil.hour,
        civil.minute,
        civil.second,
        0,
    ).ok()?;
    Some(zone.to_timestamp(shown).ok()?.as_second())
}

/// What becomes of a civil time that the schedule has matched.
#[derive(Clone, Copy, Debug, PartialEq, Eq, Structural)]
pub enum Verdict {
    /// The civil time names this instant, which lies after now: it is the
    /// trigger.
    Fire(i64),
    /// The civil time names an instant that is not after now, as happens
    /// when the clock has been set back: the search goes on.
    Skip,
    /// The civil time names no instant that can be represented.
    GiveUp,
}

/// Decides what becomes of a matched civil time, given the instant that it
/// names.
pub fn judge(now: i64, instant: Option<i64>) -> (verdict: Verdict)
    ensures
        verdict == match instant {
            Some(t) => if t > now {
                Verdict::Fire(t)
            } else {
                Verdict::Skip
            },
            None => Verdict::GiveUp,
        },
{
    match instant {
        Some(t) => if t > now {
            Verdict::Fire(t)
        } else {
            Verdict::Skip
        },
        None => Verdict::GiveUp,
    }
}

/// The first time after a given one at which a schedule fires is
/// determined by the schedule and that time alone.
pub proof fn lemma_next_is_unique(
    cron: CronView,
    after: CivilTime,
    a: CivilTime,
    b: CivilTime,
)
    requires
        is_next(cron, after, a),
        is_next(cron, after, b),
    ensures
        a == b,
{
    lemma_time_stamp(a, b);
    if a.stamp() < b.stamp() {
        assert(!fires_at(cron, a));
    } else if b.stamp() < a.stamp() {
        assert(!fires_at(cron, b));
    }
}

/// Whether the civil time `c` names an instant that is not after `now`,
/// according to `instant_of`.
pub open spec fn passed<F: Fn(CivilTime) -> Option<i64>>(
    instant_of: F,
    c: CivilTime,
    now: i64,
) -> bool {
    exists|u: i64| call_ensures(instant_of, (c,), Some(u)) && u <= now
}

/// Whether every civil time after `shown` and before the stamp `until` at
/// which the schedule fires names an instant that is not after `now`.
pub open spec fn all_passed<F: Fn(CivilTime) -> Option<i64>>(
    cron: CronView,
    instant_of: F,
    shown: CivilTime,
    until: int,
    now: i64,
) -> bool {
    forall|c: CivilTime|
        c.valid() && #[trigger] fires_at(cron, c) && shown.stamp() < c.stamp() < until ==> passed(
            instant_of,
            c,
            now,
        )
}

/// Whether the schedule fires at `c`, a civil time after `shown`, and every
/// civil time between the two at which it fires names an instant that is
/// not after `now`.
pub open spec fn first_open<F: Fn(CivilTime) -> Option<i64>>(
    cron: CronView,
    instant_of: F,
    shown: CivilTime,
    c: CivilTime,
    now: i64,
) -> bool {
    &&& c.valid()
    &&& fires_at(cron, c)
    &&& shown.stamp() < c.stamp()
    &&& all_passed(cron, instant_of, shown, c.stamp(), now)
}

/// A stamp beyond that of every civil time.
pub open spec fn end_of_time() -> int {
    (CivilTime { year: 9999, month: 12, day: 31, hour: 23, minute: 59, second: 59 }).stamp() + 1
}

/// Whether `r` is the outcome of the search for the first trigger: the
/// instant that the first civil time after `shown` names at which the
/// schedule fires, not counting civil times that name an instant which is
/// not after `now`; or a failure, because `shown` does not exist, because
/// the first civil time that was not passed over names no instant, or
/// because all were passed over up to the end of the calendar.
pub open spec fn triggers<F: Fn(CivilTime) -> Option<i64>>(
    cron: CronView,
    instant_of: F,
    shown: CivilTime,
    now: i64,
    r: Result<i64, ScheduleError>,
) -> bool {
    match r {
        Ok(t) => shown.valid() && t > now && exists|c: CivilTime|
            first_open(cron, instant_of, shown, c, now) && #[trigger] call_ensures(
                instant_of,
                (c,),
                Some(t),
            ),
        Err(e) => e == ScheduleError::NoOccurrence && (!shown.valid() || all_passed(
            cron,
            instant_of,
            shown,
            end_of_time(),
            now,
        ) || exists|c: CivilTime|
            first_open(cron, instant_of, shown, c, now) && #[trigger] call_ensures(
                instant_of,
                (c,),
                None::<i64>,
            )),
    }
}

/// Whether `instant_of` answers each civil time in one way only.
pub open spec fn single_valued<F: Fn(CivilTime) -> Option<i64>>(instant_of: F) -> bool {
    forall|c: CivilTime, a: Option<i64>, b: Option<i64>|
        #![trigger call_ensures(instant_of, (c,), a), call_ensures(instant_of, (c,), b)]
        call_ensures(instant_of, (c,), a) && call_ensures(instant_of, (c,), b) ==> a == b
}

/// Where each civil time names one instant at most, the search for the
/// first trigger has one outcome only: it is determined by the schedule,
/// the wall clock and the instant.
pub proof fn lemma_trigger_is_determined<F: Fn(CivilTime) -> Option<i64>>(
    cron: CronView,
    instant_of: F,
    shown: CivilTime,
    now: i64,
    r1: Result<i64, ScheduleError>,
    r2: Result<i64, ScheduleError>,
)
    requires
        single_valued(instant_of),
        triggers(cron, instant_of, shown, now, r1),
        triggers(cron, instant_of, shown, now, r2),
    ensures
        r1 == r2,
{
    match (r1, r2) {
        (Ok(t1), Ok(t2)) => {
            let c1 = choose|c: CivilTime|
                first_open(cron, instant_of, shown, c, now) && #[trigger] call_ensures(
                    instant_of,
                    (c,),
                    Some(t1),
                );
            let c2 = choose|c: CivilTime|
                first_open(cron, instant_of, shown, c, now) && #[trigger] call_ensures(
                    instant_of,
                    (c,),
                    Some(t2),
                );
            lemma_time_stamp(c1, c2);
            lemma_not_passed(cron, instant_of, shown, now, c1, t1, c2);
            lemma_not_passed(cron, instant_of, shown, now, c2, t2, c1);
        },
        (Ok(t), Err(_)) => {
            lemma_success_excludes_failure(cron, instant_of, shown, now, t);
        },
        (Err(_), Ok(t)) => {
            lemma_success_excludes_failure(cron, instant_of, shown, now, t);
        },
        (Err(_), Err(_)) => {},
    }
}

/// A civil time that names an instant after `now` is not passed over, so
/// it does not lie before the civil time that gives the trigger.
proof fn lemma_not_passed<F: Fn(CivilTime) -> Option<i64>>(
    cron: CronView,
    instant_of: F,
    shown: CivilTime,
    now: i64,
    c: CivilTime,
    t: i64,
    other: CivilTime,
)
    requires
        single_valued(instant_of),
        first_open(cron, instant_of, shown, c, now),
        call_ensures(instant_of, (c,), Some(t)),
        t > now,
        first_open(cron, instant_of, shown, other, now),
    ensures
        other.stamp() <= c.stamp(),
{
    if c.stamp() < other.stamp() {
        assert(passed(instant_of, c, now));
        let u = choose|u: i64| call_ensures(instant_of, (c,), Some(u)) && u <= now;
        assert(Some(u) == Some(t));
    }
}

/// A search that can succeed cannot fail.
proof fn lemma_success_excludes_failure<F: Fn(CivilTime) -> Option<i64>>(
    cron: CronView,
    instant_of: F,
    shown: CivilTime,
    now: i64,
    t: i64,
)
    requires
        single_valued(instant_of),
        triggers(cron, instant_of, shown, now, Ok(t)),
    ensures
        !triggers(cron, instant_of, shown, now, Err(ScheduleError::NoOccurrence)),
{
    let c1 = choose|c: CivilTime|
        first_open(cron, instant_of, shown, c, now) && #[trigger] call_ensures(
            instant_of,
            (c,),
            Some(t),
        );
    lemma_time_stamp(c1, c1);
    if all_passed(cron, instant_of, shown, end_of_time(), now) {
        assert(passed(instant_of, c1, now));
        let u = choose|u: i64| call_ensures(instant_of, (c1,), Some(u)) && u <= now;
        assert(Some(u) == Some(t));
    }
    if exists|c: CivilTime|
        first_open(cron, instant_of, shown, c, now) && #[trigger] call_ensures(
            instant_of,
            (c,),
            None::<i64>,
        ) {
        let c2 = choose|c: CivilTime|
            first_open(cron, instant_of, shown, c, now) && #[trigger] call_ensures(
                instant_of,
                (c,),
                None::<i64>,
            );
        lemma_time_stamp(c1, c2);
        lemma_not_passed(cron, instant_of, shown, now, c1, t, c2);
        if c2.stamp() < c1.stamp() {
            assert(passed(instant_of, c2, now));
            let u = choose|u: i64| call_ensures(instant_of, (c2,), Some(u)) && u <= now;
            assert(Some(u) == None::<i64>);
        } else {
            assert(Some(t) == None::<i64>);
        }
    }
}

/// The first instant after `now` at which the schedule fires, when the
/// wall clock shows `shown` at `now` and `instant_of` tells which instant a
/// civil time names.
///
/// The civil times at which the schedule fires are tried in order, from the
/// first after `shown`. One that names an instant not after `now` is passed
/// over, as happens where the clock has been set back. The first that names
/// a later instant gives the trigger. The search fails when a civil time
/// names no instant, when the calendar ends, or when `shown` does not
/// exist.
pub fn first_trigger<F: Fn(CivilTime) -> Option<i64>>(
    cron: &CronSchedule,
    shown: &CivilTime,
    now: i64,
    instant_of: F,
) -> (r: Result<i64, ScheduleError>)
    requires
        forall|c: CivilTime| c.valid() ==> call_requires(instant_of, (c,)),
    ensures
        triggers(cron@, instant_of, *shown, now, r),
{
    if !shown.is_valid() {
        return Err(ScheduleError::NoOccurrence);
    }
    let mut cursor = *shown;
    loop
        invariant
            shown.valid(),
            cursor.valid(),
            shown.stamp() <= cursor.stamp(),
            forall|c: CivilTime| c.valid() ==> call_requires(instant_of, (c,)),
            all_passed(cron@, instant_of, *shown, cursor.stamp() + 1, now),
        decreases end_of_time() - cursor.stamp(),
    {
        let found = match cron.next_after(&cursor) {
            Some(found) => found,
            None => {
                proof {
                    assert forall|c: CivilTime|
                        c.valid() && #[trigger] fires_at(cron@, c) && shown.stamp() < c.stamp()
                            < end_of_time() implies passed(instant_of, c, now) by {
                        assert(c.stamp() < cursor.stamp() + 1);
                    }
                }
                return Err(ScheduleError::NoOccurrence);
            },
        };
        proof {
            lemma_time_stamp(found, cursor);
            assert forall|c: CivilTime|
                c.valid() && #[trigger] fires_at(cron@, c) && shown.stamp() < c.stamp()
                    < found.stamp() implies passed(instant_of, c, now) by {
                assert(c.stamp() < cursor.stamp() + 1);
            }
            assert(first_open(cron@, instant_of, *shown, found, now));
        }
        let named = instant_of(found);
        match judge(now, named) {
            Verdict::Fire(t) => {
                return Ok(t);
            },
            Verdict::GiveUp => {
                return Err(ScheduleError::NoOccurrence);
            },
            Verdict::Skip => {
                proof {
                    assert(passed(instant_of, found, now));
                    assert forall|c: CivilTime|
                        c.valid() && #[trigger] fires_at(cron@, c) && shown.stamp() < c.stamp()
                            < found.stamp() + 1 implies passed(instant_of, c, now) by {
                        lemma_time_stamp(c, found);
                    }
                }
                cursor = found;
            },
        }
    }
}

/// The first instant after `now` at which `cron` fires on the wall clock of
/// `zone`.
fn next_trigger_in(cron: &CronSchedule, zone: &jiff::tz::TimeZone, now: i64) -> (r: Result<
    i64,
    ScheduleError,
>)
    ensures
        match r {
            Ok(t) => t > now,
            Err(e) => e == ScheduleError::NoOccurrence,
        },
{
    let shown = match civil_at(zone, now) {
        Some(shown) => shown,
        None => {
            return Err(ScheduleError::NoOccurrence);
        },
    };
    first_trigger(cron, &shown, now, |c: CivilTime| -> (r: Option<i64>) { instant_in(zone, &c) })
}

/// The first instant after `now`, in seconds after the Unix epoch, at which
/// the cron expression fires on the wall clock of the time zone.
///
/// The expression is checked first, then the time zone. Where the clock is
/// set back, a civil time that the schedule lists may name an instant that
/// has passed; the search then goes on to the next listed civil time.
pub fn next_trigger(expression: &str, timezone: &str, now: i64) -> (r: Result<i64, ScheduleError>)
    ensures
        cron_of(expression@) is None <==> r == Err::<i64, ScheduleError>(
            ScheduleError::InvalidExpression,
        ),
        r matches Ok(t) ==> t > now,
{
    let cron = match CronSchedule::parse(expression) {
        Ok(cron) => cron,
        Err(e) => {
            return Err(e);
        },
    };
    let zone = match find_zone(timezone) {
        Ok(zone) => zone,
        Err(_) => {
            return Err(ScheduleError::InvalidTimezone);
        },
    };
    next_trigger_in(&cron, &zone, now)
}

/// Checks a schedule before it is stored: the expression first, then the
/// time zone.
pub fn validate_schedule(expression: &str, timezone: &str) -> (r: Result<(), ScheduleError>)
    ensures
        cron_of(expression@) is None <==> r == Err::<(), ScheduleError>(
            ScheduleError::InvalidExpression,
        ),
        r matches Err(e) ==> e == ScheduleError::InvalidExpression || e
            == ScheduleError::InvalidTimezone,
{
    match CronSchedule::parse(expression) {
        Ok(_) => {},
        Err(e) => {
            return Err(e);
        },
    }
    match find_zone(timezone) {
        Ok(_) => Ok(()),
        Err(_) => Err(ScheduleError::InvalidTimezone),
    }
}

} // verus!
