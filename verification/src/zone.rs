//! Time zones: the step between UTC and the wall clock of a zone.

use crate::calendar::{Date, DateTime, Time};
use chrono::{Datelike, Offset, TimeZone, Timelike};
use vstd::prelude::*;

verus! {

/// A time zone, known by its name in the IANA database.
#[derive(Debug)]
pub struct Tz {
    pub name: String,
}

/// What the wall clock of the zone named `zone` shows at the UTC moment
/// `utc`; none where the database has no zone of that name, or chrono cannot
/// represent the local moment.
pub uninterp spec fn zone_local_time(zone: Seq<char>, utc: DateTime) -> Option<DateTime>;

/// The earliest UTC moment at which the wall clock of the zone named `zone`
/// shows `local`; none where the database has no zone of that name, the wall
/// clock skips `local`, or chrono cannot represent the moment.
pub uninterp spec fn zone_utc_time(zone: Seq<char>, local: DateTime) -> Option<DateTime>;

/// Looks the zone up by name in chrono-tz and adds to `utc` the offset that
/// `TimeZone::offset_from_utc_datetime` gives for it, with
/// `NaiveDateTime::checked_add_offset`. Trusted: the result is a function of
/// the name and the moment alone, and is a moment of the calendar.
#[verifier::external_body]
pub(crate) fn chrono_utc_to_local(zone: &Tz, utc: DateTime) -> (r: Option<DateTime>)
    requires
        utc.wf(),
    ensures
        r == zone_local_time(zone.name@, utc),
        r matches Some(local) ==> local.wf(),
{
    let tz: chrono_tz::Tz = zone.name.parse().ok()?;
    let date = chrono::NaiveDate::from_ymd_opt(utc.date.year, utc.date.month, utc.date.day)?;
    let naive = date.and_hms_opt(utc.time.hour, utc.time.minute, utc.time.second)?;
    let local = naive.checked_add_offset(tz.offset_from_utc_datetime(&naive).fix())?;
    Some(
        DateTime {
            date: Date { year: local.year(), month: local.month(), day: local.day() },
            time: Time { hour: local.hour(), minute: local.minute(), second: local.second() },
        },
    )
}

/// Looks the zone up by name in chrono-tz and calls
/// `TimeZone::from_local_datetime`, then `MappedLocalTime::earliest`.
/// Trusted: the result is a function of the name and the moment alone, and
/// is a moment of the calendar.
#[verifier::external_body]
pub(crate) fn chrono_local_to_utc(zone: &Tz, local: DateTime) -> (r: Option<DateTime>)
    requires
        local.wf(),
    ensures
        r == zone_utc_time(zone.name@, local),
        r matches Some(utc) ==> utc.wf(),
{
    let tz: chrono_tz::Tz = zone.name.parse().ok()?;
    let date = chrono::NaiveDate::from_ymd_opt(local.date.year, local.date.month, local.date.day)?;
    let naive = date.and_hms_opt(local.time.hour, local.time.minute, local.time.second)?;
    let utc = tz.from_local_datetime(&naive).earliest()?.naive_utc();
    Some(
        DateTime {
            date: Date { year: utc.year(), month: utc.month(), day: utc.day() },
            time: Time { hour: utc.hour(), minute: utc.minute(), second: utc.second() },
        },
    )
}

impl Tz {
    /// The zone of that name.
    pub fn new(name: String) -> (r: Tz)
        ensures
            r.name@ == name@,
    {
        Tz { name }
    }
}

} // verus!
