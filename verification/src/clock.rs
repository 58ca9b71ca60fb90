//! The wall clock, and how a moment is written down.

use crate::number::format_decimal;
use crate::text::{opt_text, string_of};
use chrono::DateTime;
use std::time::{SystemTime, UNIX_EPOCH};
use vstd::prelude::*;

verus! {

/// A moment: whole seconds since the Unix epoch and the nanoseconds into
/// the running second.
pub struct Moment {
    pub secs: u64,
    pub nanos: u32,
}

/// Reads `SystemTime::now` and measures it from `UNIX_EPOCH` with
/// `duration_since`; nothing where the clock is set before the epoch.
/// Nothing is claimed of the reading but that the nanoseconds are less than
/// a second: it differs from call to call.
#[verifier::external_body]
fn system_time() -> (reading: Option<Moment>)
    ensures
        reading matches Some(moment) ==> moment.nanos < 1_000_000_000,
{
    match SystemTime::now().duration_since(UNIX_EPOCH) {
        Ok(elapsed) => Some(Moment { secs: elapsed.as_secs(), nanos: elapsed.subsec_nanos() }),
        Err(_) => None,
    }
}

/// The moment that a reading of the clock stands for: the reading itself,
/// or the epoch where the clock is set before it.
pub open spec fn moment_of(reading: Option<Moment>) -> Moment {
    match reading {
        Some(moment) => moment,
        None => (Moment { secs: 0, nanos: 0 }),
    }
}

/// The moment that a reading of the clock stands for.
pub fn read_moment(reading: Option<Moment>) -> (moment: Moment)
    ensures
        moment == moment_of(reading),
{
    match reading {
        Some(moment) => moment,
        None => Moment { secs: 0, nanos: 0 },
    }
}

/// The present moment; the epoch where the clock is set before it.
pub fn now() -> (now: Moment)
    ensures
        now.nanos < 1_000_000_000,
{
    read_moment(system_time())
}

/// The present time in seconds since the Unix epoch.
pub fn now_secs() -> u64 {
    now().secs
}

/// Milliseconds from the Unix epoch to the moment; the largest number that
/// fits where the moment is too far off.
pub open spec fn millis_of(moment: Moment) -> i64 {
    if moment.secs * 1000 + moment.nanos / 1_000_000 > i64::MAX {
        i64::MAX
    } else {
        (moment.secs * 1000 + moment.nanos / 1_000_000) as i64
    }
}

/// Milliseconds from the Unix epoch to the moment.
pub fn millis(moment: &Moment) -> (ms: i64)
    ensures
        ms == millis_of(*moment),
{
    let sub: u64 = (moment.nanos / 1_000_000) as u64;
    if moment.secs > (i64::MAX as u64 - sub) / 1000 {
        i64::MAX
    } else {
        (moment.secs * 1000 + sub) as i64
    }
}

/// The present time in milliseconds since the Unix epoch: the moment that
/// the clock gives, in milliseconds. It is never before the epoch.
pub fn now_ms() -> (ms: i64)
    ensures
        exists|moment: Moment| moment.nanos < 1_000_000_000 && ms == #[trigger] millis_of(moment),
        ms >= 0,
{
    let moment = now();
    millis(&moment)
}

/// How the calendar writes a moment of coordinated universal time, such as
/// `2015-05-15 00:00:00 UTC`; nothing for a moment that the calendar cannot
/// hold.
pub uninterp spec fn utc_text(secs: i64, nanos: u32) -> Option<Seq<char>>;

/// Calls `chrono::DateTime::from_timestamp` and writes the result out as
/// its `Display` does. The contract gives the text the name `utc_text`: it
/// depends on the seconds and nanoseconds alone.
#[verifier::external_body]
fn format_utc(secs: i64, nanos: u32) -> (out: Option<String>)
    ensures
        opt_text(out) == utc_text(secs, nanos),
{
    match DateTime::from_timestamp(secs, nanos) {
        Some(moment) => Some(moment.to_string()),
        None => None,
    }
}

/// The text that stamps a moment: as the calendar writes it, or the bare
/// count of seconds where the calendar cannot hold the moment.
pub open spec fn stamp_of(moment: Moment) -> Seq<char> {
    if moment.secs <= i64::MAX && utc_text(moment.secs as i64, moment.nanos) is Some {
        utc_text(moment.secs as i64, moment.nanos)->0
    } else {
        crate::number::decimal_text(moment.secs as nat)
    }
}

/// Writes the moment down for a log.
pub fn stamp(moment: &Moment) -> (out: String)
    ensures
        out@ == stamp_of(*moment),
{
    if moment.secs <= i64::MAX as u64 {
        match format_utc(moment.secs as i64, moment.nanos) {
            Some(text) => {
                return text;
            },
            None => {},
        }
    }
    let digits = format_decimal(moment.secs);
    string_of(digits.as_slice())
}

} // verus!
