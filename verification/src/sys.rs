//! The machine's clock, calendar and home directory, behind trusted
//! wrappers. Clock readings and time-zone conversions depend on the
//! machine and the moment, so their contracts promise nothing of the
//! values; the aggregation that uses them is exact in those values.

use chrono::Datelike;
use chrono::TimeZone;
use vstd::prelude::*;

verus! {

/// Relies on std's `SystemTime::now` and `duration_since`: the clock's
/// current time in whole seconds since the Unix epoch, read fallibly.
/// `None` stands for a clock set before the epoch, whose reading comes
/// back as the error arm, or one so far past it that the seconds leave
/// `i64`. A span since the epoch is never negative, so a reading is not;
/// nothing else can be promised of a clock.
#[verifier::external_body]
fn epoch_now() -> (r: Option<i64>)
    ensures
        r matches Some(t) ==> 0 <= t,
{
    match std::time::SystemTime::now().duration_since(std::time::UNIX_EPOCH) {
        Ok(span) => i64::try_from(span.as_secs()).ok(),
        Err(_) => None,
    }
}

/// Relies on chrono's `Local` calendar: the Unix epoch second of local
/// midnight of the day that holds `t`, or `None` where the local
/// calendar does not resolve `t` or that midnight to a single instant.
/// The result depends on the machine's time zone, so nothing is promised
/// of it.
#[verifier::external_body]
fn local_midnight_epoch(t: i64) -> Option<i64> {
    let dt = chrono::Local.timestamp_opt(t, 0).single()?;
    let mid = chrono::Local.with_ymd_and_hms(dt.year(), dt.month(), dt.day(), 0, 0, 0)
        .single()?;
    Some(mid.timestamp())
}

/// Relies on shellexpand's `tilde`: a leading `~` is replaced with the
/// home directory; text that does not start with `~` comes back as it
/// went in.
#[verifier::external_body]
fn expand_tilde(path: &str) -> (r: String)
    ensures
        path@.len() > 0 && path@[0] != '~' ==> r@ == path@,
{
    shellexpand::tilde(path).to_string()
}

/// The clock's current time, in Unix epoch seconds, or `None` where the
/// machine's clock stands before the epoch or past what an `i64` holds.
/// A clock reading: no two calls need agree, and nothing more than its
/// sign is known of the value.
pub fn current_epoch_seconds() -> (r: Option<i64>)
    ensures
        r matches Some(t) ==> 0 <= t,
{
    epoch_now()
}

/// The daily and weekly window thresholds: local midnight of the day
/// that holds `now`, and local midnight of the day six days earlier,
/// both as epoch seconds. `None` where the local calendar does not
/// resolve them. The values depend on the machine's time zone.
pub fn local_window_starts(now: i64) -> Option<(i64, i64)> {
    let day = match local_midnight_epoch(now) {
        Some(d) => d,
        None => {
            return None;
        },
    };
    let anchor = match now.checked_sub(518400) {
        Some(a) => a,
        None => {
            return None;
        },
    };
    let week = match local_midnight_epoch(anchor) {
        Some(w) => w,
        None => {
            return None;
        },
    };
    Some((day, week))
}

/// The file-system path of a home-relative path: a leading `~` becomes
/// the home directory; any other path is returned unchanged.
pub fn expand_user_path(path: &str) -> (r: String)
    ensures
        path@.len() > 0 && path@[0] != '~' ==> r@ == path@,
{
    expand_tilde(path)
}

} // verus!
