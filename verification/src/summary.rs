//! The duration aggregator: given all log lines and the current time, the
//! seconds tracked all time, inside the weekly window, and inside the
//! daily window, and the spelling of a duration for display.

use crate::num::canonical_decimal;
use crate::record::{
    classify_line, is_record_line, line_ok, line_seconds, line_start, LineKind,
};
use crate::store::ClockError;
use crate::text::{lines_of, split_lines};
use vstd::prelude::*;

verus! {

/// The three totals a summarize reports, in seconds.
pub struct Totals {
    pub all_time: i64,
    pub last_week: i64,
    pub last_day: i64,
}

/// A value held to what an `i64` can carry.
pub open spec fn clamp64(x: int) -> int {
    if x > i64::MAX {
        i64::MAX as int
    } else {
        x
    }
}

/// Every record line among `ls` has well-formed timestamp fields.
pub open spec fn lines_ok(ls: Seq<Seq<char>>) -> bool {
    forall|i: int| 0 <= i < ls.len() ==> line_ok(#[trigger] ls[i])
}

/// The seconds of every record line, an open record ending now.
pub open spec fn total_seconds(ls: Seq<Seq<char>>, now: int) -> int
    decreases ls.len(),
{
    if ls.len() == 0 {
        0
    } else {
        total_seconds(ls.drop_last(), now) + if is_record_line(ls.last()) {
            line_seconds(ls.last(), now)
        } else {
            0
        }
    }
}

/// The seconds of every record line that started after `threshold`.
pub open spec fn window_seconds(ls: Seq<Seq<char>>, now: int, threshold: int) -> int
    decreases ls.len(),
{
    if ls.len() == 0 {
        0
    } else {
        window_seconds(ls.drop_last(), now, threshold) + if is_record_line(ls.last())
            && line_start(ls.last()) > threshold {
            line_seconds(ls.last(), now)
        } else {
            0
        }
    }
}

/// No line ever takes seconds away from a total.
pub proof fn lemma_total_seconds_nonneg(ls: Seq<Seq<char>>, now: int)
    ensures
        total_seconds(ls, now) >= 0,
    decreases ls.len(),
{
    if ls.len() > 0 {
        lemma_total_seconds_nonneg(ls.drop_last(), now);
    }
}

/// No line ever takes seconds away from a windowed total.
pub proof fn lemma_window_seconds_nonneg(ls: Seq<Seq<char>>, now: int, threshold: int)
    ensures
        window_seconds(ls, now, threshold) >= 0,
    decreases ls.len(),
{
    if ls.len() > 0 {
        lemma_window_seconds_nonneg(ls.drop_last(), now, threshold);
    }
}

/// Adds nonnegative seconds, saturating at what an `i64` can carry.
fn sat_add_nonneg(a: i64, b: i64) -> (r: i64)
    requires
        0 <= a,
        0 <= b,
    ensures
        r == clamp64(a + b),
{
    if a > i64::MAX - b {
        i64::MAX
    } else {
        a + b
    }
}

/// Law: a line that is not a record line is excluded from every total:
/// removing it changes neither the all-time seconds nor any windowed
/// seconds.
pub proof fn lemma_malformed_line_ignored(
    ls: Seq<Seq<char>>,
    i: int,
    now: int,
    threshold: int,
)
    requires
        0 <= i < ls.len(),
        !is_record_line(ls[i]),
    ensures
        total_seconds(ls, now) == total_seconds(ls.remove(i), now),
        window_seconds(ls, now, threshold) == window_seconds(ls.remove(i), now, threshold),
    decreases ls.len(),
{
    if i == ls.len() - 1 {
        assert(ls.remove(i) =~= ls.drop_last());
    } else {
        assert(ls.remove(i).drop_last() =~= ls.drop_last().remove(i));
        assert(ls.remove(i).last() == ls.last());
        lemma_malformed_line_ignored(ls.drop_last(), i, now, threshold);
    }
}

/// Computes the three totals over the log text. Fails exactly when some
/// record line holds a field that is not a nonnegative decimal timestamp;
/// lines that are not record lines are skipped. Each total is the exact
/// sum of its window, held to what an `i64` can carry.
pub fn summarize(contents: &str, now: i64, week_threshold: i64, day_threshold: i64) -> (r:
    Result<Totals, ClockError>)
    ensures
        r is Ok <==> lines_ok(lines_of(contents@)),
        r is Ok ==> {
            let ls = lines_of(contents@);
            &&& r->Ok_0.all_time == clamp64(total_seconds(ls, now as int))
            &&& r->Ok_0.last_week == clamp64(
                window_seconds(ls, now as int, week_threshold as int),
            )
            &&& r->Ok_0.last_day == clamp64(
                window_seconds(ls, now as int, day_threshold as int),
            )
            &&& 0 <= r->Ok_0.all_time && 0 <= r->Ok_0.last_week && 0 <= r->Ok_0.last_day
        },
{
    let lines = split_lines(contents);
    let ghost ls = lines_of(contents@);
    let mut all: i64 = 0;
    let mut week: i64 = 0;
    let mut day: i64 = 0;
    let mut i: usize = 0;
    proof {
        assert(ls.take(0) =~= Seq::<Seq<char>>::empty());
    }
    while i < lines.len()
        invariant
            0 <= i <= lines.len(),
            ls == lines_of(contents@),
            lines.deep_view() == ls,
            lines.len() == ls.len(),
            forall|k: int| 0 <= k < i ==> line_ok(#[trigger] ls[k]),
            0 <= all && all == clamp64(total_seconds(ls.take(i as int), now as int)),
            0 <= week && week == clamp64(
                window_seconds(ls.take(i as int), now as int, week_threshold as int),
            ),
            0 <= day && day == clamp64(
                window_seconds(ls.take(i as int), now as int, day_threshold as int),
            ),
        decreases lines.len() - i,
    {
        let line: &String = &lines[i];
        proof {
            assert(line@ == ls[i as int]);
            assert(ls.take(i as int + 1).drop_last() =~= ls.take(i as int));
            assert(ls.take(i as int + 1).last() == ls[i as int]);
            lemma_total_seconds_nonneg(ls.take(i as int), now as int);
            lemma_window_seconds_nonneg(
                ls.take(i as int),
                now as int,
                week_threshold as int,
            );
            lemma_window_seconds_nonneg(
                ls.take(i as int),
                now as int,
                day_threshold as int,
            );
        }
        match classify_line(line.as_str()) {
            LineKind::NotRecord => {},
            LineKind::Corrupt => {
                proof {
                    assert(!line_ok(ls[i as int]));
                    assert(!lines_ok(lines_of(contents@)));
                }
                return Err(ClockError::BadTimestamp { field: line.clone() });
            },
            LineKind::Open { start } => {
                proof {
                    assert(line_ok(ls[i as int]));
                    crate::num::lemma_dec_value_nonneg(
                        crate::record::first_field(ls[i as int]),
                    );
                }
                let dur = if now >= start {
                    now - start
                } else {
                    0
                };
                all = sat_add_nonneg(all, dur);
                if start > week_threshold {
                    week = sat_add_nonneg(week, dur);
                }
                if start > day_threshold {
                    day = sat_add_nonneg(day, dur);
                }
            },
            LineKind::Closed { start, end } => {
                proof {
                    assert(line_ok(ls[i as int]));
                    crate::num::lemma_dec_value_nonneg(
                        crate::record::first_field(ls[i as int]),
                    );
                    crate::num::lemma_dec_value_nonneg(
                        crate::record::second_field(ls[i as int]),
                    );
                }
                let dur = if end >= start {
                    end - start
                } else {
                    0
                };
                all = sat_add_nonneg(all, dur);
                if start > week_threshold {
                    week = sat_add_nonneg(week, dur);
                }
                if start > day_threshold {
                    day = sat_add_nonneg(day, dur);
                }
            },
        }
        i = i + 1;
    }
    proof {
        assert(ls.take(ls.len() as int) =~= ls);
    }
    Ok(Totals { all_time: all, last_week: week, last_day: day })
}

/// `r` spells the duration for display: the prefix, then hours, minutes
/// and seconds by integer division, each in canonical decimal.
pub open spec fn duration_display(r: Seq<char>, prefix: Seq<char>, secs: int) -> bool {
    exists|h: Seq<char>, m: Seq<char>, s: Seq<char>|
        {
            &&& canonical_decimal(h, secs / 3600)
            &&& canonical_decimal(m, (secs % 3600) / 60)
            &&& canonical_decimal(s, (secs % 3600) % 60)
            &&& r == prefix + " "@ + h + " hours, "@ + m + " minutes, "@ + s
                + " seconds."@
        }
}

/// Spells a duration as `H hours, M minutes, S seconds.` after the given
/// prefix.
pub fn display_duration(secs: i64, prefix: &str) -> (r: String)
    requires
        0 <= secs,
    ensures
        duration_display(r@, prefix@, secs as int),
{
    let hours = secs / 3600;
    let rem = secs % 3600;
    let minutes = rem / 60;
    let seconds = rem % 60;
    let h = crate::num::encode_decimal(hours);
    let m = crate::num::encode_decimal(minutes);
    let s = crate::num::encode_decimal(seconds);
    let mut out = String::from_str(prefix);
    out.append(" ");
    out.append(h.as_str());
    out.append(" hours, ");
    out.append(m.as_str());
    out.append(" minutes, ");
    out.append(s.as_str());
    out.append(" seconds.");
    proof {
        assert(out@ =~= prefix@ + " "@ + h@ + " hours, "@ + m@ + " minutes, "@ + s@
            + " seconds."@);
        assert(canonical_decimal(h@, secs as int / 3600));
        assert(canonical_decimal(m@, (secs as int % 3600) / 60));
        assert(canonical_decimal(s@, (secs as int % 3600) % 60));
        assert(duration_display(out@, prefix@, secs as int));
    }
    out
}

} // verus!
