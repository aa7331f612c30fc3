//! Session records: the reading of one log line as an open session, a
//! closed session, or something else, applied uniformly to every line.

use crate::num::{all_digits, dec_value, is_digit, parse_decimal, valid_timestamp};
use crate::text::{count_char, find_char, lemma_find_char_found, scan_commas};
use vstd::prelude::*;

verus! {

/// The text before the first comma, or the whole line if it has none.
pub open spec fn first_field(l: Seq<char>) -> Seq<char> {
    let j = find_char(l, ',');
    if j < 0 {
        l
    } else {
        l.take(j)
    }
}

/// The text after the first comma.
pub open spec fn second_field(l: Seq<char>) -> Seq<char> {
    let j = find_char(l, ',');
    l.skip(j + 1)
}

/// A record line holds exactly one comma; every other line is ignored.
pub open spec fn is_record_line(l: Seq<char>) -> bool {
    count_char(l, ',') == 1
}

/// An open record: a record line with nothing after the comma.
pub open spec fn is_open_line(l: Seq<char>) -> bool {
    is_record_line(l) && second_field(l).len() == 0
}

/// A closed record: a record line with text after the comma.
pub open spec fn is_closed_line(l: Seq<char>) -> bool {
    is_record_line(l) && second_field(l).len() > 0
}

/// A record line whose timestamp fields are well formed. Lines that are
/// not record lines are trivially acceptable: they are skipped.
pub open spec fn line_ok(l: Seq<char>) -> bool {
    is_record_line(l) ==> {
        &&& valid_timestamp(first_field(l))
        &&& second_field(l).len() > 0 ==> valid_timestamp(second_field(l))
    }
}

/// The start timestamp of a record line.
pub open spec fn line_start(l: Seq<char>) -> int {
    dec_value(first_field(l))
}

/// The end timestamp of a record line: an open record ends now.
pub open spec fn line_end(l: Seq<char>, now: int) -> int {
    if second_field(l).len() == 0 {
        now
    } else {
        dec_value(second_field(l))
    }
}

/// The seconds a record line contributes, saturated at zero.
pub open spec fn line_seconds(l: Seq<char>, now: int) -> int {
    if line_end(l, now) >= line_start(l) {
        line_end(l, now) - line_start(l)
    } else {
        0
    }
}

/// One log line, as the aggregator reads it.
pub enum LineKind {
    /// Not a record line: skipped.
    NotRecord,
    /// An open session, started and not yet ended.
    Open { start: i64 },
    /// A closed session.
    Closed { start: i64, end: i64 },
    /// A record line whose timestamp text does not parse: fatal.
    Corrupt,
}

/// Reads one log line. A line with exactly one comma is a record line;
/// its fields must parse as timestamps, and an empty second field marks
/// the session as still open. Every other line is not a record.
pub fn classify_line(l: &str) -> (r: LineKind)
    ensures
        !is_record_line(l@) ==> r is NotRecord,
        is_record_line(l@) && !line_ok(l@) ==> r is Corrupt,
        is_record_line(l@) && line_ok(l@) && is_open_line(l@) ==> (r matches LineKind::Open {
            start,
        } && start == line_start(l@)),
        is_record_line(l@) && line_ok(l@) && is_closed_line(l@) ==> (r
            matches LineKind::Closed { start, end } && start == line_start(l@) && end
            == line_end(l@, 0)),
{
    let n = l.unicode_len();
    let (cnt, fc) = scan_commas(l);
    if cnt != 1 {
        return LineKind::NotRecord;
    }
    proof {
        lemma_find_char_found(l@, ',');
        assert(first_field(l@) == l@.take(fc as int));
        assert(second_field(l@) == l@.skip(fc as int + 1));
    }
    let first = l.substring_char(0, fc);
    proof {
        assert(first@ =~= first_field(l@));
    }
    let second = l.substring_char(fc + 1, n);
    proof {
        assert(second@ =~= second_field(l@));
    }
    match parse_decimal(first) {
        None => LineKind::Corrupt,
        Some(start) => {
            if second.unicode_len() == 0 {
                LineKind::Open { start }
            } else {
                match parse_decimal(second) {
                    None => LineKind::Corrupt,
                    Some(end) => LineKind::Closed { start, end },
                }
            }
        },
    }
}

/// A line of two digit fields around one comma splits back into exactly
/// those fields.
pub proof fn lemma_record_line_fields(start_text: Seq<char>, end_text: Seq<char>)
    requires
        all_digits(start_text),
        start_text.len() > 0,
        all_digits(end_text),
        end_text.len() > 0,
    ensures
        is_closed_line(start_text + seq![','] + end_text),
        first_field(start_text + seq![','] + end_text) == start_text,
        second_field(start_text + seq![','] + end_text) == end_text,
{
    let l = start_text + seq![','] + end_text;
    assert(l[start_text.len() as int] == ',');
    assert(forall|i: int| 0 <= i < start_text.len() ==> l[i] == #[trigger] start_text[i]);
    assert(forall|i: int|
        0 <= i < start_text.len() ==> l[i] != ',') by {
        assert(forall|i: int|
            0 <= i < start_text.len() ==> is_digit(#[trigger] start_text[i]));
        assert(',' as u32 == 44);
    }
    crate::text::lemma_find_char_is(l, ',', start_text.len() as int);
    assert(first_field(l) =~= start_text);
    assert(second_field(l) =~= end_text);
    assert(count_char(l, ',') == 1) by {
        crate::text::lemma_count_char_concat(start_text + seq![','], end_text, ',');
        crate::text::lemma_count_char_concat(start_text, seq![','], ',');
        crate::text::lemma_count_char_zero(start_text, ',');
        crate::text::lemma_count_char_zero(end_text, ',');
        assert((seq![',']).drop_last() =~= Seq::<char>::empty());
        assert(count_char(Seq::<char>::empty(), ',') == 0);
        assert((seq![',']).last() == ',');
        assert(count_char(seq![','], ',') == 1);
        assert(',' as u32 == 44);
    }
}

/// Law: a record built from a begin timestamp and an end timestamp reads
/// back as a closed session of exactly those timestamps, so the session
/// seconds recovered by the aggregator are the seconds it was built from.
pub proof fn lemma_record_round_trip(
    start_text: Seq<char>,
    end_text: Seq<char>,
    s: i64,
    e: i64,
    now: int,
)
    requires
        0 <= s <= e,
        all_digits(start_text),
        start_text.len() > 0,
        dec_value(start_text) == s,
        all_digits(end_text),
        end_text.len() > 0,
        dec_value(end_text) == e,
    ensures
        is_closed_line(start_text + seq![','] + end_text),
        line_ok(start_text + seq![','] + end_text),
        line_start(start_text + seq![','] + end_text) == s,
        line_end(start_text + seq![','] + end_text, now) == e,
        line_seconds(start_text + seq![','] + end_text, now) == e - s,
{
    lemma_record_line_fields(start_text, end_text);
}

} // verus!
