//! Laws of whole session histories: a run of alternating begin/end
//! actions builds a log of closed records whose summarized total is the
//! sum of the sessions.

use crate::num::{dec_value, lemma_dec_value_nonneg, valid_timestamp};
use crate::record::{
    first_field, is_closed_line, is_open_line, lemma_record_line_fields, line_ok,
    line_seconds, line_start, second_field,
};
use crate::store::{clock_running, close_append, lemma_begin_twice, open_append};
use crate::summary::{lines_ok, total_seconds};
use crate::text::{
    count_char, lemma_find_char_is, lemma_lines_of_append, lemma_log_tail_append,
    lemma_log_tail_empty, lines_of, log_tail, strip_cr,
};
use vstd::prelude::*;

verus! {

/// The log left behind by a run of complete sessions: no pending tail,
/// and one closed, well-formed record line per session, in order.
pub open spec fn closed_session_log(c: Seq<char>, pairs: Seq<(i64, i64)>) -> bool {
    &&& log_tail(c).len() == 0
    &&& lines_of(c).len() == pairs.len()
    &&& forall|i: int|
        0 <= i < pairs.len() ==> {
            let l = #[trigger] lines_of(c)[i];
            &&& is_closed_line(l)
            &&& line_ok(l)
            &&& line_start(l) == pairs[i].0
            &&& dec_value(second_field(l)) == pairs[i].1
        }
}

/// The sum of the sessions' seconds, end minus start.
pub open spec fn pair_sum(pairs: Seq<(i64, i64)>) -> int
    decreases pairs.len(),
{
    if pairs.len() == 0 {
        0
    } else {
        pair_sum(pairs.drop_last()) + (pairs.last().1 - pairs.last().0)
    }
}

/// The empty log records no sessions, and its clock is not running.
pub proof fn lemma_empty_session_log()
    ensures
        closed_session_log(Seq::empty(), Seq::empty()),
        !clock_running(Seq::empty()),
{
    assert(log_tail(Seq::<char>::empty()).len() == 0);
    assert(lines_of(Seq::<char>::empty()).len() == 0);
    assert(count_char(Seq::<char>::empty(), ',') == 0);
}

/// Law: on the log of complete sessions a begin is accepted, the end
/// right after it is accepted and reads back the begin's timestamp, and
/// the two appends leave the log of those sessions plus the new one.
/// The appends are exactly what `begin_action` and `end_action` return.
pub proof fn lemma_session_append(
    c: Seq<char>,
    pairs: Seq<(i64, i64)>,
    s: i64,
    e: i64,
    a1: Seq<char>,
    a2: Seq<char>,
)
    requires
        closed_session_log(c, pairs),
        0 <= s,
        0 <= e,
        open_append(a1, s as int),
        close_append(a2, e as int),
    ensures
        !clock_running(c),
        clock_running(c + a1),
        first_field(log_tail(c + a1)) == a1.drop_last(),
        valid_timestamp(first_field(log_tail(c + a1))),
        dec_value(first_field(log_tail(c + a1))) == s,
        closed_session_log(c + a1 + a2, pairs.push((s, e))),
{
    let st = a1.drop_last();
    let et = a2.drop_last();
    assert(count_char(log_tail(c), ',') == 0) by {
        assert(log_tail(c) =~= Seq::<char>::empty());
        assert(count_char(Seq::<char>::empty(), ',') == 0);
    }
    assert(!clock_running(c));
    lemma_begin_twice(c, a1, s as int);
    // The pending tail after the begin is the begin's own text.
    assert forall|i: int| 0 <= i < a1.len() implies a1[i] != '\n' by {
        if i < a1.len() - 1 {
            assert(a1[i] == st[i]);
            assert(crate::num::is_digit(st[i]));
            assert('\n' as u32 == 10);
        } else {
            assert(a1[i] == a1.last());
            assert('\n' as u32 == 10 && ',' as u32 == 44);
        }
    }
    lemma_log_tail_append(c, a1);
    assert(log_tail(c + a1) =~= a1);
    assert(forall|i: int| 0 <= i < st.len() ==> a1[i] == #[trigger] st[i]);
    assert forall|i: int| 0 <= i < st.len() implies a1[i] != ',' by {
        assert(crate::num::is_digit(st[i]));
        assert(',' as u32 == 44);
    }
    assert(a1[st.len() as int] == ',');
    lemma_find_char_is(a1, ',', st.len() as int);
    assert(first_field(a1) =~= st);
    lemma_dec_value_nonneg(st);
    // One line is appended, made of the two fields around the comma.
    let w = a1 + a2;
    let li = st + seq![','] + et;
    assert(c + a1 + a2 =~= c + w);
    lemma_log_tail_empty(c);
    lemma_lines_of_append(c, w);
    assert forall|i: int| 0 <= i < w.len() - 1 implies w[i] != '\n' by {
        if i < a1.len() {
            assert(w[i] == a1[i]);
        } else {
            assert(w[i] == a2[i - a1.len()]);
            assert(a2[i - a1.len()] == et[i - a1.len()]);
            assert(crate::num::is_digit(et[i - a1.len()]));
            assert('\n' as u32 == 10);
        }
    }
    assert(w[w.len() - 1] == a2.last());
    lemma_find_char_is(w, '\n', w.len() - 1);
    assert(lines_of(w) == seq![strip_cr(w.take(w.len() - 1))] + lines_of(
        w.skip(w.len() as int),
    )) by {
        assert(w.len() > 0);
    }
    assert(w.skip(w.len() as int).len() == 0);
    assert(lines_of(w) =~= seq![strip_cr(w.take(w.len() - 1))]);
    assert(w.take(w.len() - 1) =~= li);
    assert(strip_cr(li) == li) by {
        assert(li.last() == et.last());
        assert(crate::num::is_digit(et.last()));
        assert('\r' as u32 == 13);
    }
    assert(lines_of(c + w) =~= lines_of(c).push(li));
    lemma_record_line_fields(st, et);
    // The new log is the old sessions plus the new one.
    let c2 = c + a1 + a2;
    let pairs2 = pairs.push((s, e));
    assert(c2.len() > 0 && c2.last() == '\n') by {
        assert(c2[c2.len() - 1] == a2.last());
    }
    assert(log_tail(c2).len() == 0);
    assert(lines_of(c2).len() == pairs2.len());
    assert forall|i: int| 0 <= i < pairs2.len() implies {
        let l = #[trigger] lines_of(c2)[i];
        &&& is_closed_line(l)
        &&& line_ok(l)
        &&& line_start(l) == pairs2[i].0
        &&& dec_value(second_field(l)) == pairs2[i].1
    } by {
        if i < pairs.len() {
            assert(lines_of(c2)[i] == lines_of(c)[i]);
        } else {
            assert(lines_of(c2)[i] == li);
            lemma_dec_value_nonneg(et);
        }
    }
}

/// The total over closed, well-formed record lines is the sum of their
/// sessions, whatever the current time.
proof fn lemma_closed_lines_total(ls: Seq<Seq<char>>, pairs: Seq<(i64, i64)>, now: int)
    requires
        ls.len() == pairs.len(),
        forall|i: int|
            0 <= i < pairs.len() ==> {
                let l = #[trigger] ls[i];
                &&& is_closed_line(l)
                &&& line_ok(l)
                &&& line_start(l) == pairs[i].0
                &&& dec_value(second_field(l)) == pairs[i].1
            },
        forall|i: int| 0 <= i < pairs.len() ==> (#[trigger] pairs[i]).0 <= pairs[i].1,
    ensures
        lines_ok(ls),
        total_seconds(ls, now) == pair_sum(pairs),
    decreases ls.len(),
{
    if ls.len() > 0 {
        assert(forall|i: int|
            0 <= i < ls.len() - 1 ==> ls.drop_last()[i] == #[trigger] ls[i]);
        assert(forall|i: int|
            0 <= i < pairs.len() - 1 ==> pairs.drop_last()[i] == #[trigger] pairs[i]);
        lemma_closed_lines_total(ls.drop_last(), pairs.drop_last(), now);
        let l = ls.last();
        assert(l == ls[ls.len() - 1]);
        let p = pairs.last();
        assert(p == pairs[pairs.len() - 1]);
        assert(line_seconds(l, now) == p.1 - p.0);
        assert(lines_ok(ls)) by {
            assert(forall|i: int|
                0 <= i < ls.len() - 1 ==> line_ok(#[trigger] ls.drop_last()[i]));
        }
    }
}

/// Law: after any run of alternating begin/end sessions with strictly
/// increasing timestamps, the log holds exactly one closed record per
/// session and no open record, every line parses, and the all-time total
/// that a summarize reports is the sum of the sessions' seconds.
pub proof fn lemma_alternating_sessions(c: Seq<char>, pairs: Seq<(i64, i64)>, now: i64)
    requires
        closed_session_log(c, pairs),
        forall|i: int| 0 <= i < pairs.len() ==> 0 <= (#[trigger] pairs[i]).0 < pairs[i].1,
        forall|i: int|
            0 <= i < pairs.len() - 1 ==> (#[trigger] pairs[i]).1 < pairs[i + 1].0,
        pairs.len() > 0 ==> now >= pairs.last().1,
    ensures
        lines_of(c).len() == pairs.len(),
        forall|i: int|
            0 <= i < pairs.len() ==> is_closed_line(#[trigger] lines_of(c)[i])
                && !is_open_line(lines_of(c)[i]),
        !clock_running(c),
        lines_ok(lines_of(c)),
        total_seconds(lines_of(c), now as int) == pair_sum(pairs),
{
    assert(count_char(Seq::<char>::empty(), ',') == 0);
    assert(log_tail(c) =~= Seq::<char>::empty());
    lemma_closed_lines_total(lines_of(c), pairs, now as int);
}

} // verus!
