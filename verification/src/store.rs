//! The log store: one project, one append-only log. A session is begun
//! by appending `"<start>,"` with no newline, and ended by appending
//! `"<end>\n"` to complete the line. Whether a session is currently open
//! is read off the pending tail of the log text: the text after the last
//! newline, which holds exactly one comma while a session is open.

use crate::num::{
    canonical_decimal, dec_value, lemma_dec_value_nonneg, parse_decimal, valid_timestamp,
};
use crate::record::first_field;
use crate::text::{
    count_char, lemma_count_char_concat, lemma_count_char_zero, lemma_find_char_found,
    log_tail, log_tail_exec, scan_commas,
};
use vstd::prelude::*;

verus! {

/// The one action a single invocation performs.
pub enum Action {
    Summarize,
    Begin,
    End,
}

/// A fatal fault of the log: a record field that is not a nonnegative
/// decimal timestamp.
#[derive(Debug)]
pub enum ClockError {
    BadTimestamp { field: String },
}

/// A named project together with the action asked of it.
pub struct Project {
    pub name: String,
    pub action: Action,
}

/// Reads a command-surface action letter.
pub fn parse_action(s: &str) -> (r: Option<Action>)
    ensures
        s@ == "b"@ ==> r matches Some(Action::Begin),
        s@ == "e"@ ==> r matches Some(Action::End),
        s@ == "s"@ ==> r matches Some(Action::Summarize),
        s@ != "b"@ && s@ != "e"@ && s@ != "s"@ ==> r is None,
{
    proof {
        reveal_strlit("b");
        reveal_strlit("e");
        reveal_strlit("s");
    }
    if s.unicode_len() != 1 {
        return None;
    }
    let c = s.get_char(0);
    if c == 'b' {
        proof {
            assert(s@ =~= "b"@);
        }
        Some(Action::Begin)
    } else if c == 'e' {
        proof {
            assert(s@ =~= "e"@);
        }
        Some(Action::End)
    } else if c == 's' {
        proof {
            assert(s@ =~= "s"@);
        }
        Some(Action::Summarize)
    } else {
        proof {
            assert(s@ != "b"@ && s@ != "e"@ && s@ != "s"@) by {
                assert("b"@.len() == 1 && "e"@.len() == 1 && "s"@.len() == 1);
            }
        }
        None
    }
}

/// A session is currently open: the pending tail of the log text holds
/// exactly one comma.
pub open spec fn clock_running(c: Seq<char>) -> bool {
    count_char(log_tail(c), ',') == 1
}

/// What a begin appends: the start timestamp and a comma, no newline.
pub open spec fn open_append(a: Seq<char>, n: int) -> bool {
    &&& a.len() > 0
    &&& a.last() == ','
    &&& canonical_decimal(a.drop_last(), n)
}

/// What an end appends: the end timestamp and a newline, completing the
/// open line.
pub open spec fn close_append(a: Seq<char>, n: int) -> bool {
    &&& a.len() > 0
    &&& a.last() == '\n'
    &&& canonical_decimal(a.drop_last(), n)
}

impl Project {
    /// Pairs a project name with an action.
    pub fn new(name: String, action: Action) -> (r: Self)
        ensures
            r.name@ == name@,
            r.action == action,
    {
        Self { name, action }
    }

    /// The home-relative path of this project's log file.
    pub fn log_path(&self) -> (r: String)
        ensures
            r@ == "~/.rclock-"@ + self.name@,
    {
        let mut p = String::from_str("~/.rclock-");
        p.append(self.name.as_str());
        p
    }

    /// Reads one timestamp field, as written in a record. Fails exactly
    /// on text that is not a nonnegative decimal number fitting `i64`.
    pub fn parse_timestamp(&self, string: &str) -> (r: Result<i64, ClockError>)
        ensures
            r is Ok <==> valid_timestamp(string@),
            r is Ok ==> 0 <= r->Ok_0 && r->Ok_0 == dec_value(string@),
            r is Err ==> (r->Err_0 matches ClockError::BadTimestamp { field } && field@
                == string@),
    {
        match parse_decimal(string) {
            Some(v) => {
                proof {
                    lemma_dec_value_nonneg(string@);
                }
                Ok(v)
            },
            None => Err(ClockError::BadTimestamp { field: String::from_str(string) }),
        }
    }

    /// Whether the given last line of the log marks a begun session, and
    /// the raw text of its first field.
    pub fn is_line_started(&self, line: Option<&str>) -> (r: (bool, String))
        ensures
            r.0 == match line {
                Some(l) => count_char(l@, ',') == 1,
                None => false,
            },
            r.1@ == match line {
                Some(l) => first_field(l@),
                None => Seq::<char>::empty(),
            },
    {
        match line {
            None => {
                proof {
                    assert(count_char(Seq::<char>::empty(), ',') == 0);
                }
                (false, String::new())
            },
            Some(l) => {
                let (cnt, fc) = scan_commas(l);
                proof {
                    if cnt > 0 {
                        lemma_find_char_found(l@, ',');
                        assert(first_field(l@) == l@.take(fc as int));
                    } else {
                        assert(first_field(l@) == l@);
                        assert(l@.take(fc as int) =~= l@);
                    }
                }
                let first = l.substring_char(0, fc);
                proof {
                    assert(first@ =~= first_field(l@));
                }
                (cnt == 1, String::from_str(first))
            },
        }
    }
}

/// What a begin decides: either the clock already runs and nothing is
/// written, or the open record text to append.
pub enum BeginOutcome {
    AlreadyStarted,
    Started { append: String },
}

/// Decides a begin. When a session is already open the log is left
/// unchanged; otherwise the returned text, the start timestamp and a
/// comma, is appended to the log.
pub fn begin_action(contents: &str, now: i64) -> (r: BeginOutcome)
    requires
        0 <= now,
    ensures
        clock_running(contents@) ==> r is AlreadyStarted,
        !clock_running(contents@) ==> (r matches BeginOutcome::Started { append }
            && open_append(append@, now as int)),
{
    let tail = log_tail_exec(contents);
    let (cnt, _fc) = scan_commas(tail.as_str());
    if cnt == 1 {
        BeginOutcome::AlreadyStarted
    } else {
        let mut a = crate::num::encode_decimal(now);
        let ghost digits = a@;
        a.append(",");
        proof {
            reveal_strlit(",");
            assert(a@.drop_last() =~= digits);
            assert(a@.last() == ',');
        }
        BeginOutcome::Started { append: a }
    }
}

/// What an end decides: either no session is open and nothing is written,
/// or the closing text to append together with the seconds of the session
/// just ended (saturated at zero).
pub enum EndOutcome {
    NotStarted,
    Stopped { append: String, session_seconds: i64 },
}

/// Decides an end. When no session is open the log is left unchanged.
/// When the open line's start field is corrupt, the end fails and nothing
/// is written. Otherwise the returned text, the end timestamp and a
/// newline, completes the open line.
pub fn end_action(contents: &str, now: i64) -> (r: Result<EndOutcome, ClockError>)
    requires
        0 <= now,
    ensures
        !clock_running(contents@) ==> (r matches Ok(EndOutcome::NotStarted)),
        clock_running(contents@) && !valid_timestamp(first_field(log_tail(contents@)))
            ==> (r matches Err(e) && (e matches ClockError::BadTimestamp { field }
            && field@ == first_field(log_tail(contents@)))),
        clock_running(contents@) && valid_timestamp(first_field(log_tail(contents@)))
            ==> (r matches Ok(EndOutcome::Stopped { append, session_seconds }) && {
            let start = dec_value(first_field(log_tail(contents@)));
            &&& close_append(append@, now as int)
            &&& session_seconds == if now >= start {
                now - start
            } else {
                0
            }
        }),
{
    let tail = log_tail_exec(contents);
    let (cnt, fc) = scan_commas(tail.as_str());
    if cnt != 1 {
        return Ok(EndOutcome::NotStarted);
    }
    proof {
        lemma_find_char_found(tail@, ',');
        assert(first_field(tail@) == tail@.take(fc as int));
    }
    let first = tail.as_str().substring_char(0, fc);
    proof {
        assert(first@ =~= first_field(log_tail(contents@)));
    }
    match parse_decimal(first) {
        None => Err(ClockError::BadTimestamp { field: String::from_str(first) }),
        Some(start) => {
            proof {
                lemma_dec_value_nonneg(first@);
            }
            let mut a = crate::num::encode_decimal(now);
            let ghost digits = a@;
            a.append("\n");
            proof {
                reveal_strlit("\n");
                assert(a@.drop_last() =~= digits);
                assert(a@.last() == '\n');
            }
            let session = if now >= start {
                now - start
            } else {
                0
            };
            Ok(EndOutcome::Stopped { append: a, session_seconds: session })
        },
    }
}

/// Law: a begin accepted on a log whose pending tail holds no comma, as
/// any well-formed log's tail does, leaves the clock running, so a second
/// begin right after it is refused and appends nothing (see
/// `begin_action`: when the clock runs, the log is left unchanged).
pub proof fn lemma_begin_twice(c: Seq<char>, a: Seq<char>, now: int)
    requires
        count_char(log_tail(c), ',') == 0,
        open_append(a, now),
    ensures
        clock_running(c + a),
{
    assert forall|i: int| 0 <= i < a.len() implies a[i] != '\n' by {
        if i < a.len() - 1 {
            assert(a[i] == a.drop_last()[i]);
            assert(crate::num::is_digit(a.drop_last()[i]));
            assert('\n' as u32 == 10);
        } else {
            assert(a[i] == a.last());
            assert('\n' as u32 == 10 && ',' as u32 == 44);
        }
    }
    crate::text::lemma_log_tail_append(c, a);
    lemma_count_char_concat(log_tail(c), a, ',');
    assert(count_char(a, ',') == 1) by {
        assert(a.drop_last().len() == a.len() - 1);
        lemma_count_char_zero(a.drop_last(), ',');
        assert(forall|i: int|
            0 <= i < a.len() - 1 ==> crate::num::is_digit(#[trigger] a.drop_last()[i]));
        assert(',' as u32 == 44);
    }
}

} // verus!
