//! Character-level structure of the log text: counting and finding
//! separator characters, splitting the text into lines, and the pending
//! tail (the text after the last newline).

use vstd::prelude::*;

verus! {

/// How many times `ch` occurs in `s`.
pub open spec fn count_char(s: Seq<char>, ch: char) -> nat
    decreases s.len(),
{
    if s.len() == 0 {
        0
    } else {
        count_char(s.drop_last(), ch) + if s.last() == ch {
            1nat
        } else {
            0nat
        }
    }
}

/// Index of the first occurrence of `ch` in `s`, or -1 if there is none.
pub open spec fn find_char(s: Seq<char>, ch: char) -> int
    decreases s.len(),
{
    if s.len() == 0 {
        -1
    } else if s[0] == ch {
        0
    } else {
        let r = find_char(s.skip(1), ch);
        if r < 0 {
            -1
        } else {
            r + 1
        }
    }
}

/// A character count is zero exactly when no position holds the character.
pub proof fn lemma_count_char_zero(s: Seq<char>, ch: char)
    ensures
        count_char(s, ch) == 0 <==> (forall|i: int| 0 <= i < s.len() ==> s[i] != ch),
    decreases s.len(),
{
    if s.len() > 0 {
        lemma_count_char_zero(s.drop_last(), ch);
        assert(forall|i: int|
            0 <= i < s.len() - 1 ==> s.drop_last()[i] == #[trigger] s[i]);
        assert(s.last() == s[s.len() - 1]);
    }
}

/// Counting distributes over concatenation.
pub proof fn lemma_count_char_concat(a: Seq<char>, b: Seq<char>, ch: char)
    ensures
        count_char(a + b, ch) == count_char(a, ch) + count_char(b, ch),
    decreases b.len(),
{
    if b.len() == 0 {
        assert(a + b =~= a);
    } else {
        assert((a + b).drop_last() =~= a + b.drop_last());
        assert((a + b).last() == b.last());
        lemma_count_char_concat(a, b.drop_last(), ch);
    }
}

/// If `j` is the first position holding `ch`, then `find_char` returns `j`.
pub proof fn lemma_find_char_is(s: Seq<char>, ch: char, j: int)
    requires
        0 <= j < s.len(),
        s[j] == ch,
        forall|i: int| 0 <= i < j ==> s[i] != ch,
    ensures
        find_char(s, ch) == j,
    decreases s.len(),
{
    if j > 0 {
        assert(forall|i: int|
            0 <= i < j - 1 ==> s.skip(1)[i] == #[trigger] s[i + 1]);
        lemma_find_char_is(s.skip(1), ch, j - 1);
    }
}

/// If no position holds `ch`, then `find_char` reports none.
pub proof fn lemma_find_char_none(s: Seq<char>, ch: char)
    requires
        forall|i: int| 0 <= i < s.len() ==> s[i] != ch,
    ensures
        find_char(s, ch) == -1,
    decreases s.len(),
{
    if s.len() > 0 {
        assert(forall|i: int|
            0 <= i < s.len() - 1 ==> s.skip(1)[i] == #[trigger] s[i + 1]);
        lemma_find_char_none(s.skip(1), ch);
    }
}

/// Where `find_char` points, the character stands, and nowhere earlier.
pub proof fn lemma_find_char_found(s: Seq<char>, ch: char)
    requires
        find_char(s, ch) >= 0,
    ensures
        find_char(s, ch) < s.len(),
        s[find_char(s, ch)] == ch,
        forall|i: int| 0 <= i < find_char(s, ch) ==> s[i] != ch,
    decreases s.len(),
{
    if s.len() > 0 && s[0] != ch {
        lemma_find_char_found(s.skip(1), ch);
        assert(forall|i: int|
            0 <= i < s.len() - 1 ==> s.skip(1)[i] == #[trigger] s[i + 1]);
        let j = find_char(s, ch);
        assert forall|i: int| 0 <= i < j implies s[i] != ch by {
            if i > 0 {
                assert(s.skip(1)[i - 1] == s[i]);
            }
        }
    }
}

/// Where `find_char` reports none, the character does not occur.
pub proof fn lemma_find_char_neg(s: Seq<char>, ch: char)
    requires
        find_char(s, ch) == -1,
    ensures
        forall|i: int| 0 <= i < s.len() ==> s[i] != ch,
    decreases s.len(),
{
    if s.len() > 0 {
        lemma_find_char_neg(s.skip(1), ch);
        assert(forall|i: int|
            0 <= i < s.len() - 1 ==> s.skip(1)[i] == #[trigger] s[i + 1]);
        assert forall|i: int| 0 <= i < s.len() implies s[i] != ch by {
            if i > 0 {
                assert(s.skip(1)[i - 1] == s[i]);
            }
        }
    }
}

/// A line as it is read back: one trailing carriage return is dropped.
pub open spec fn strip_cr(l: Seq<char>) -> Seq<char> {
    if l.len() > 0 && l.last() == '\r' {
        l.drop_last()
    } else {
        l
    }
}

/// The lines of the log text: split on newlines, one trailing carriage
/// return per line dropped, and no empty line after a final newline.
pub open spec fn lines_of(c: Seq<char>) -> Seq<Seq<char>>
    decreases c.len(),
{
    if c.len() == 0 {
        Seq::empty()
    } else {
        let j = find_char(c, '\n');
        if j < 0 || j >= c.len() {
            seq![strip_cr(c)]
        } else {
            seq![strip_cr(c.take(j))] + lines_of(c.skip(j + 1))
        }
    }
}

/// The pending tail: the text after the last newline, or all of the text
/// if it holds no newline.
pub open spec fn log_tail(c: Seq<char>) -> Seq<char>
    decreases c.len(),
{
    if c.len() == 0 {
        Seq::empty()
    } else if c.last() == '\n' {
        Seq::empty()
    } else {
        log_tail(c.drop_last()).push(c.last())
    }
}

/// Text with an empty pending tail is empty or ends with a newline.
pub proof fn lemma_log_tail_empty(c: Seq<char>)
    requires
        log_tail(c).len() == 0,
    ensures
        c.len() == 0 || c.last() == '\n',
{
}

/// Appending newline-free text extends the pending tail by that text.
pub proof fn lemma_log_tail_append(a: Seq<char>, b: Seq<char>)
    requires
        forall|i: int| 0 <= i < b.len() ==> b[i] != '\n',
    ensures
        log_tail(a + b) == log_tail(a) + b,
    decreases b.len(),
{
    if b.len() == 0 {
        assert(a + b =~= a);
        assert(log_tail(a) + b =~= log_tail(a));
    } else {
        assert((a + b).drop_last() =~= a + b.drop_last());
        assert((a + b).last() == b.last());
        assert(forall|i: int|
            0 <= i < b.len() - 1 ==> b.drop_last()[i] == #[trigger] b[i]);
        lemma_log_tail_append(a, b.drop_last());
        assert(b.last() != '\n');
        assert(log_tail(a + b) =~= log_tail(a) + b);
    }
}

/// The pending tail is the suffix after the last newline.
pub proof fn lemma_log_tail_from_last_newline(c: Seq<char>, j: int)
    requires
        0 <= j < c.len(),
        c[j] == '\n',
        forall|i: int| j < i < c.len() ==> c[i] != '\n',
    ensures
        log_tail(c) == c.skip(j + 1),
    decreases c.len(),
{
    if j == c.len() - 1 {
        assert(c.last() == '\n');
        assert(c.skip(j + 1) =~= Seq::<char>::empty());
    } else {
        assert(c.last() != '\n');
        assert(forall|i: int|
            j < i < c.len() - 1 ==> c.drop_last()[i] == #[trigger] c[i]);
        lemma_log_tail_from_last_newline(c.drop_last(), j);
        assert(log_tail(c) =~= c.skip(j + 1));
    }
}

/// Newline-free text is its own pending tail.
pub proof fn lemma_log_tail_no_newline(c: Seq<char>)
    requires
        forall|i: int| 0 <= i < c.len() ==> c[i] != '\n',
    ensures
        log_tail(c) == c,
    decreases c.len(),
{
    if c.len() > 0 {
        assert(forall|i: int|
            0 <= i < c.len() - 1 ==> c.drop_last()[i] == #[trigger] c[i]);
        lemma_log_tail_no_newline(c.drop_last());
        assert(log_tail(c) =~= c);
    }
}

/// Splitting into lines distributes over concatenation at a newline
/// boundary.
pub proof fn lemma_lines_of_append(a: Seq<char>, b: Seq<char>)
    requires
        a.len() == 0 || a.last() == '\n',
    ensures
        lines_of(a + b) == lines_of(a) + lines_of(b),
    decreases a.len(),
{
    if a.len() == 0 {
        assert(a + b =~= b);
        assert(lines_of(a) + lines_of(b) =~= lines_of(b));
    } else {
        let j = find_char(a, '\n');
        assert(a[a.len() - 1] == '\n');
        if j < 0 {
            lemma_find_char_neg(a, '\n');
            assert(false);
        }
        lemma_find_char_found(a, '\n');
        assert(forall|i: int| 0 <= i < j ==> (a + b)[i] == #[trigger] a[i]);
        lemma_find_char_is(a + b, '\n', j);
        assert((a + b).take(j) =~= a.take(j));
        assert((a + b).skip(j + 1) =~= a.skip(j + 1) + b);
        if j + 1 < a.len() {
            assert(a.skip(j + 1).last() == a.last());
        }
        lemma_lines_of_append(a.skip(j + 1), b);
        if a.len() + b.len() > 0 {
            assert(lines_of(a + b) == seq![strip_cr((a + b).take(j))] + lines_of(
                (a + b).skip(j + 1),
            ));
        }
        assert(lines_of(a) == seq![strip_cr(a.take(j))] + lines_of(a.skip(j + 1)));
        assert(lines_of(a + b) =~= lines_of(a) + lines_of(b));
    }
}

/// Counts the commas in a line and finds the first one. Returns the
/// comma count and the index of the first comma (the length if none).
pub fn scan_commas(l: &str) -> (r: (usize, usize))
    ensures
        r.0 == count_char(l@, ','),
        r.0 > 0 ==> r.1 == find_char(l@, ','),
        r.0 == 0 ==> r.1 == l@.len() && find_char(l@, ',') == -1,
{
    let n = l.unicode_len();
    let mut cnt: usize = 0;
    let mut first: usize = n;
    let mut i: usize = 0;
    while i < n
        invariant
            0 <= i <= n,
            n == l@.len(),
            cnt == count_char(l@.take(i as int), ','),
            cnt <= i,
            cnt > 0 ==> first < i && l@[first as int] == ',' && (forall|k: int|
                0 <= k < first ==> l@[k] != ','),
            cnt == 0 ==> first == n && (forall|k: int| 0 <= k < i ==> l@[k] != ','),
        decreases n - i,
    {
        let c = l.get_char(i);
        proof {
            assert(l@.take(i as int + 1).drop_last() =~= l@.take(i as int));
            assert(l@.take(i as int + 1).last() == l@[i as int]);
        }
        if c == ',' {
            if cnt == 0 {
                first = i;
            }
            cnt = cnt + 1;
        }
        i = i + 1;
    }
    proof {
        assert(l@.take(n as int) =~= l@);
        if cnt > 0 {
            lemma_find_char_is(l@, ',', first as int);
        } else {
            lemma_find_char_none(l@, ',');
        }
    }
    (cnt, first)
}

/// Copies the line `from..to` out of `s`, dropping one trailing carriage
/// return.
pub fn extract_line(s: &str, from: usize, to: usize) -> (r: String)
    requires
        from <= to <= s@.len(),
    ensures
        r@ == strip_cr(s@.subrange(from as int, to as int)),
{
    let end = if to > from && s.get_char(to - 1) == '\r' {
        to - 1
    } else {
        to
    };
    proof {
        let whole = s@.subrange(from as int, to as int);
        if to > from && s@[to - 1] == '\r' {
            assert(whole.last() == s@[to - 1]);
            assert(whole.drop_last() =~= s@.subrange(from as int, to as int - 1));
        } else if to > from {
            assert(whole.last() == s@[to - 1]);
        }
        assert(s@.subrange(from as int, end as int) =~= strip_cr(whole));
    }
    let sub = s.substring_char(from, end);
    String::from_str(sub)
}

/// Splits the log text into its lines.
pub fn split_lines(s: &str) -> (r: Vec<String>)
    ensures
        r.deep_view() == lines_of(s@),
{
    let n = s.unicode_len();
    let mut out: Vec<String> = Vec::new();
    let mut start: usize = 0;
    let mut i: usize = 0;
    proof {
        assert(out.deep_view() =~= Seq::<Seq<char>>::empty());
        assert(s@.skip(0) =~= s@);
        assert(out.deep_view() + lines_of(s@) =~= lines_of(s@));
    }
    while i < n
        invariant
            0 <= start <= i <= n,
            n == s@.len(),
            out.deep_view() + lines_of(s@.skip(start as int)) == lines_of(s@),
            forall|k: int| start <= k < i ==> s@[k] != '\n',
        decreases n - i,
    {
        let c = s.get_char(i);
        if c == '\n' {
            let line = extract_line(s, start, i);
            proof {
                let t = s@.skip(start as int);
                assert(forall|k: int|
                    0 <= k < t.len() ==> t[k] == #[trigger] s@[k + start]);
                assert(t[i - start as int] == '\n');
                lemma_find_char_is(t, '\n', i - start as int);
                assert(t.take(i - start as int) =~= s@.subrange(
                    start as int,
                    i as int,
                ));
                assert(t.skip(i - start as int + 1) =~= s@.skip(i as int + 1));
                assert(lines_of(t) == seq![strip_cr(t.take(i - start as int))]
                    + lines_of(t.skip(i - start as int + 1)));
                assert(out.deep_view().push(line@) + lines_of(s@.skip(i as int + 1))
                    =~= out.deep_view() + lines_of(t));
            }
            out.push(line);
            start = i + 1;
        }
        i = i + 1;
    }
    if start < n {
        let line = extract_line(s, start, n);
        proof {
            let t = s@.skip(start as int);
            assert(forall|k: int|
                0 <= k < t.len() ==> t[k] == #[trigger] s@[k + start]);
            lemma_find_char_none(t, '\n');
            assert(t =~= s@.subrange(start as int, n as int));
            assert(lines_of(t) == seq![strip_cr(t)]);
            assert(out.deep_view().push(line@) =~= out.deep_view() + lines_of(t));
        }
        out.push(line);
    } else {
        proof {
            assert(s@.skip(start as int).len() == 0);
            assert(out.deep_view() + lines_of(s@.skip(start as int)) =~= out.deep_view());
        }
    }
    out
}

/// Copies the pending tail (the text after the last newline) out of the
/// log text.
pub fn log_tail_exec(s: &str) -> (r: String)
    ensures
        r@ == log_tail(s@),
{
    let n = s.unicode_len();
    let mut i: usize = n;
    while i > 0 && s.get_char(i - 1) != '\n'
        invariant
            0 <= i <= n,
            n == s@.len(),
            forall|k: int| i <= k < n ==> s@[k] != '\n',
        decreases i,
    {
        i = i - 1;
    }
    proof {
        if i == 0 {
            lemma_log_tail_no_newline(s@);
            assert(s@.skip(0) =~= s@);
        } else {
            lemma_log_tail_from_last_newline(s@, i - 1);
        }
        assert(log_tail(s@) =~= s@.subrange(i as int, n as int));
    }
    let sub = s.substring_char(i, n);
    String::from_str(sub)
}

} // verus!
