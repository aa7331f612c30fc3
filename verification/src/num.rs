//! Decimal timestamp fields: parsing a digit string into a number and
//! spelling a number back out as its canonical decimal form.

use vstd::prelude::*;

verus! {

/// A decimal digit character.
pub open spec fn is_digit(c: char) -> bool {
    48 <= c as u32 <= 57
}

/// The numeric value of a digit character.
pub open spec fn digit_val(c: char) -> int {
    c as u32 - 48
}

/// Every character of `s` is a decimal digit.
pub open spec fn all_digits(s: Seq<char>) -> bool {
    forall|i: int| 0 <= i < s.len() ==> is_digit(#[trigger] s[i])
}

/// The value of a digit string, most significant digit first.
pub open spec fn dec_value(s: Seq<char>) -> int
    decreases s.len(),
{
    if s.len() == 0 {
        0
    } else {
        dec_value(s.drop_last()) * 10 + digit_val(s.last())
    }
}

/// A well-formed timestamp field: nonempty, digits only, and small enough
/// to be held as an `i64`.
pub open spec fn valid_timestamp(s: Seq<char>) -> bool {
    s.len() > 0 && all_digits(s) && dec_value(s) <= i64::MAX
}

/// `s` is the one canonical decimal spelling of `n`: nonempty digits with
/// no leading zero (except for `0` itself).
pub open spec fn canonical_decimal(s: Seq<char>, n: int) -> bool {
    &&& s.len() > 0
    &&& all_digits(s)
    &&& dec_value(s) == n
    &&& s.len() > 1 ==> s[0] != '0'
}

/// The value of a digit string is never negative.
pub proof fn lemma_dec_value_nonneg(s: Seq<char>)
    requires
        all_digits(s),
    ensures
        dec_value(s) >= 0,
    decreases s.len(),
{
    if s.len() > 0 {
        assert(all_digits(s.drop_last())) by {
            assert(forall|i: int|
                0 <= i < s.len() - 1 ==> s.drop_last()[i] == #[trigger] s[i]);
        }
        lemma_dec_value_nonneg(s.drop_last());
    }
}

/// Extending a digit string with more digits never lowers its value.
pub proof fn lemma_dec_value_prefix(s: Seq<char>, k: int)
    requires
        all_digits(s),
        0 <= k <= s.len(),
    ensures
        dec_value(s.take(k)) <= dec_value(s),
    decreases s.len(),
{
    if k == s.len() {
        assert(s.take(k) =~= s);
    } else {
        assert(all_digits(s.drop_last())) by {
            assert(forall|i: int|
                0 <= i < s.len() - 1 ==> s.drop_last()[i] == #[trigger] s[i]);
        }
        assert(s.take(k) =~= s.drop_last().take(k));
        lemma_dec_value_prefix(s.drop_last(), k);
        lemma_dec_value_nonneg(s.drop_last());
    }
}

/// Parses a string as a nonnegative decimal integer. Returns `Some` exactly
/// on well-formed timestamp fields, with the field's value.
pub fn parse_decimal(s: &str) -> (r: Option<i64>)
    ensures
        r is Some <==> valid_timestamp(s@),
        r is Some ==> r->0 == dec_value(s@),
{
    let n = s.unicode_len();
    if n == 0 {
        return None;
    }
    let mut acc: i64 = 0;
    let mut i: usize = 0;
    while i < n
        invariant
            0 <= i <= n,
            n == s@.len(),
            all_digits(s@.take(i as int)),
            acc == dec_value(s@.take(i as int)),
            0 <= acc,
        decreases n - i,
    {
        let c = s.get_char(i);
        let u = c as u32;
        if u < 48 || u > 57 {
            assert(!is_digit(s@[i as int]));
            return None;
        }
        let d = (u - 48) as i64;
        assert(is_digit(s@[i as int]) && digit_val(s@[i as int]) == d);
        if acc > (i64::MAX - d) / 10 {
            proof {
                let p = s@.take(i as int + 1);
                assert(p.drop_last() =~= s@.take(i as int));
                assert(p.last() == s@[i as int]);
                assert(dec_value(p) == acc * 10 + d);
                assert(acc >= (i64::MAX - d) / 10 + 1);
                assert(acc * 10 + d > i64::MAX);
                if all_digits(s@) {
                    lemma_dec_value_prefix(s@, i as int + 1);
                }
            }
            return None;
        }
        proof {
            let p = s@.take(i as int + 1);
            assert(p.drop_last() =~= s@.take(i as int));
            assert(p.last() == s@[i as int]);
            assert(forall|j: int| 0 <= j < p.len() ==> is_digit(#[trigger] p[j]));
        }
        acc = acc * 10 + d;
        i = i + 1;
    }
    proof {
        assert(s@.take(n as int) =~= s@);
    }
    Some(acc)
}

/// One decimal digit as a string.
fn digit_string(d: i64) -> (r: String)
    requires
        0 <= d < 10,
    ensures
        r@.len() == 1,
        is_digit(r@[0]),
        digit_val(r@[0]) == d,
{
    proof {
        reveal_strlit("0");
        reveal_strlit("1");
        reveal_strlit("2");
        reveal_strlit("3");
        reveal_strlit("4");
        reveal_strlit("5");
        reveal_strlit("6");
        reveal_strlit("7");
        reveal_strlit("8");
        reveal_strlit("9");
    }
    let s: &str = if d == 0 {
        "0"
    } else if d == 1 {
        "1"
    } else if d == 2 {
        "2"
    } else if d == 3 {
        "3"
    } else if d == 4 {
        "4"
    } else if d == 5 {
        "5"
    } else if d == 6 {
        "6"
    } else if d == 7 {
        "7"
    } else if d == 8 {
        "8"
    } else {
        "9"
    };
    String::from_str(s)
}

/// Spells a nonnegative number in canonical decimal form.
pub fn encode_decimal(n: i64) -> (r: String)
    requires
        0 <= n,
    ensures
        canonical_decimal(r@, n as int),
    decreases n,
{
    if n < 10 {
        let r = digit_string(n);
        proof {
            assert(r@.drop_last().len() == 0);
            assert(dec_value(r@.drop_last()) == 0);
            assert(r@.last() == r@[0]);
        }
        r
    } else {
        let mut s = encode_decimal(n / 10);
        let d = digit_string(n % 10);
        let ghost pre = s@;
        s.append(d.as_str());
        proof {
            assert(s@.drop_last() =~= pre);
            assert(s@.last() == d@[0]);
            assert(dec_value(s@) == dec_value(pre) * 10 + digit_val(d@[0]));
            assert(dec_value(s@) == n as int);
            assert(forall|i: int| 0 <= i < s@.len() ==> is_digit(#[trigger] s@[i]));
            assert(s@[0] == pre[0]);
            assert(pre[0] != '0') by {
                assert(is_digit(pre[0]));
                if pre.len() == 1 {
                    assert(pre.drop_last().len() == 0);
                    assert(dec_value(pre.drop_last()) == 0);
                    assert(pre.last() == pre[0]);
                    assert(dec_value(pre) == digit_val(pre[0]));
                    assert(digit_val(pre[0]) >= 1);
                    assert('0' as u32 == 48);
                }
            }
        }
        s
    }
}

} // verus!
