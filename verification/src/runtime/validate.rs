//! Lexical checks of restricted texts. They check shapes, not code lists.
use vstd::prelude::*;

use crate::text::{
    char_is_alnum, char_is_digit, char_is_upper, chars_of, find, index_of, is_alnum, is_digit,
    is_upper, Text,
};

verus! {

/// Three upper-case letters.
pub open spec fn currency_shape(s: Text) -> bool {
    s.len() == 3 && forall|i: int| 0 <= i < 3 ==> is_upper(#[trigger] s[i])
}

/// Whether a text has the shape of a currency code: three upper-case letters.
pub fn is_currency(s: &str) -> (r: bool)
    ensures
        r == currency_shape(s@),
{
    let c = chars_of(s);
    c.len() == 3 && char_is_upper(c[0]) && char_is_upper(c[1]) && char_is_upper(c[2])
}

/// One to three letters or digits.
pub open spec fn unit_shape(s: Text) -> bool {
    1 <= s.len() <= 3 && forall|i: int| 0 <= i < s.len() ==> is_alnum(#[trigger] s[i])
}

/// Whether a text has the shape of a unit code: one to three letters or digits.
pub fn is_unit_code(s: &str) -> (r: bool)
    ensures
        r == unit_shape(s@),
{
    let c = chars_of(s);
    if c.len() < 1 || c.len() > 3 {
        return false;
    }
    let mut i: usize = 0;
    while i < c.len()
        invariant
            i <= c.len(),
            c@ == s@,
            forall|j: int| 0 <= j < i ==> is_alnum(#[trigger] s@[j]),
        decreases c.len() - i,
    {
        if !char_is_alnum(c[i]) {
            assert(!is_alnum(s@[i as int]));
            return false;
        }
        i += 1;
    }
    true
}

/// The number that two digits write.
pub open spec fn two_digits(s: Text, i: int) -> int {
    (s[i] as int - '0' as int) * 10 + (s[i + 1] as int - '0' as int)
}

/// `YYYY-MM-DD` with a month from 1 to 12 and a day from 1 to 31.
pub open spec fn date_shape(s: Text) -> bool {
    &&& s.len() == 10
    &&& s[4] == '-' && s[7] == '-'
    &&& forall|i: int| 0 <= i < 10 && i != 4 && i != 7 ==> is_digit(#[trigger] s[i])
    &&& 1 <= two_digits(s, 5) <= 12
    &&& 1 <= two_digits(s, 8) <= 31
}

/// Whether the characters from `from` to before `to` are digits.
fn digits_between(c: &Vec<char>, from: usize, to: usize) -> (r: bool)
    requires
        from <= to <= c@.len(),
    ensures
        r == (forall|i: int| from <= i < to ==> is_digit(#[trigger] c@[i])),
{
    let mut i: usize = from;
    while i < to
        invariant
            from <= i <= to <= c@.len(),
            forall|j: int| from <= j < i ==> is_digit(#[trigger] c@[j]),
        decreases to - i,
    {
        if !char_is_digit(c[i]) {
            assert(!is_digit(c@[i as int]));
            return false;
        }
        i += 1;
    }
    true
}

/// The number that two digits write.
fn number_at(c: &Vec<char>, i: usize) -> (n: u32)
    requires
        i + 1 < c.len(),
        is_digit(c@[i as int]),
        is_digit(c@[i + 1]),
    ensures
        n == two_digits(c@, i as int),
        n < 100,
{
    (c[i] as u32 - '0' as u32) * 10 + (c[i + 1] as u32 - '0' as u32)
}

/// Whether the characters up to `len` are a date.
fn date_chars(c: &Vec<char>, len: usize) -> (r: bool)
    requires
        len <= c@.len(),
    ensures
        r == date_shape(c@.take(len as int)),
{
    let ghost d = c@.take(len as int);
    if len != 10 || c[4] != '-' || c[7] != '-' {
        return false;
    }
    assert(d[4] == '-' && d[7] == '-');
    if !digits_between(c, 0, 4) || !digits_between(c, 5, 7) || !digits_between(c, 8, 10) {
        proof {
            if date_shape(d) {
                assert forall|i: int| 0 <= i < 10 && i != 4 && i != 7 implies is_digit(
                    #[trigger] c@[i],
                ) by {
                    assert(is_digit(d[i]));
                }
            }
        }
        return false;
    }
    assert(is_digit(c@[5]) && is_digit(c@[6]) && is_digit(c@[8]) && is_digit(c@[9]));
    let month = number_at(c, 5);
    let day = number_at(c, 8);
    assert(d[5] == c@[5] && d[6] == c@[6] && d[8] == c@[8] && d[9] == c@[9]);
    1 <= month && month <= 12 && 1 <= day && day <= 31
}

/// Whether a text is a date, `YYYY-MM-DD`, with a month from 1 to 12 and a day
/// from 1 to 31. It may still be a day that the month does not have.
pub fn is_date(s: &str) -> (r: bool)
    ensures
        r == date_shape(s@),
{
    let c = chars_of(s);
    assert(c@.take(c@.len() as int) =~= s@);
    date_chars(&c, c.len())
}

/// Nothing, or a dot and one or more digits.
pub open spec fn fraction_shape(s: Text) -> bool {
    s.len() == 0 || (s.len() > 1 && s[0] == '.' && forall|i: int|
        1 <= i < s.len() ==> is_digit(#[trigger] s[i]))
}

/// Nothing, a `Z`, or a sign and `hh:mm`. The numbers are not held to a range.
pub open spec fn zone_shape(s: Text) -> bool {
    ||| s.len() == 0
    ||| s.len() == 1 && s[0] == 'Z'
    ||| s.len() == 6 && (s[0] == '+' || s[0] == '-') && is_digit(s[1]) && is_digit(s[2]) && s[3]
        == ':' && is_digit(s[4]) && is_digit(s[5])
}

/// Whether the first `k` characters are a fraction and the others a zone.
pub open spec fn fraction_then_zone(s: Text, k: int) -> bool {
    fraction_shape(s.take(k)) && zone_shape(s.skip(k))
}

/// An optional fraction and an optional zone behind it.
pub open spec fn tail_shape(s: Text) -> bool {
    exists|k: int| 0 <= k <= s.len() && #[trigger] fraction_then_zone(s, k)
}

/// Whether the characters from `from` on are a zone, or there are none.
fn zone_at(c: &Vec<char>, from: usize) -> (r: bool)
    requires
        from <= c@.len(),
    ensures
        r == zone_shape(c@.skip(from as int)),
{
    let ghost s = c@.skip(from as int);
    let n = c.len() - from;
    assert forall|i: int| 0 <= i < s.len() implies #[trigger] s[i] == c@[from + i] by {}
    if n == 0 {
        return true;
    }
    assert(s[0] == c@[from as int]);
    if n == 1 {
        return c[from] == 'Z';
    }
    if n != 6 {
        return false;
    }
    assert(s[1] == c@[from + 1] && s[2] == c@[from + 2] && s[3] == c@[from + 3] && s[4] == c@[from
        + 4] && s[5] == c@[from + 5]);
    (c[from] == '+' || c[from] == '-') && char_is_digit(c[from + 1]) && char_is_digit(c[from + 2])
        && c[from + 3] == ':' && char_is_digit(c[from + 4]) && char_is_digit(c[from + 5])
}

/// Whether the characters from `from` on are an optional fraction and an optional
/// zone.
fn tail_at(c: &Vec<char>, from: usize) -> (r: bool)
    requires
        from <= c@.len(),
    ensures
        r == tail_shape(c@.skip(from as int)),
{
    let ghost s = c@.skip(from as int);
    assert forall|i: int| 0 <= i < s.len() implies #[trigger] s[i] == c@[from + i] by {}
    if from == c.len() || c[from] != '.' {
        let r = zone_at(c, from);
        proof {
            assert(s.skip(0) =~= s);
            if r {
                assert(fraction_then_zone(s, 0));
            } else if tail_shape(s) {
                let k = choose|k: int| 0 <= k <= s.len() && #[trigger] fraction_then_zone(s, k);
                if k > 0 {
                    assert(s.take(k)[0] == s[0]);
                }
            }
        }
        return r;
    }
    let mut end: usize = from + 1;
    while end < c.len() && char_is_digit(c[end])
        invariant
            from < end <= c@.len(),
            forall|i: int| from < i < end ==> is_digit(#[trigger] c@[i]),
        decreases c.len() - end,
    {
        end += 1;
    }
    let r = end > from + 1 && zone_at(c, end);
    proof {
        let m = end - from;
        assert(s.skip(m) =~= c@.skip(end as int));
        assert(s[0] == '.');
        assert forall|i: int| 1 <= i < m implies is_digit(#[trigger] s[i]) by {
            assert(s[i] == c@[from + i]);
        }
        if r {
            let head = s.take(m);
            assert forall|i: int| 1 <= i < head.len() implies is_digit(#[trigger] head[i]) by {
                assert(head[i] == s[i]);
            }
            assert(fraction_then_zone(s, m));
        } else if tail_shape(s) {
            let k = choose|k: int| 0 <= k <= s.len() && #[trigger] fraction_then_zone(s, k);
            if k == 0 {
                assert(s.skip(0)[0] == s[0]);
            } else if k < m {
                assert(s.skip(k)[0] == s[k]);
            } else if k > m {
                assert(s.take(k)[m] == s[m]);
                assert(s[m] == c@[end as int]);
            }
        }
    }
    r
}

/// `hh:mm:ss` with an hour up to 23 and minutes and seconds up to 59, and behind
/// it an optional fraction and an optional zone.
pub open spec fn time_shape(s: Text) -> bool {
    &&& s.len() >= 8
    &&& s[2] == ':' && s[5] == ':'
    &&& forall|i: int| 0 <= i < 8 && i != 2 && i != 5 ==> is_digit(#[trigger] s[i])
    &&& two_digits(s, 0) <= 23 && two_digits(s, 3) <= 59 && two_digits(s, 6) <= 59
    &&& tail_shape(s.skip(8))
}

/// A date, a `T`, and a time.
pub open spec fn datetime_shape(s: Text) -> bool {
    let t = find(s, 'T');
    &&& t < s.len()
    &&& date_shape(s.take(t))
    &&& time_shape(s.skip(t + 1))
}

/// Whether a text is a date, a `T`, and a time `hh:mm:ss`, with an optional
/// fraction of a second and an optional zone, `Z` or a sign and `hh:mm`, behind it.
pub fn is_datetime(s: &str) -> (r: bool)
    ensures
        r == datetime_shape(s@),
{
    let c = chars_of(s);
    let t = index_of(&c, 'T');
    if t >= c.len() {
        return false;
    }
    if !date_chars(&c, t) {
        return false;
    }
    let b = t + 1;
    let ghost rest = s@.skip(t + 1);
    if c.len() - b < 8 {
        return false;
    }
    assert forall|i: int| 0 <= i < rest.len() implies #[trigger] rest[i] == c@[b + i] by {}
    if c[b + 2] != ':' || c[b + 5] != ':' {
        assert(rest[2] != ':' || rest[5] != ':');
        return false;
    }
    assert(rest[2] == ':' && rest[5] == ':');
    if !digits_between(&c, b, b + 2) || !digits_between(&c, b + 3, b + 5) || !digits_between(
        &c,
        b + 6,
        b + 8,
    ) {
        proof {
            if time_shape(rest) {
                assert forall|i: int|
                    b <= i < b + 8 && i != b + 2 && i != b + 5 implies is_digit(
                    #[trigger] c@[i],
                ) by {
                    assert(is_digit(rest[i - b]));
                }
            }
        }
        return false;
    }
    assert(is_digit(c@[b as int]) && is_digit(c@[b + 1]));
    assert(is_digit(c@[b + 3]) && is_digit(c@[b + 4]));
    assert(is_digit(c@[b + 6]) && is_digit(c@[b + 7]));
    assert forall|i: int| 0 <= i < 8 && i != 2 && i != 5 implies is_digit(#[trigger] rest[i]) by {
        assert(rest[i] == c@[b + i]);
    }
    let hour = number_at(&c, b);
    let minute = number_at(&c, b + 3);
    let second = number_at(&c, b + 6);
    assert(two_digits(rest, 0) == hour && two_digits(rest, 3) == minute && two_digits(rest, 6)
        == second);
    if hour > 23 || minute > 59 || second > 59 {
        return false;
    }
    assert(rest.skip(8) =~= c@.skip(b + 8));
    tail_at(&c, b + 8)
}

/// A date-time begins with a date.
pub proof fn law_datetime_begins_with_date(s: Text)
    requires
        datetime_shape(s),
    ensures
        s.len() >= 19,
        date_shape(s.take(10)),
        s[10] == 'T',
{
    let t = find(s, 'T');
    crate::text::lemma_find(s, 'T');
    assert(s.take(t).len() == t);
}

} // verus!
