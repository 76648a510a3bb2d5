//! Which texts have the shapes that are checked.
use vstd::prelude::*;

use crate::runtime::validate::{
    currency_shape, date_shape, datetime_shape, fraction_shape, fraction_then_zone, tail_shape,
    time_shape, two_digits, unit_shape, zone_shape,
};
use crate::text::{digit_char, find, is_alnum, is_digit, lemma_find, Text};

verus! {

/// A number below one hundred in two digits.
pub open spec fn two(n: nat) -> Text {
    seq![digit_char(n / 10), digit_char(n % 10)]
}

/// A date in its written form.
pub open spec fn date_text(year: nat, month: nat, day: nat) -> Text {
    two(year / 100) + two(year % 100) + seq!['-'] + two(month) + seq!['-'] + two(day)
}

/// A time of day in its written form.
pub open spec fn clock_text(hour: nat, minute: nat, second: nat) -> Text {
    two(hour) + seq![':'] + two(minute) + seq![':'] + two(second)
}

/// The number of a digit.
pub open spec fn digit_of(c: char) -> nat {
    (c as u32 - '0' as u32) as nat
}

proof fn lemma_two(n: nat)
    requires
        n < 100,
    ensures
        is_digit(two(n)[0]),
        is_digit(two(n)[1]),
        digit_of(two(n)[0]) * 10 + digit_of(two(n)[1]) == n,
{
}

proof fn lemma_digits(a: char, b: char)
    requires
        is_digit(a),
        is_digit(b),
    ensures
        digit_of(a) * 10 + digit_of(b) < 100,
        two(digit_of(a) * 10 + digit_of(b)) == seq![a, b],
{
    let n = digit_of(a) * 10 + digit_of(b);
    assert(n / 10 == digit_of(a) && n % 10 == digit_of(b));
    assert(two(n) =~= seq![a, b]);
}

/// The texts with the shape of a currency code are three letters from `A` to `Z`.
pub proof fn law_currencies_are_three_capitals(a: char, b: char, c: char, s: Text)
    ensures
        currency_shape(seq![a, b, c]) <==> 'A' <= a <= 'Z' && 'A' <= b <= 'Z' && 'A' <= c <= 'Z',
        currency_shape(s) ==> s == seq![s[0], s[1], s[2]],
{
    let x = seq![a, b, c];
    if currency_shape(x) {
        assert(x[0] == a && x[1] == b && x[2] == c);
    }
    if currency_shape(s) {
        assert(s =~= seq![s[0], s[1], s[2]]);
    }
}

/// A text with one more character has the shape of a unit code if the text had it or was
/// empty, was shorter than three, and the character is a letter or a digit.
pub proof fn law_units_are_up_to_three_characters(s: Text, c: char)
    ensures
        !unit_shape(Seq::empty()),
        unit_shape(s.push(c)) <==> (s.len() == 0 || unit_shape(s)) && s.len() < 3 && ('A' <= c
            <= 'Z' || 'a' <= c <= 'z' || '0' <= c <= '9'),
{
    let x = s.push(c);
    if unit_shape(x) {
        assert(x[s.len() as int] == c);
        assert forall|i: int| 0 <= i < s.len() implies is_alnum(#[trigger] s[i]) by {
            assert(x[i] == s[i]);
        }
    }
}

/// A written date has the shape of one exactly where its month is one of twelve and its
/// day one of thirty-one.
pub proof fn law_written_dates_are_dates(year: nat, month: nat, day: nat)
    requires
        year < 10000,
        month < 100,
        day < 100,
    ensures
        date_shape(date_text(year, month, day)) <==> 1 <= month <= 12 && 1 <= day <= 31,
{
    let s = date_text(year, month, day);
    lemma_two(year / 100);
    lemma_two(year % 100);
    lemma_two(month);
    lemma_two(day);
    assert(s.len() == 10);
    assert(s[0] == two(year / 100)[0] && s[1] == two(year / 100)[1]);
    assert(s[2] == two(year % 100)[0] && s[3] == two(year % 100)[1]);
    assert(s[5] == two(month)[0] && s[6] == two(month)[1]);
    assert(s[8] == two(day)[0] && s[9] == two(day)[1]);
    assert(two_digits(s, 5) == month);
    assert(two_digits(s, 8) == day);
}

/// Every text with the shape of a date is a written date.
pub proof fn law_dates_are_written_dates(s: Text)
    requires
        date_shape(s),
    ensures
        exists|year: nat, month: nat, day: nat|
            year < 10000 && 1 <= month <= 12 && 1 <= day <= 31 && s == #[trigger] date_text(
                year,
                month,
                day,
            ),
{
    assert(is_digit(s[0]) && is_digit(s[1]) && is_digit(s[2]) && is_digit(s[3]));
    assert(is_digit(s[5]) && is_digit(s[6]) && is_digit(s[8]) && is_digit(s[9]));
    lemma_digits(s[0], s[1]);
    lemma_digits(s[2], s[3]);
    lemma_digits(s[5], s[6]);
    lemma_digits(s[8], s[9]);
    let century = digit_of(s[0]) * 10 + digit_of(s[1]);
    let rest = digit_of(s[2]) * 10 + digit_of(s[3]);
    let year = century * 100 + rest;
    let month = digit_of(s[5]) * 10 + digit_of(s[6]);
    let day = digit_of(s[8]) * 10 + digit_of(s[9]);
    assert(year / 100 == century && year % 100 == rest);
    assert(month == two_digits(s, 5) && day == two_digits(s, 8));
    assert(s =~= date_text(year, month, day));
}

/// A written time of day, with what follows it, has the shape of a time exactly where
/// the hour is one of twenty-four, minute and second are each one of sixty, and what
/// follows is a fraction, a zone, both or nothing.
pub proof fn law_written_times_are_times(hour: nat, minute: nat, second: nat, tail: Text)
    requires
        hour < 100,
        minute < 100,
        second < 100,
    ensures
        time_shape(clock_text(hour, minute, second) + tail) <==> hour < 24 && minute < 60 && second
            < 60 && tail_shape(tail),
{
    let c = clock_text(hour, minute, second);
    let s = c + tail;
    lemma_two(hour);
    lemma_two(minute);
    lemma_two(second);
    assert(c.len() == 8);
    assert(s[0] == two(hour)[0] && s[1] == two(hour)[1]);
    assert(s[3] == two(minute)[0] && s[4] == two(minute)[1]);
    assert(s[6] == two(second)[0] && s[7] == two(second)[1]);
    assert(s[2] == ':' && s[5] == ':');
    assert(two_digits(s, 0) == hour);
    assert(two_digits(s, 3) == minute);
    assert(two_digits(s, 6) == second);
    assert(s.skip(8) =~= tail);
}

/// Every text with the shape of a time begins with a written time of day.
pub proof fn law_times_begin_with_a_clock(s: Text)
    requires
        time_shape(s),
    ensures
        exists|hour: nat, minute: nat, second: nat|
            hour < 24 && minute < 60 && second < 60 && s == #[trigger] clock_text(
                hour,
                minute,
                second,
            ) + s.skip(8),
{
    assert(is_digit(s[0]) && is_digit(s[1]) && is_digit(s[3]));
    assert(is_digit(s[4]) && is_digit(s[6]) && is_digit(s[7]));
    lemma_digits(s[0], s[1]);
    lemma_digits(s[3], s[4]);
    lemma_digits(s[6], s[7]);
    let hour = digit_of(s[0]) * 10 + digit_of(s[1]);
    let minute = digit_of(s[3]) * 10 + digit_of(s[4]);
    let second = digit_of(s[6]) * 10 + digit_of(s[7]);
    assert(hour == two_digits(s, 0) && minute == two_digits(s, 3) && second == two_digits(s, 6));
    assert(s =~= clock_text(hour, minute, second) + s.skip(8));
}

/// A fraction is a dot with digits behind it, as many as there are.
pub proof fn law_fractions_are_a_dot_and_digits(s: Text, c: char)
    ensures
        fraction_shape(s.push(c)) <==> '0' <= c <= '9' && s.len() > 0 && (s == seq!['.']
            || fraction_shape(s)),
        fraction_shape(Seq::empty()),
{
    let x = s.push(c);
    if fraction_shape(x) {
        assert(x[s.len() as int] == c);
        assert(x[0] == s[0]);
        if s.len() == 1 {
            assert(s =~= seq!['.']);
        } else {
            assert forall|i: int| 1 <= i < s.len() implies is_digit(#[trigger] s[i]) by {
                assert(x[i] == s[i]);
            }
        }
    }
}

/// A zone is a `Z`, or a sign before a time without seconds; and behind a time nothing
/// but a fraction with a zone may stand, of which either may be missing.
pub proof fn law_zones_stand_behind_the_fraction(
    sign: char,
    hour: nat,
    minute: nat,
    fraction: Text,
    zone: Text,
    s: Text,
)
    requires
        hour < 100,
        minute < 100,
    ensures
        zone_shape(Seq::empty()),
        zone_shape(seq![sign]) <==> sign == 'Z',
        zone_shape(seq![sign] + two(hour) + seq![':'] + two(minute)) <==> sign == '+' || sign
            == '-',
        zone_shape(s) ==> s.len() == 0 || s == seq!['Z'] || (s.len() == 6 && (s[0] == '+' || s[0]
            == '-') && s[3] == ':'),
        fraction_shape(fraction) && zone_shape(zone) ==> tail_shape(fraction + zone),
        tail_shape(s) ==> exists|f: Text, z: Text|
            fraction_shape(f) && zone_shape(z) && s == #[trigger] (f + z),
{
    lemma_two(hour);
    lemma_two(minute);
    let x = seq![sign] + two(hour) + seq![':'] + two(minute);
    assert(x.len() == 6 && x[0] == sign && x[3] == ':');
    assert(x[1] == two(hour)[0] && x[2] == two(hour)[1]);
    assert(x[4] == two(minute)[0] && x[5] == two(minute)[1]);
    if zone_shape(s) && s.len() == 1 {
        assert(s =~= seq!['Z']);
    }
    if fraction_shape(fraction) && zone_shape(zone) {
        let all = fraction + zone;
        assert(all.take(fraction.len() as int) =~= fraction);
        assert(all.skip(fraction.len() as int) =~= zone);
        assert(fraction_then_zone(all, fraction.len() as int));
    }
    if tail_shape(s) {
        let k = choose|k: int| 0 <= k <= s.len() && #[trigger] fraction_then_zone(s, k);
        assert(s =~= s.take(k) + s.skip(k));
    }
}

/// A text is a date with a time if, and only if, a `T` stands between a date and a time.
pub proof fn law_datetimes_are_a_date_and_a_time(date: Text, time: Text, s: Text)
    ensures
        date_shape(date) && time_shape(time) ==> datetime_shape(date + seq!['T'] + time),
        datetime_shape(s) ==> exists|d: Text, t: Text|
            date_shape(d) && time_shape(t) && s == #[trigger] (d + seq!['T'] + t),
{
    if date_shape(date) && time_shape(time) {
        let all = date + seq!['T'] + time;
        lemma_find(all, 'T');
        let k = find(all, 'T');
        assert(all[10] == 'T');
        if k < 10 {
            assert(all[k] == date[k]);
            if k != 4 && k != 7 {
                assert(is_digit(date[k]));
            }
        }
        assert(k == 10);
        assert(all.take(10) =~= date);
        assert(all.skip(11) =~= time);
    }
    if datetime_shape(s) {
        let k = find(s, 'T');
        lemma_find(s, 'T');
        assert(s =~= s.take(k) + seq!['T'] + s.skip(k + 1));
    }
}

} // verus!
