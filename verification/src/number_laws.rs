//! What numbers, durations and times of day look like.

use vstd::prelude::*;

use crate::number;

verus! {

/// Whether a character is a digit, and of which value.
pub open spec fn digit_is(c: char, d: int) -> bool {
    '0' <= c && c <= '9' && c as u32 == 48 + d
}

/// A number below ten is written with its digit, and a larger one with its last
/// digit behind the rest.
pub proof fn decimal_notation(n: nat, d: nat)
    requires
        d < 10,
    ensures
        number::decimal(d).len() == 1,
        digit_is(number::decimal(d)[0], d as int),
        n > 0 ==> number::decimal(10 * n + d) == number::decimal(n) + number::decimal(d),
{
    if n > 0 {
        assert((10 * n + d) / 10 == n && (10 * n + d) % 10 == d);
        assert(number::decimal(10 * n + d) =~= number::decimal(n) + number::decimal(d));
    }
}

/// A digit alone is read as its value.
pub proof fn a_digit_is_read(c: char, d: nat, max: nat)
    requires
        digit_is(c, d as int),
    ensures
        number::parsed(seq![c], max) == (if d <= max {
            Some(d)
        } else {
            None
        }),
{
    let s = seq![c];
    assert(number::unsigned_part(s) == s);
    assert(s.drop_last() =~= seq![]);
    assert(number::value(seq![]) == 0);
    assert(s.last() == c);
    assert(number::value(s) == d);
    assert(number::all_digits(s));
}

/// A digit behind a number makes it ten times as large and adds its own value. A
/// number above the limit is none.
pub proof fn digits_are_read_one_by_one(s: Seq<char>, c: char, n: nat, d: nat, any: nat, max: nat)
    requires
        number::parsed(s, any) == Some(n),
        digit_is(c, d as int),
    ensures
        number::parsed(s.push(c), max) == (if 10 * n + d <= max {
            Some((10 * n + d) as nat)
        } else {
            None
        }),
{
    let digits = number::unsigned_part(s);
    let more = number::unsigned_part(s.push(c));
    assert(more =~= digits.push(c));
    assert(more.drop_last() =~= digits);
    assert(number::value(more) == 10 * n + d);
    assert forall|i: int| 0 <= i < more.len() implies number::is_digit(#[trigger] more[i]) by {
        if i < digits.len() {
            assert(more[i] == digits[i]);
            assert(number::is_digit(digits[i]));
        }
    }
}

/// Only the limit decides whether the number that a text names is given.
pub proof fn the_limit_bounds_what_is_read(s: Seq<char>, n: nat, any: nat, max: nat)
    requires
        number::parsed(s, any) == Some(n),
    ensures
        n <= any,
        number::parsed(s, max) == (if n <= max {
            Some(n)
        } else {
            None
        }),
{
}

/// A plus sign in front of a number changes nothing.
pub proof fn a_plus_sign_is_passed_over(s: Seq<char>, max: nat)
    requires
        s.len() > 0 ==> s[0] != '+',
    ensures
        number::parsed(seq!['+'] + s, max) == number::parsed(s, max),
{
    assert((seq!['+'] + s).skip(1) =~= s);
}

/// A text that is empty, or holds anything but digits behind a plus sign, names
/// no number.
pub proof fn other_texts_are_no_numbers(s: Seq<char>, i: int, max: nat)
    requires
        s.len() == 0 || s == seq!['+'] || (0 <= i < s.len() && !('0' <= s[i] && s[i] <= '9') && (i
            > 0 || s[i] != '+')),
    ensures
        number::parsed(s, max) is None,
{
    if s.len() > 0 && s != seq!['+'] {
        let digits = number::unsigned_part(s);
        if s[0] == '+' {
            assert(digits[i - 1] == s[i]);
        } else {
            assert(digits[i] == s[i]);
        }
        assert(exists|k: int| 0 <= k < digits.len() && !number::is_digit(#[trigger] digits[k]));
    }
}

/// A number below one hundred is written with two digits.
pub proof fn two_digit_notation(a: nat, b: nat)
    requires
        a < 10,
        b < 10,
    ensures
        crate::format::two_digits(10 * a + b) == number::decimal(a) + number::decimal(b),
{
    if a == 0 {
        decimal_notation(0, 0);
        assert(number::decimal(0) =~= seq!['0']);
    } else {
        decimal_notation(a, b);
    }
}

/// A duration is written in hours and minutes, or in minutes and seconds, or in
/// seconds, from its largest unit on; the smaller unit has two digits.
pub proof fn durations_in_units(h: nat, m: nat, s: nat)
    requires
        m < 60,
        s < 60,
    ensures
        crate::format::duration_text(3600 * h + 60 * m + s) == if h > 0 {
            number::decimal(h) + seq!['h'] + crate::format::two_digits(m) + seq!['m']
        } else if m > 0 {
            number::decimal(m) + seq!['m'] + crate::format::two_digits(s) + seq!['s']
        } else {
            number::decimal(s) + seq!['s']
        },
{
    let all = 3600 * h + 60 * m + s;
    assert(all / 3600 == h);
    assert(all / 60 == 60 * h + m);
    assert((60 * h + m) % 60 == m);
    assert(all % 60 == s);
}

/// The time of day is the hour and the minute, whatever the day and the second.
pub proof fn time_of_day(day: int, h: nat, m: nat, s: nat, secs: i64)
    requires
        h < 24,
        m < 60,
        s < 60,
        secs == 86_400 * day + 3600 * h + 60 * m + s,
    ensures
        crate::moment::clock(secs) == crate::format::two_digits(h) + seq![':']
            + crate::format::two_digits(m),
{
    assert((secs as int) % 86_400 == 3600 * h + 60 * m + s);
    assert((secs as int) % 3600 == 60 * m + s);
    assert((3600 * h + 60 * m + s) / 3600 == h);
    assert((60 * m + s) / 60 == m);
}

/// Of two moments the one with the larger second is later, and within a second
/// the one with more nanoseconds.
pub proof fn later_moments(a: crate::moment::Moment, b: crate::moment::Moment)
    ensures
        a.secs > b.secs ==> a.after(b),
        a.secs == b.secs ==> a.after(b) == (a.nanos > b.nanos),
        a.secs < b.secs ==> !a.after(b),
        a.total_nanos() == 1_000_000_000 * a.secs + a.nanos,
{
}

/// The moments of the calendar, with leap seconds at the ends of minutes.
pub proof fn moments_of_the_calendar(secs: i64, nanos: u32)
    ensures
        crate::moment::is_timestamp(secs, nanos) == (-8_334_601_228_800 <= secs
            <= 8_210_266_876_799 && (nanos < 1_000_000_000 || (nanos < 2_000_000_000 && (
        secs as int) % 60 == 59))),
{
}

} // verus!
