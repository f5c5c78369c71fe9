//! Formatting helpers shared by maintenance reports and progress logs.

use vstd::prelude::*;
use vstd::slice::slice_subrange;

use crate::number::{decimal_chars, decimal_text};
use crate::text::{append_chars, to_text};

verus! {

/// `digits` with a comma before each group of three, counted from the right.
pub open spec fn grouped(digits: Seq<char>) -> Seq<char>
    decreases digits.len(),
{
    if digits.len() <= 3 {
        digits
    } else {
        let n = digits.len() - 3;
        grouped(digits.take(n)).push(',') + digits.skip(n)
    }
}

/// A number with thousands separators.
pub open spec fn count_text(n: nat) -> Seq<char> {
    grouped(crate::number::decimal(n))
}

fn group(digits: &[char]) -> (out: Vec<char>)
    ensures
        out@ == grouped(digits@),
    decreases digits@.len(),
{
    if digits.len() <= 3 {
        let mut out: Vec<char> = Vec::new();
        append_chars(&mut out, digits);
        assert(out@ =~= digits@);
        out
    } else {
        let n: usize = digits.len() - 3;
        let mut out = group(slice_subrange(digits, 0, n));
        out.push(',');
        append_chars(&mut out, slice_subrange(digits, n, digits.len()));
        assert(digits@.take(n as int) =~= digits@.subrange(0, n as int));
        assert(digits@.skip(n as int) =~= digits@.subrange(n as int, digits@.len() as int));
        out
    }
}

/// Format a number with thousands separators, e.g. `1013254` -> `1,013,254`.
#[must_use]
pub fn count(n: u64) -> (text: String)
    ensures
        text@ == count_text(n as nat),
{
    let digits = decimal_chars(n);
    let out = group(digits.as_slice());
    to_text(out.as_slice())
}

/// A number below one hundred with two digits.
pub open spec fn two_digits(n: nat) -> Seq<char> {
    if n < 10 {
        seq!['0'] + crate::number::decimal(n)
    } else {
        crate::number::decimal(n)
    }
}

/// A duration in its two largest units, from hours, minutes and seconds.
pub open spec fn duration_text(seconds: nat) -> Seq<char> {
    let h = seconds / 3600;
    let m = (seconds / 60) % 60;
    let s = seconds % 60;
    if h > 0 {
        crate::number::decimal(h) + seq!['h'] + two_digits(m) + seq!['m']
    } else if m > 0 {
        crate::number::decimal(m) + seq!['m'] + two_digits(s) + seq!['s']
    } else {
        crate::number::decimal(s) + seq!['s']
    }
}

fn push_two_digits(out: &mut String, n: u64)
    requires
        n < 100,
    ensures
        final(out)@ == old(out)@ + two_digits(n as nat),
{
    let ghost before = out@;
    if n < 10 {
        out.push('0');
    }
    let digits = decimal_text(n);
    out.append(digits.as_str());
    assert(out@ =~= before + two_digits(n as nat));
}

/// Format a duration of whole seconds compactly for a progress log, e.g.
/// `3h30m`, `12m05s`.
///
/// Only the two largest units are shown, which is precise enough to follow a
/// scan that runs for hours.
#[must_use]
pub fn duration(seconds: u64) -> (text: String)
    ensures
        text@ == duration_text(seconds as nat),
{
    let hours: u64 = seconds / 3600;
    let minutes: u64 = (seconds / 60) % 60;
    let rest: u64 = seconds % 60;
    if hours > 0 {
        let mut out = decimal_text(hours);
        out.push('h');
        push_two_digits(&mut out, minutes);
        out.push('m');
        assert(out@ =~= duration_text(seconds as nat));
        out
    } else if minutes > 0 {
        let mut out = decimal_text(minutes);
        out.push('m');
        push_two_digits(&mut out, rest);
        out.push('s');
        assert(out@ =~= duration_text(seconds as nat));
        out
    } else {
        let mut out = decimal_text(rest);
        out.push('s');
        assert(out@ =~= duration_text(seconds as nat));
        out
    }
}

/// `s` without its commas.
pub open spec fn without_commas(s: Seq<char>) -> Seq<char> {
    s.filter(|c: char| c != ',')
}

proof fn lemma_without_commas_of_digits(s: Seq<char>)
    requires
        crate::number::all_digits(s),
    ensures
        without_commas(s) == s,
    decreases s.len(),
{
    reveal(Seq::filter);
    if s.len() > 0 {
        assert(crate::number::is_digit(s.last()));
        assert(crate::number::all_digits(s.drop_last()));
        lemma_without_commas_of_digits(s.drop_last());
        assert(s.drop_last().push(s.last()) =~= s);
    } else {
        assert(without_commas(s) =~= s);
    }
}

proof fn lemma_without_commas_of_groups(digits: Seq<char>)
    requires
        crate::number::all_digits(digits),
    ensures
        without_commas(grouped(digits)) == digits,
    decreases digits.len(),
{
    if digits.len() <= 3 {
        lemma_without_commas_of_digits(digits);
    } else {
        let n = digits.len() - 3;
        let keep = |c: char| c != ',';
        let head = grouped(digits.take(n));
        assert(crate::number::all_digits(digits.take(n)));
        assert(crate::number::all_digits(digits.skip(n)));
        lemma_without_commas_of_groups(digits.take(n));
        lemma_without_commas_of_digits(digits.skip(n));
        Seq::filter_distributes_over_add(head.push(','), digits.skip(n), keep);
        assert(head.push(',').filter(keep) == head.filter(keep)) by {
            reveal(Seq::filter);
            assert(head.push(',').drop_last() =~= head);
        }
        assert(digits =~= digits.take(n) + digits.skip(n));
    }
}

/// Separators change nothing but the separators: without its commas a
/// formatted number is its decimal notation.
pub proof fn count_without_commas_is_decimal(n: nat)
    ensures
        without_commas(count_text(n)) == crate::number::decimal(n),
{
    crate::number::decimal_holds_digits_only(n);
    lemma_without_commas_of_groups(crate::number::decimal(n));
}

/// Different numbers are formatted differently.
pub proof fn count_is_injective(a: nat, b: nat)
    requires
        count_text(a) == count_text(b),
    ensures
        a == b,
{
    count_without_commas_is_decimal(a);
    count_without_commas_is_decimal(b);
    crate::number::decimal_is_injective(a, b);
}

proof fn lemma_groups_of_three(digits: Seq<char>)
    requires
        crate::number::all_digits(digits),
        digits.len() > 0,
    ensures
        grouped(digits).len() > 0,
        grouped(digits)[0] != ',',
        forall|i: int|
            0 <= i < grouped(digits).len() ==> ((#[trigger] grouped(digits)[i]) == ',') == ((
            grouped(digits).len() - 1 - i) % 4 == 3),
    decreases digits.len(),
{
    if digits.len() <= 3 {
        assert forall|i: int| 0 <= i < digits.len() implies #[trigger] digits[i] != ',' by {
            assert(crate::number::is_digit(digits[i]));
        }
    } else {
        let n = digits.len() - 3;
        let head = grouped(digits.take(n));
        let last = digits.skip(n);
        let all = grouped(digits);
        assert(crate::number::all_digits(digits.take(n)));
        lemma_groups_of_three(digits.take(n));
        assert(all =~= head.push(',') + last);
        assert forall|i: int| 0 <= i < all.len() implies ((#[trigger] all[i]) == ',') == ((
        all.len() - 1 - i) % 4 == 3) by {
            if i < head.len() {
                assert(all[i] == head[i]);
            } else if i > head.len() {
                let k = i - head.len() - 1 + n;
                assert(all[i] == digits[k]);
                assert(crate::number::is_digit(digits[k]));
            }
        }
    }
}

/// A formatted number has a comma before each group of three digits, counted
/// from its end, and nowhere else; it does not start with one.
pub proof fn count_groups_by_three(n: nat)
    ensures
        count_text(n).len() > 0,
        count_text(n)[0] != ',',
        forall|i: int|
            0 <= i < count_text(n).len() ==> ((#[trigger] count_text(n)[i]) == ',') == ((
            count_text(n).len() - 1 - i) % 4 == 3),
{
    crate::number::decimal_holds_digits_only(n);
    lemma_groups_of_three(crate::number::decimal(n));
}

} // verus!
