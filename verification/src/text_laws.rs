//! What the operations on texts do, character by character.

use vstd::prelude::*;

use crate::text;

verus! {

/// Whether `part` stands in `s` from `i` on, character by character.
pub open spec fn stands_in(s: Seq<char>, part: Seq<char>, i: int) -> bool {
    &&& 0 <= i
    &&& i + part.len() <= s.len()
    &&& forall|k: int| 0 <= k < part.len() ==> #[trigger] part[k] == s[i + k]
}

/// Whether two characters are the same letter up to ASCII case: they are equal,
/// or one is an ASCII capital and the other its small letter.
pub open spec fn alike(a: char, b: char) -> bool {
    ||| a == b
    ||| 'A' <= a && a <= 'Z' && b as u32 == a as u32 + 32
    ||| 'A' <= b && b <= 'Z' && a as u32 == b as u32 + 32
}

/// White space is made of the ASCII spaces and line ends, and of the spaces of
/// other scripts.
pub proof fn white_space_characters(c: char)
    ensures
        text::is_white_space(c) == (c == ' ' || c == '\t' || c == '\n' || c == '\u{b}' || c
            == '\u{c}' || c == '\r' || c == '\u{85}' || c == '\u{a0}' || c == '\u{1680}' || (
        '\u{2000}' <= c && c <= '\u{200a}') || c == '\u{2028}' || c == '\u{2029}' || c
            == '\u{202f}' || c == '\u{205f}' || c == '\u{3000}'),
{
}

/// Whatever white space stands around a text, trimming takes it away, and
/// nothing else.
pub proof fn trimming_takes_outer_white_space(
    before: Seq<char>,
    s: Seq<char>,
    after: Seq<char>,
)
    requires
        forall|i: int| 0 <= i < before.len() ==> text::is_white_space(#[trigger] before[i]),
        forall|i: int| 0 <= i < after.len() ==> text::is_white_space(#[trigger] after[i]),
        s.len() > 0 ==> !text::is_white_space(s[0]) && !text::is_white_space(s.last()),
    ensures
        text::trimmed(before + s + after) == s,
    decreases before.len() + after.len(),
{
    let whole = before + s + after;
    if before.len() > 0 {
        let rest = before.skip(1);
        assert forall|i: int| 0 <= i < rest.len() implies text::is_white_space(#[trigger] rest[i]) by {
            assert(rest[i] == before[i + 1]);
        }
        trimming_takes_outer_white_space(rest, s, after);
        assert(whole.skip(1) =~= rest + s + after);
        assert(whole[0] == before[0]);
    } else if s.len() > 0 {
        assert(whole[0] == s[0]);
        assert(text::trim_start(whole) == whole);
        lemma_trim_end(s, after);
        assert(whole =~= s + after);
    } else if after.len() > 0 {
        let rest = after.skip(1);
        assert forall|i: int| 0 <= i < rest.len() implies text::is_white_space(#[trigger] rest[i]) by {
            assert(rest[i] == after[i + 1]);
        }
        trimming_takes_outer_white_space(before, s, rest);
        assert(whole[0] == after[0]);
        assert(whole.skip(1) =~= before + s + rest);
    } else {
        assert(whole =~= s);
    }
}

proof fn lemma_trim_end(s: Seq<char>, after: Seq<char>)
    requires
        forall|i: int| 0 <= i < after.len() ==> text::is_white_space(#[trigger] after[i]),
        s.len() > 0,
        !text::is_white_space(s.last()),
    ensures
        text::trim_end(s + after) == s,
    decreases after.len(),
{
    let whole = s + after;
    if after.len() > 0 {
        let rest = after.drop_last();
        assert forall|i: int| 0 <= i < rest.len() implies text::is_white_space(#[trigger] rest[i]) by {
            assert(rest[i] == after[i]);
        }
        lemma_trim_end(s, rest);
        assert(whole.drop_last() =~= s + rest);
        assert(whole.last() == after[after.len() - 1]);
    } else {
        assert(whole =~= s);
    }
}

/// Every text is its trimmed text with white space around it.
pub proof fn trimming_leaves_white_space_only(s: Seq<char>) -> (parts: (Seq<char>, Seq<char>))
    ensures
        s == parts.0 + text::trimmed(s) + parts.1,
        forall|i: int| 0 <= i < parts.0.len() ==> text::is_white_space(#[trigger] parts.0[i]),
        forall|i: int| 0 <= i < parts.1.len() ==> text::is_white_space(#[trigger] parts.1[i]),
    decreases s.len(),
{
    let none = Seq::<char>::empty();
    if s.len() > 0 && text::is_white_space(s[0]) {
        let (before, after) = trimming_leaves_white_space_only(s.skip(1));
        let more = seq![s[0]] + before;
        assert(text::trimmed(s) == text::trimmed(s.skip(1)));
        let kept = text::trimmed(s.skip(1));
        assert(seq![s[0]] + (before + kept + after) =~= more + kept + after);
        assert(s =~= seq![s[0]] + s.skip(1));
        (more, after)
    } else {
        let after = lemma_trim_end_leaves(s);
        assert(text::trim_start(s) == s);
        assert(s =~= none + text::trimmed(s) + after);
        (none, after)
    }
}

proof fn lemma_trim_end_leaves(s: Seq<char>) -> (after: Seq<char>)
    ensures
        s == text::trim_end(s) + after,
        forall|i: int| 0 <= i < after.len() ==> text::is_white_space(#[trigger] after[i]),
    decreases s.len(),
{
    if s.len() > 0 && text::is_white_space(s.last()) {
        let after = lemma_trim_end_leaves(s.drop_last());
        let more = after.push(s.last());
        let kept = text::trim_end(s.drop_last());
        assert(text::trim_end(s) == kept);
        assert((kept + after).push(s.last()) =~= kept + more);
        assert(s =~= s.drop_last().push(s.last()));
        more
    } else {
        assert(s =~= text::trim_end(s) + Seq::<char>::empty());
        Seq::empty()
    }
}

/// Only the case of ASCII letters is changed, by their distance in the code.
pub proof fn case_of_a_character(c: char)
    ensures
        text::lower_char(c) as u32 == (if 'A' <= c && c <= 'Z' {
            c as u32 + 32
        } else {
            c as u32 as int
        }),
        text::upper_char(c) as u32 == (if 'a' <= c && c <= 'z' {
            c as u32 - 32
        } else {
            c as u32 as int
        }),
{
}

/// The case of a text is changed character by character, in place.
pub proof fn case_is_changed_in_place(s: Seq<char>, i: int)
    ensures
        text::lower(s).len() == s.len(),
        text::upper(s).len() == s.len(),
        0 <= i < s.len() ==> text::lower(s)[i] == text::lower_char(s[i]),
        0 <= i < s.len() ==> text::upper(s)[i] == text::upper_char(s[i]),
{
}

/// Texts are the same up to case where their characters are alike, one by one.
pub proof fn same_text_up_to_case(a: Seq<char>, b: Seq<char>)
    ensures
        text::same_ignoring_case(a, b) == (a.len() == b.len() && forall|i: int|
            0 <= i < a.len() ==> alike(#[trigger] a[i], b[i])),
{
    let same = a.len() == b.len() && forall|i: int|
        0 <= i < a.len() ==> alike(#[trigger] a[i], b[i]);
    if text::same_ignoring_case(a, b) {
        assert(text::lower(a).len() == a.len() && text::lower(b).len() == b.len());
        assert forall|i: int| 0 <= i < a.len() implies alike(#[trigger] a[i], b[i]) by {
            assert(text::lower(a)[i] == text::lower_char(a[i]));
            assert(text::lower(b)[i] == text::lower_char(b[i]));
            case_of_a_character(a[i]);
            case_of_a_character(b[i]);
        }
    }
    if same {
        assert forall|i: int| 0 <= i < a.len() implies text::lower(a)[i] == text::lower(b)[i] by {
            assert(alike(a[i], b[i]));
            case_of_a_character(a[i]);
            case_of_a_character(b[i]);
        }
        assert(text::lower(a) =~= text::lower(b));
    }
}

/// A text occurs where it stands, character by character.
pub proof fn occurring_is_standing(s: Seq<char>, part: Seq<char>, i: int)
    ensures
        text::occurs_at(s, part, i) == stands_in(s, part, i),
{
    if text::occurs_at(s, part, i) {
        assert forall|k: int| 0 <= k < part.len() implies #[trigger] part[k] == s[i + k] by {
            assert(s.subrange(i, i + part.len())[k] == s[i + k]);
        }
    }
    if stands_in(s, part, i) {
        assert(s.subrange(i, i + part.len()) =~= part);
    }
}

/// A text occurs in another exactly where it stands somewhere in it.
pub proof fn occurring_somewhere(s: Seq<char>, part: Seq<char>)
    ensures
        text::occurs(s, part) == exists|i: int| #[trigger] stands_in(s, part, i),
{
    if text::occurs(s, part) {
        let i = choose|i: int| text::occurs_at(s, part, i);
        occurring_is_standing(s, part, i);
    }
    if exists|i: int| #[trigger] stands_in(s, part, i) {
        let i = choose|i: int| #[trigger] stands_in(s, part, i);
        occurring_is_standing(s, part, i);
    }
}

/// The first occurrence found is one, and none stands before it.
pub proof fn finding_is_finding_the_first(s: Seq<char>, part: Seq<char>)
    ensures
        match text::find(s, part) {
            Some(k) => stands_in(s, part, k) && forall|j: int|
                0 <= j < k ==> !#[trigger] stands_in(s, part, j),
            None => forall|j: int| !#[trigger] stands_in(s, part, j),
        },
{
    text::lemma_find_from(s, part, 0);
    assert forall|j: int| #[trigger] stands_in(s, part, j) implies text::occurs_at(s, part, j) by {
        occurring_is_standing(s, part, j);
    }
    if let Some(k) = text::find(s, part) {
        occurring_is_standing(s, part, k);
    }
}

/// A part of a split holds no separator.
pub proof fn split_parts_hold_no_separator(s: Seq<char>, separator: Seq<char>, i: int)
    requires
        separator.len() > 0,
        0 <= i < text::split(s, separator).len(),
    ensures
        forall|j: int| !#[trigger] stands_in(text::split(s, separator)[i], separator, j),
{
    lemma_split_parts_hold_no_separator(s, separator, 0, i);
}

proof fn lemma_split_parts_hold_no_separator(
    s: Seq<char>,
    separator: Seq<char>,
    start: int,
    i: int,
)
    requires
        separator.len() > 0,
        0 <= start <= s.len(),
        0 <= i < text::split_from(s, separator, start).len(),
    ensures
        forall|j: int|
            !#[trigger] stands_in(text::split_from(s, separator, start)[i], separator, j),
    decreases s.len() - start,
{
    text::lemma_find_from(s, separator, start);
    let part = text::split_from(s, separator, start)[i];
    match text::find_from(s, separator, start) {
        Some(k) => {
            if i > 0 {
                lemma_split_parts_hold_no_separator(s, separator, k + separator.len(), i - 1);
                assert(part == text::split_from(s, separator, k + separator.len())[i - 1]);
            } else {
                assert forall|j: int| !#[trigger] stands_in(part, separator, j) by {
                    if stands_in(part, separator, j) {
                        assert(stands_in(s, separator, start + j)) by {
                            assert forall|n: int| 0 <= n < separator.len() implies #[trigger] separator[n]
                                == s[start + j + n] by {
                                assert(part[j + n] == s[start + j + n]);
                            }
                        }
                        occurring_is_standing(s, separator, start + j);
                    }
                }
            }
        },
        None => {
            assert forall|j: int| !#[trigger] stands_in(part, separator, j) by {
                if stands_in(part, separator, j) {
                    assert(stands_in(s, separator, start + j)) by {
                        assert forall|n: int| 0 <= n < separator.len() implies #[trigger] separator[n]
                            == s[start + j + n] by {
                            assert(part[j + n] == s[start + j + n]);
                        }
                    }
                    occurring_is_standing(s, separator, start + j);
                }
            }
        },
    }
}

/// Each part of a split stands between two separators, or between one of them and
/// an end of the text.
pub proof fn split_parts_stand_between_separators(s: Seq<char>, separator: Seq<char>, start: int, i: int) -> (place: (
    int,
    int,
))
    requires
        separator.len() > 0,
        0 <= start <= s.len(),
        0 <= i < text::split_from(s, separator, start).len(),
    ensures
        start <= place.0 <= place.1 <= s.len(),
        text::split_from(s, separator, start)[i] == s.subrange(place.0, place.1),
        i > 0 ==> text::occurs_at(s, separator, place.0 - separator.len()),
        place.1 < s.len() ==> text::occurs_at(s, separator, place.1),
    decreases s.len() - start,
{
    text::lemma_find_from(s, separator, start);
    match text::find_from(s, separator, start) {
        Some(k) => {
            if i == 0 {
                (start, k)
            } else {
                let next = k + separator.len();
                assert(text::split_from(s, separator, start)[i] == text::split_from(
                    s,
                    separator,
                    next,
                )[i - 1]);
                if i == 1 {
                    (next, first_parts_end_at_a_separator(s, separator, next))
                } else {
                    split_parts_stand_between_separators(s, separator, next, i - 1)
                }
            }
        },
        None => {
            assert(s.skip(start) =~= s.subrange(start, s.len() as int));
            (start, s.len() as int)
        },
    }
}

/// The first part of a split ends at a separator, or at the end of the text.
pub proof fn first_parts_end_at_a_separator(s: Seq<char>, separator: Seq<char>, start: int) -> (end: int)
    requires
        separator.len() > 0,
        0 <= start <= s.len(),
    ensures
        start <= end <= s.len(),
        text::split_from(s, separator, start)[0] == s.subrange(start, end),
        end < s.len() ==> text::occurs_at(s, separator, end),
{
    text::lemma_find_from(s, separator, start);
    match text::find_from(s, separator, start) {
        Some(k) => k,
        None => {
            assert(s.skip(start) =~= s.subrange(start, s.len() as int));
            s.len() as int
        },
    }
}

/// Joined texts stand one after another, with the separator between any two.
pub proof fn joining_puts_separators_between(
    parts: Seq<Seq<char>>,
    last: Seq<char>,
    separator: Seq<char>,
)
    ensures
        text::join(seq![], separator) == Seq::<char>::empty(),
        text::join(seq![last], separator) == last,
        parts.len() > 0 ==> text::join(parts.push(last), separator) == text::join(
            parts,
            separator,
        ) + separator + last,
    decreases parts.len(),
{
    let all = parts.push(last);
    if parts.len() == 1 {
        assert(all.skip(1) =~= seq![last]);
        reveal_with_fuel(text::join, 2);
        assert(text::join(all, separator) =~= text::join(parts, separator) + separator + last);
    } else if parts.len() > 1 {
        joining_puts_separators_between(parts.skip(1), last, separator);
        assert(all.skip(1) =~= parts.skip(1).push(last));
        assert(text::join(all, separator) =~= text::join(parts, separator) + separator + last);
    }
}

proof fn lemma_find_shift(a: Seq<char>, s: Seq<char>, part: Seq<char>, start: int)
    requires
        0 <= start,
    ensures
        text::find_from(a + s, part, a.len() + start) == (match text::find_from(s, part, start) {
            Some(k) => Some(a.len() + k),
            None => None,
        }),
    decreases s.len() + 1 - start,
{
    let t = a + s;
    if start + part.len() <= s.len() {
        assert(t.subrange(a.len() + start, a.len() + start + part.len()) =~= s.subrange(
            start,
            start + part.len(),
        ));
        if !text::occurs_at(s, part, start) {
            lemma_find_shift(a, s, part, start + 1);
        }
    }
}

proof fn lemma_replace_shift(
    a: Seq<char>,
    s: Seq<char>,
    part: Seq<char>,
    with: Seq<char>,
    start: int,
)
    requires
        0 <= start <= s.len(),
        part.len() > 0,
    ensures
        text::replace_from(a + s, part, with, a.len() + start) == text::replace_from(
            s,
            part,
            with,
            start,
        ),
    decreases s.len() - start,
{
    lemma_find_shift(a, s, part, start);
    text::lemma_find_from(s, part, start);
    match text::find_from(s, part, start) {
        Some(k) => {
            lemma_replace_shift(a, s, part, with, k + part.len());
            assert((a + s).subrange(a.len() + start, a.len() + k) =~= s.subrange(start, k));
        },
        None => {
            assert((a + s).skip(a.len() + start) =~= s.skip(start));
        },
    }
}

/// Replacing goes from the front: the first occurrence is replaced, what stands
/// before it stays, and the rest is treated alike. Without an occurrence all
/// stays.
pub proof fn replacing_goes_from_the_front(
    before: Seq<char>,
    part: Seq<char>,
    after: Seq<char>,
    with: Seq<char>,
)
    requires
        part.len() > 0,
        forall|j: int|
            0 <= j < before.len() ==> !#[trigger] stands_in(before + part + after, part, j),
    ensures
        text::replace(before + part + after, part, with) == before + with + text::replace(
            after,
            part,
            with,
        ),
{
    let s = before + part + after;
    let n = before.len() as int;
    assert(stands_in(s, part, n));
    occurring_is_standing(s, part, n);
    text::lemma_find_from(s, part, 0);
    assert forall|j: int| 0 <= j < n implies !text::occurs_at(s, part, j) by {
        occurring_is_standing(s, part, j);
        assert(!stands_in(s, part, j));
    }
    assert(text::find_from(s, part, 0) == Some(n));
    assert(s.subrange(0, n) =~= before);
    assert(s =~= (before + part) + after);
    lemma_replace_shift(before + part, after, part, with, 0);
    assert((before + part).len() == n + part.len());
}

/// A text in which the pattern does not stand stays as it is.
pub proof fn replacing_nothing(s: Seq<char>, part: Seq<char>, with: Seq<char>)
    requires
        forall|j: int| !#[trigger] stands_in(s, part, j),
    ensures
        text::replace(s, part, with) == s,
{
    text::lemma_find_from(s, part, 0);
    if let Some(k) = text::find_from(s, part, 0) {
        occurring_is_standing(s, part, k);
    }
    assert(s.skip(0) =~= s);
}

/// Replacing a character changes that character alone, in place.
pub proof fn replacing_a_character(s: Seq<char>, from: char, to: char, i: int)
    ensures
        text::replace_char(s, from, to).len() == s.len(),
        0 <= i < s.len() ==> text::replace_char(s, from, to)[i] == (if s[i] == from {
            to
        } else {
            s[i]
        }),
{
}

/// A text starts with another exactly where the other comes first and anything
/// follows.
pub proof fn starting_with(s: Seq<char>, prefix: Seq<char>, rest: Seq<char>)
    ensures
        text::starts_with(prefix + rest, prefix),
        text::starts_with(s, prefix) ==> s == prefix + s.skip(prefix.len() as int),
        text::starts_with(s, prefix) == stands_in(s, prefix, 0),
{
    assert((prefix + rest).take(prefix.len() as int) =~= prefix);
    if text::starts_with(s, prefix) {
        assert(s =~= s.take(prefix.len() as int) + s.skip(prefix.len() as int));
        assert forall|k: int| 0 <= k < prefix.len() implies #[trigger] prefix[k] == s[0 + k] by {
            assert(s.take(prefix.len() as int)[k] == s[k]);
        }
    }
    if stands_in(s, prefix, 0) {
        assert(s.take(prefix.len() as int) =~= prefix);
    }
}

/// Only the first character of a text is capitalised.
pub proof fn capitalizing_the_first_character(first: char, rest: Seq<char>)
    ensures
        text::capitalized(seq![]) == Seq::<char>::empty(),
        text::capitalized(seq![first] + rest) == seq![text::upper_char(first)] + rest,
{
    assert(text::capitalized(seq![first] + rest) =~= seq![text::upper_char(first)] + rest);
    assert(text::capitalized(seq![]) =~= Seq::<char>::empty());
}

/// A character separates words where it is white space or an underscore.
pub proof fn gap_characters(c: char)
    ensures
        text::is_gap(c) == (text::is_white_space(c) || c == '_'),
{
}

/// Words keep their characters: text behind what is squeezed is added to it, with
/// one space in between where gaps stand there.
pub proof fn squeezing_goes_word_by_word(s: Seq<char>, gaps: Seq<char>, c: char)
    requires
        !text::is_gap(c),
        forall|i: int| 0 <= i < gaps.len() ==> text::is_gap(#[trigger] gaps[i]),
        s.len() > 0 ==> !text::is_gap(s.last()),
    ensures
        text::squeezed((s + gaps).push(c)) == if gaps.len() > 0 && s.len() > 0 {
            text::squeezed(s) + seq![' ', c]
        } else {
            text::squeezed(s).push(c)
        },
        text::squeezed(s + gaps) == text::squeezed(s),
        s.len() > 0 ==> text::squeezed(s).len() > 0,
{
    lemma_gaps_vanish(s, gaps);
    let whole = (s + gaps).push(c);
    assert(whole.drop_last() =~= s + gaps);
    if s.len() > 0 {
        assert(text::squeezed(s).len() > 0);
    }
    if gaps.len() > 0 {
        assert(whole[whole.len() - 2] == gaps[gaps.len() - 1]);
    } else if s.len() > 0 {
        assert(whole[whole.len() - 2] == s.last());
    }
    if s.len() == 0 {
        assert(text::squeezed(s) =~= seq![]);
    }
    if gaps.len() > 0 && s.len() > 0 {
        assert(text::squeezed(whole) =~= text::squeezed(s) + seq![' ', c]);
    }
}

proof fn lemma_gaps_vanish(s: Seq<char>, gaps: Seq<char>)
    requires
        forall|i: int| 0 <= i < gaps.len() ==> text::is_gap(#[trigger] gaps[i]),
    ensures
        text::squeezed(s + gaps) == text::squeezed(s),
    decreases gaps.len(),
{
    if gaps.len() > 0 {
        let rest = gaps.drop_last();
        assert forall|i: int| 0 <= i < rest.len() implies text::is_gap(#[trigger] rest[i]) by {
            assert(rest[i] == gaps[i]);
        }
        lemma_gaps_vanish(s, rest);
        assert((s + gaps).drop_last() =~= s + rest);
        assert((s + gaps).last() == gaps[gaps.len() - 1]);
    } else {
        assert(s + gaps =~= s);
    }
}

} // verus!
