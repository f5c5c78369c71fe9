//! How wikitext is taken apart: what stands between `{{` and `}}` or `[[` and
//! `]]` belongs together.

use vstd::prelude::*;

use crate::tasks::ill::parse;
use crate::tasks::ill::parse::{CallView, TargetView};
use crate::tasks::ill::parse_laws;
use crate::text;
use crate::text_laws;

verus! {

/// A text by its nesting. Each pair is one of braces where its flag is set, else
/// one of brackets.
pub enum Wikitext {
    /// Nothing more.
    End,
    /// A character, then the rest.
    Plain(char, Box<Wikitext>),
    /// An opening pair, what it encloses, a closing pair, then the rest.
    Nested(bool, Box<Wikitext>, bool, Box<Wikitext>),
    /// A closing pair that closes nothing, then the rest.
    Stray(bool, Box<Wikitext>),
}

pub open spec fn opening(braces: bool) -> Seq<char> {
    if braces {
        seq!['{', '{']
    } else {
        seq!['[', '[']
    }
}

pub open spec fn closing(braces: bool) -> Seq<char> {
    if braces {
        seq!['}', '}']
    } else {
        seq![']', ']']
    }
}

/// The characters of a text.
pub open spec fn written(t: Wikitext) -> Seq<char>
    decreases t,
{
    match t {
        Wikitext::End => seq![],
        Wikitext::Plain(c, rest) => seq![c] + written(*rest),
        Wikitext::Nested(open, inner, close, rest) => opening(open) + written(*inner) + closing(
            close,
        ) + written(*rest),
        Wikitext::Stray(close, rest) => closing(close) + written(*rest),
    }
}

pub open spec fn is_brace(c: char) -> bool {
    c == '{' || c == '}'
}

pub open spec fn is_bracket(c: char) -> bool {
    c == '[' || c == ']'
}

/// Whether another character than `c` comes first in a text.
pub open spec fn starts_otherwise(s: Seq<char>, c: char) -> bool {
    s.len() > 0 && s[0] != c
}

/// Whether no two characters of a text make a pair by accident, and closing
/// pairs that close nothing stand outside of all others only.
pub open spec fn is_sound(t: Wikitext, outside: bool) -> bool
    decreases t,
{
    match t {
        Wikitext::End => true,
        Wikitext::Plain(c, rest) => is_sound(*rest, outside) && (is_brace(c) || is_bracket(c)
            ==> starts_otherwise(written(*rest), c)),
        Wikitext::Nested(_, inner, _, rest) => is_sound(*inner, false) && is_sound(*rest, outside),
        Wikitext::Stray(_, rest) => outside && is_sound(*rest, outside),
    }
}

/// Whether a character stands in a text outside of all pairs.
pub open spec fn stands_outside(t: Wikitext, mark: char) -> bool
    decreases t,
{
    match t {
        Wikitext::End => false,
        Wikitext::Plain(c, rest) => c == mark || stands_outside(*rest, mark),
        Wikitext::Nested(_, _, _, rest) => stands_outside(*rest, mark),
        Wikitext::Stray(_, rest) => stands_outside(*rest, mark),
    }
}

proof fn lemma_stands_apart(s: Seq<char>, a: Seq<char>, b: Seq<char>, i: int)
    requires
        text_laws::stands_in(s, a + b, i),
    ensures
        text_laws::stands_in(s, a, i),
        text_laws::stands_in(s, b, i + a.len()),
{
    let whole = a + b;
    assert forall|k: int| 0 <= k < a.len() implies #[trigger] a[k] == s[i + k] by {
        assert(whole[k] == s[i + k]);
    }
    assert forall|k: int| 0 <= k < b.len() implies #[trigger] b[k] == s[i + a.len() + k] by {
        assert(whole[a.len() + k] == s[i + (a.len() + k)]);
    }
}

/// Nothing in a text is found that stands within pairs, or is another character.
proof fn lemma_passed_over(s: Seq<char>, t: Wikitext, outside: bool, mark: char, i: int, depth: nat)
    requires
        text_laws::stands_in(s, written(t), i),
        is_sound(t, outside),
        outside ==> depth == 0,
        depth == 0 ==> !stands_outside(t, mark),
    ensures
        parse::top_level_from(s, mark, i, depth) == parse::top_level_from(
            s,
            mark,
            i + written(t).len(),
            depth,
        ),
    decreases t,
{
    let whole = written(t);
    match t {
        Wikitext::End => {},
        Wikitext::Plain(c, rest) => {
            let behind = written(*rest);
            lemma_stands_apart(s, seq![c], behind, i);
            assert(seq![c][0] == s[i + 0]);
            if is_brace(c) || is_bracket(c) {
                assert(behind[0] == s[i + 1 + 0]);
            }
            lemma_passed_over(s, *rest, outside, mark, i + 1, depth);
            assert(!parse::opens_at(s, i) && !parse::closes_at(s, i));
        },
        Wikitext::Nested(open, inner, close, rest) => {
            let first = opening(open);
            let within = written(*inner);
            let last = closing(close);
            let behind = written(*rest);
            lemma_stands_apart(s, first + within + last, behind, i);
            lemma_stands_apart(s, first + within, last, i);
            lemma_stands_apart(s, first, within, i);
            assert(first[0] == s[i + 0] && first[1] == s[i + 1]);
            let j = i + 2;
            let k = j + within.len();
            assert(last[0] == s[k + 0] && last[1] == s[k + 1]);
            lemma_passed_over(s, *inner, false, mark, j, depth + 1);
            lemma_passed_over(s, *rest, outside, mark, k + 2, depth);
            assert(parse::opens_at(s, i));
            assert(!parse::opens_at(s, k) && parse::closes_at(s, k));
            assert(whole.len() == 2 + within.len() + 2 + behind.len());
        },
        Wikitext::Stray(close, rest) => {
            let first = closing(close);
            lemma_stands_apart(s, first, written(*rest), i);
            assert(first[0] == s[i + 0] && first[1] == s[i + 1]);
            lemma_passed_over(s, *rest, outside, mark, i + 2, depth);
            assert(!parse::opens_at(s, i) && parse::closes_at(s, i));
        },
    }
}

pub open spec fn is_mark(mark: char) -> bool {
    mark == '|' || mark == '='
}

/// The first mark outside of all pairs is found, whatever stands within pairs in
/// front of it and whatever follows.
pub proof fn marks_are_found_outside_of_pairs(t: Wikitext, mark: char, after: Seq<char>)
    requires
        is_sound(t, true),
        is_mark(mark),
        !stands_outside(t, mark),
    ensures
        parse::top_level_from(written(t) + seq![mark] + after, mark, 0, 0) == Some(
            written(t).len() as int,
        ),
{
    let s = written(t) + seq![mark] + after;
    let n = written(t).len() as int;
    assert(text_laws::stands_in(s, written(t), 0));
    lemma_passed_over(s, t, true, mark, 0, 0);
    assert(s[n] == mark);
    assert(!parse::opens_at(s, n) && !parse::closes_at(s, n));
}

/// No mark is found where all of them stand within pairs.
pub proof fn marks_within_pairs_are_not_found(t: Wikitext, mark: char)
    requires
        is_sound(t, true),
        is_mark(mark),
        !stands_outside(t, mark),
    ensures
        parse::top_level_from(written(t), mark, 0, 0) is None,
{
    let s = written(t);
    assert(text_laws::stands_in(s, s, 0));
    lemma_passed_over(s, t, true, mark, 0, 0);
}

/// No mark is found behind an opening pair that nothing closes.
pub proof fn open_pairs_hide_what_follows(t: Wikitext, open: bool, behind: Wikitext, mark: char)
    requires
        is_sound(t, true),
        is_sound(behind, false),
        starts_otherwise(written(behind), opening(open)[0]),
        is_mark(mark),
        !stands_outside(t, mark),
    ensures
        parse::top_level_from(written(t) + opening(open) + written(behind), mark, 0, 0) is None,
{
    let s = written(t) + opening(open) + written(behind);
    let n = written(t).len() as int;
    assert(text_laws::stands_in(s, written(t), 0));
    lemma_passed_over(s, t, true, mark, 0, 0);
    assert(s[n] == opening(open)[0] && s[n + 1] == opening(open)[1]);
    assert(parse::opens_at(s, n));
    assert(text_laws::stands_in(s, written(behind), n + 2));
    lemma_passed_over(s, behind, false, mark, n + 2, 1);
}

proof fn lemma_top_shift(pre: Seq<char>, s: Seq<char>, mark: char, i: int, depth: nat)
    requires
        0 <= i,
    ensures
        parse::top_level_from(pre + s, mark, pre.len() + i, depth) == (match parse::top_level_from(
            s,
            mark,
            i,
            depth,
        ) {
            Some(k) => Some(pre.len() + k),
            None => None,
        }),
    decreases s.len() - i,
{
    let t = pre + s;
    let n = pre.len();
    if i < s.len() {
        assert(t[n + i] == s[i]);
        if i + 1 < s.len() {
            assert(t[n + i + 1] == s[i + 1]);
        }
        assert(parse::opens_at(t, n + i) == parse::opens_at(s, i));
        assert(parse::closes_at(t, n + i) == parse::closes_at(s, i));
        if parse::opens_at(s, i) {
            lemma_top_shift(pre, s, mark, i + 2, depth + 1);
        } else if parse::closes_at(s, i) {
            if depth > 0 {
                lemma_top_shift(pre, s, mark, i + 2, (depth - 1) as nat);
            } else {
                lemma_top_shift(pre, s, mark, i + 2, 0);
            }
        } else {
            lemma_top_shift(pre, s, mark, i + 1, depth);
        }
    }
}

proof fn lemma_params_shift(pre: Seq<char>, s: Seq<char>, i: int)
    requires
        0 <= i <= s.len(),
    ensures
        parse::params_from(pre + s, pre.len() + i) == parse::params_from(s, i),
    decreases s.len() - i,
{
    let t = pre + s;
    let n = pre.len();
    lemma_top_shift(pre, s, '|', i, 0);
    parse::lemma_top_level_from(s, '|', i, 0);
    match parse::top_level_from(s, '|', i, 0) {
        Some(k) => {
            lemma_params_shift(pre, s, k + 1);
            assert(t.subrange(n + i, n + k) =~= s.subrange(i, k));
        },
        None => {
            assert(t.skip(n + i) =~= s.skip(i));
        },
    }
}

/// The parameters of a body are what stands between its bars, those within pairs
/// left out.
pub proof fn params_are_split_outside_of_pairs(t: Wikitext, after: Seq<char>)
    requires
        is_sound(t, true),
        !stands_outside(t, '|'),
    ensures
        parse::params_of(written(t)) == seq![written(t)],
        parse::params_of(written(t) + seq!['|'] + after) == seq![written(t)] + parse::params_of(
            after,
        ),
{
    let n = written(t).len() as int;
    let pre = written(t) + seq!['|'];
    let s = pre + after;
    marks_within_pairs_are_not_found(t, '|');
    assert(written(t).skip(0) =~= written(t));
    marks_are_found_outside_of_pairs(t, '|', after);
    lemma_params_shift(pre, after, 0);
    assert(s.subrange(0, n) =~= written(t));
}

/// A name ends at the first equals sign, those within pairs left out, and without
/// such a sign there is none.
pub proof fn names_end_outside_of_pairs(t: Wikitext, value: Seq<char>)
    requires
        is_sound(t, true),
        !stands_outside(t, '='),
    ensures
        parse::named(written(t)) is None,
        parse::named(written(t) + seq!['='] + value) == Some((text::trimmed(written(t)), value)),
{
    let n = written(t).len() as int;
    let s = written(t) + seq!['='] + value;
    marks_within_pairs_are_not_found(t, '=');
    marks_are_found_outside_of_pairs(t, '=', value);
    assert(s.take(n) =~= written(t));
    assert(s.skip(n + 1) =~= value);
}

/// A text of plain characters in front of another.
pub open spec fn plain_before(s: Seq<char>, rest: Wikitext) -> Wikitext
    decreases s.len(),
{
    if s.len() == 0 {
        rest
    } else {
        Wikitext::Plain(s[0], Box::new(plain_before(s.skip(1), rest)))
    }
}

proof fn lemma_plain_before(s: Seq<char>, rest: Wikitext, outside: bool)
    requires
        parse_laws::is_plain(s),
        is_sound(rest, outside),
    ensures
        written(plain_before(s, rest)) == s + written(rest),
        is_sound(plain_before(s, rest), outside),
        stands_outside(plain_before(s, rest), '|') == stands_outside(rest, '|'),
        stands_outside(plain_before(s, rest), '=') == stands_outside(rest, '='),
    decreases s.len(),
{
    if s.len() > 0 {
        let behind = s.skip(1);
        assert(parse_laws::is_ordinary(s[0]));
        assert forall|i: int| 0 <= i < behind.len() implies parse_laws::is_ordinary(
            #[trigger] behind[i],
        ) by {
            assert(behind[i] == s[i + 1]);
        }
        lemma_plain_before(behind, rest, outside);
        assert(seq![s[0]] + (behind + written(rest)) =~= s + written(rest));
    } else {
        assert(s + written(rest) =~= written(rest));
    }
}

/// A link or a template in a text, with a mark between two plain texts in it.
pub open spec fn with_pair(
    a: Seq<char>,
    braces: bool,
    x: Seq<char>,
    mark: char,
    y: Seq<char>,
    b: Seq<char>,
) -> Seq<char> {
    a + opening(braces) + x + seq![mark] + y + closing(braces) + b
}

/// The bar and the equals sign of a link or a template split neither a body nor a
/// parameter, and what follows is split as ever.
pub proof fn links_and_templates_stay_whole(
    a: Seq<char>,
    braces: bool,
    x: Seq<char>,
    y: Seq<char>,
    b: Seq<char>,
    after: Seq<char>,
)
    requires
        parse_laws::is_plain(a),
        parse_laws::is_plain(x),
        parse_laws::is_plain(y),
        parse_laws::is_plain(b),
    ensures
        parse::params_of(with_pair(a, braces, x, '|', y, b)) == seq![
            with_pair(a, braces, x, '|', y, b),
        ],
        parse::params_of(with_pair(a, braces, x, '|', y, b) + seq!['|'] + after) == seq![
            with_pair(a, braces, x, '|', y, b),
        ] + parse::params_of(after),
        parse::named(with_pair(a, braces, x, '=', y, b)) is None,
        parse::named(with_pair(a, braces, x, '=', y, b) + seq!['='] + after) == Some(
            (text::trimmed(with_pair(a, braces, x, '=', y, b)), after),
        ),
{
    let bar = lemma_with_pair(a, braces, x, '|', y, b);
    params_are_split_outside_of_pairs(bar, after);
    let sign = lemma_with_pair(a, braces, x, '=', y, b);
    names_end_outside_of_pairs(sign, after);
}

proof fn lemma_with_pair(
    a: Seq<char>,
    braces: bool,
    x: Seq<char>,
    mark: char,
    y: Seq<char>,
    b: Seq<char>,
) -> (t: Wikitext)
    requires
        parse_laws::is_plain(a),
        parse_laws::is_plain(x),
        parse_laws::is_plain(y),
        parse_laws::is_plain(b),
        is_mark(mark),
    ensures
        written(t) == with_pair(a, braces, x, mark, y, b),
        is_sound(t, true),
        !stands_outside(t, '|'),
        !stands_outside(t, '='),
{
    let second = plain_before(y, Wikitext::End);
    lemma_plain_before(y, Wikitext::End, false);
    let marked = Wikitext::Plain(mark, Box::new(second));
    let inner = plain_before(x, marked);
    lemma_plain_before(x, marked, false);
    let last = plain_before(b, Wikitext::End);
    lemma_plain_before(b, Wikitext::End, true);
    let pair = Wikitext::Nested(braces, Box::new(inner), braces, Box::new(last));
    lemma_plain_before(a, pair, true);
    let t = plain_before(a, pair);
    assert(written(inner) =~= x + (seq![mark] + y));
    assert(written(last) =~= b);
    assert(written(pair) == opening(braces) + written(inner) + closing(braces) + written(last));
    assert(written(t) =~= with_pair(a, braces, x, mark, y, b));
    t
}

/// Whether a text nests braces only, brackets being characters like others, and
/// closes all it opens.
pub open spec fn nests_braces(t: Wikitext) -> bool
    decreases t,
{
    match t {
        Wikitext::End => true,
        Wikitext::Plain(c, rest) => nests_braces(*rest) && (is_brace(c) ==> starts_otherwise(
            written(*rest),
            c,
        )),
        Wikitext::Nested(open, inner, close, rest) => open && close && nests_braces(*inner)
            && nests_braces(*rest),
        Wikitext::Stray(..) => false,
    }
}

proof fn lemma_nested_braces(s: Seq<char>, t: Wikitext, i: int, depth: nat)
    requires
        text_laws::stands_in(s, written(t), i),
        nests_braces(t),
        depth > 0,
    ensures
        parse::close_from(s, i, depth) == parse::close_from(s, i + written(t).len(), depth),
    decreases t,
{
    match t {
        Wikitext::End => {},
        Wikitext::Plain(c, rest) => {
            let behind = written(*rest);
            lemma_stands_apart(s, seq![c], behind, i);
            assert(seq![c][0] == s[i + 0]);
            if is_brace(c) {
                assert(behind[0] == s[i + 1 + 0]);
            }
            lemma_nested_braces(s, *rest, i + 1, depth);
        },
        Wikitext::Nested(open, inner, close, rest) => {
            let first = opening(open);
            let within = written(*inner);
            let last = closing(close);
            let behind = written(*rest);
            lemma_stands_apart(s, first + within + last, behind, i);
            lemma_stands_apart(s, first + within, last, i);
            lemma_stands_apart(s, first, within, i);
            assert(first[0] == s[i + 0] && first[1] == s[i + 1]);
            let j = i + 2;
            let k = j + within.len();
            assert(last[0] == s[k + 0] && last[1] == s[k + 1]);
            lemma_nested_braces(s, *inner, j, depth + 1);
            lemma_nested_braces(s, *rest, k + 2, depth);
            assert(written(t).len() == 2 + within.len() + 2 + behind.len());
        },
        Wikitext::Stray(..) => {},
    }
}

/// A template ends at the braces that close it: those of the templates in it are
/// passed over, and so are brackets.
pub proof fn templates_end_at_their_own_braces(before: Seq<char>, t: Wikitext, after: Seq<char>)
    requires
        nests_braces(t),
    ensures
        parse::end_of_template(
            before + opening(true) + written(t) + closing(true) + after,
            before.len() as int,
        ) == Some((before.len() + written(t).len() + 4) as int),
        parse::end_of_template(before + opening(true) + written(t), before.len() as int) is None,
{
    let n = before.len() as int;
    let m = n + 2 + written(t).len();
    let s = before + opening(true) + written(t) + closing(true) + after;
    assert(text_laws::stands_in(s, written(t), n + 2));
    lemma_nested_braces(s, t, n + 2, 1);
    assert(s[m] == '}' && s[m + 1] == '}');
    let open = before + opening(true) + written(t);
    assert(text_laws::stands_in(open, written(t), n + 2));
    lemma_nested_braces(open, t, n + 2, 1);
}

/// A parameter without a name gets the number behind the last one without a name.
pub proof fn unnamed_params_are_counted(params: Seq<Seq<char>>, param: Seq<char>)
    ensures
        parse::unnamed_count(seq![]) == 0,
        parse::named(param) is None ==> parse::unnamed_count(params.push(param))
            == parse::unnamed_count(params) + 1,
        parse::named(param) is Some ==> parse::unnamed_count(params.push(param))
            == parse::unnamed_count(params),
{
    assert(params.push(param).drop_last() =~= params);
}

/// A parameter without a name sets the position by its number among those without
/// a name, and leaves every other position.
pub proof fn unnamed_params_set_their_position(
    params: Seq<Seq<char>>,
    param: Seq<char>,
    k: nat,
)
    requires
        parse::named(param) is None,
    ensures
        parse::positional_value(params.push(param), parse::unnamed_count(params) + 1) == Some(
            text::trimmed(param),
        ),
        k != parse::unnamed_count(params) + 1 ==> parse::positional_value(params.push(param), k)
            == parse::positional_value(params, k),
        parse::positional_value(seq![], k) is None,
{
    assert(params.push(param).drop_last() =~= params);
}

/// A parameter whose name is a number sets the position of that number, also
/// where it has been set before. One with any other name sets none.
pub proof fn named_params_set_their_position(
    params: Seq<Seq<char>>,
    param: Seq<char>,
    name: Seq<char>,
    value: Seq<char>,
    k: nat,
)
    requires
        parse::named(param) == Some((name, value)),
    ensures
        crate::number::parsed(name, usize::MAX as nat) == Some(k) ==> parse::positional_value(
            params.push(param),
            k,
        ) == Some(text::trimmed(value)),
        crate::number::parsed(name, usize::MAX as nat) != Some(k) ==> parse::positional_value(
            params.push(param),
            k,
        ) == parse::positional_value(params, k),
{
    assert(params.push(param).drop_last() =~= params);
}

/// The target in two positions, where both hold a text that is not empty.
pub open spec fn target_in(params: Seq<Seq<char>>, lang: nat, title: nat) -> Seq<TargetView> {
    match (parse::positional_value(params, lang), parse::positional_value(params, title)) {
        (Some(a), Some(b)) => if a.len() > 0 && b.len() > 0 {
            seq![TargetView { lang: a, title: b }]
        } else {
            seq![]
        },
        _ => seq![],
    }
}

/// Targets are in the positions behind the title, a language and a title each, at
/// most four of them, in this order. A pair that is not filled is left out.
pub proof fn targets_follow_the_title(params: Seq<Seq<char>>)
    ensures
        parse::targets_of(params, 1) == target_in(params, 2, 3),
        parse::targets_of(params, 4) == target_in(params, 2, 3) + target_in(params, 4, 5)
            + target_in(params, 6, 7) + target_in(params, 8, 9),
{
    assert(parse::targets_of(params, 0) =~= seq![]);
    assert(parse::targets_of(params, 1) =~= target_in(params, 2, 3));
    assert(parse::targets_of(params, 2) =~= target_in(params, 2, 3) + target_in(params, 4, 5));
    assert(parse::targets_of(params, 3) =~= target_in(params, 2, 3) + target_in(params, 4, 5)
        + target_in(params, 6, 7));
    assert(parse::targets_of(params, 4) =~= target_in(params, 2, 3) + target_in(params, 4, 5)
        + target_in(params, 6, 7) + target_in(params, 8, 9));
}

/// The templates that make interlanguage links, by name.
pub proof fn interlanguage_link_templates(name: Seq<char>)
    ensures
        parse::is_ill_template(name) == (name == "仮リンク"@ || name == "Ill"@ || name == "Ill2"@
            || name == "Illm"@ || name == "Link-interwiki"@ || name == "Interlanguage link"@
            || name == "Interlanguage link multi"@),
        parse::pairs_of(name) == (if name == "Illm"@ || name == "Interlanguage link multi"@ {
            1nat
        } else {
            4
        }),
{
}

/// A template with these parts is a call where it makes interlanguage links, its
/// first position is filled and a target is. The call is all of the template, with
/// the first position as its title.
pub proof fn a_call_is_read_from_its_parts(raw: Seq<char>, body: Seq<char>, parts: Seq<Seq<char>>)
    requires
        raw == opening(true) + body + closing(true),
        parts == parse::params_of(body),
    ensures
        ({
            let name = parse::normalized_name(parts[0]);
            let params = parts.skip(1);
            let ja_title = parse::positional_value(params, 1);
            let first = target_in(params, 2, 3);
            let targets = if name == "Illm"@ || name == "Interlanguage link multi"@ {
                first
            } else {
                first + target_in(params, 4, 5) + target_in(params, 6, 7) + target_in(params, 8, 9)
            };
            if parse::is_ill_template(name) && targets.len() > 0 && ja_title is Some
                && ja_title->0.len() > 0 {
                parse::call_of(raw) == Some(CallView { raw, ja_title: ja_title->0, targets })
            } else {
                parse::call_of(raw) is None
            }
        }),
{
    assert(raw.subrange(2, raw.len() - 2) =~= body);
    targets_follow_the_title(parts.skip(1));
    interlanguage_link_templates(parse::normalized_name(parts[0]));
}

/// Calls are looked for from the next character on where no template starts, where
/// one starts that nothing ends, and where one is no call: there may be calls in
/// it.
pub proof fn calls_are_looked_for_everywhere(s: Seq<char>)
    requires
        s.len() > 0,
        ({
            ||| s.len() < 2
            ||| s[0] != '{'
            ||| s[1] != '{'
            ||| parse::end_of_template(s, 0) is None
            ||| parse::call_of(s.take(parse::end_of_template(s, 0)->0)) is None
        }),
    ensures
        parse::calls_in(s) == parse::calls_in(s.skip(1)),
{
    if let Some(end) = parse::end_of_template(s, 0) {
        parse::lemma_close_from(s, 2, 1);
        assert(s.subrange(0, end) =~= s.take(end));
    }
    parse_laws::other_templates_are_descended_into(s);
}

/// Behind a call the search goes on, however it was written.
pub proof fn calls_follow_each_other(t: Wikitext, after: Seq<char>)
    requires
        nests_braces(t),
        parse::call_of(opening(true) + written(t) + closing(true)) is Some,
    ensures
        parse::calls_in(opening(true) + written(t) + closing(true) + after) == seq![
            parse::call_of(opening(true) + written(t) + closing(true))->0,
        ] + parse::calls_in(after),
{
    let none = Seq::<char>::empty();
    let raw = opening(true) + written(t) + closing(true);
    templates_end_at_their_own_braces(none, t, none);
    assert(none + opening(true) + written(t) + closing(true) + none =~= raw);
    assert(raw[raw.len() - 2] == '}' && raw[raw.len() - 1] == '}');
    parse_laws::a_whole_call_is_found_first(none, raw, after);
    assert(none + raw + after =~= raw + after);
}

proof fn lemma_trimmed_within(before: Seq<char>, s: Seq<char>, after: Seq<char>)
    requires
        forall|i: int| 0 <= i < before.len() ==> text::is_white_space(#[trigger] before[i]),
        forall|i: int| 0 <= i < after.len() ==> text::is_white_space(#[trigger] after[i]),
    ensures
        text::trimmed(before + s + after) == text::trimmed(s),
{
    let (front, back) = text_laws::trimming_leaves_white_space_only(s);
    let core = text::trimmed(s);
    text::trimmed_has_no_outer_white_space(s);
    let a = before + front;
    let b = back + after;
    assert forall|i: int| 0 <= i < a.len() implies text::is_white_space(#[trigger] a[i]) by {
        if i < before.len() {
            assert(a[i] == before[i]);
        } else {
            assert(a[i] == front[i - before.len()]);
        }
    }
    assert forall|i: int| 0 <= i < b.len() implies text::is_white_space(#[trigger] b[i]) by {
        if i < back.len() {
            assert(b[i] == back[i]);
        } else {
            assert(b[i] == after[i - back.len()]);
        }
    }
    text_laws::trimming_takes_outer_white_space(a, core, b);
    assert(before + s + after =~= a + core + b);
}

/// White space around a name says nothing.
pub proof fn names_ignore_outer_white_space(before: Seq<char>, name: Seq<char>, after: Seq<char>)
    requires
        forall|i: int| 0 <= i < before.len() ==> text::is_white_space(#[trigger] before[i]),
        forall|i: int| 0 <= i < after.len() ==> text::is_white_space(#[trigger] after[i]),
    ensures
        parse::normalized_name(before + name + after) == parse::normalized_name(name),
{
    lemma_trimmed_within(before, name, after);
}

/// A colon in front of a name says nothing.
pub proof fn names_ignore_leading_colons(name: Seq<char>)
    requires
        parse_laws::is_proper(name),
    ensures
        parse::normalized_name(seq![':'] + name) == parse::normalized_name(name),
{
    let s = seq![':'] + name;
    text::nothing_to_trim(name);
    assert(s.last() == name.last());
    assert(s[0] == ':');
    assert(!text::is_white_space(':'));
    text::nothing_to_trim(s);
    assert(s.skip(1) =~= name);
}

/// Whether a text starts with the name of the namespace of templates, in any case.
pub open spec fn names_namespace(s: Seq<char>) -> bool {
    starts_alike(s, seq!['T', 'e', 'm', 'p', 'l', 'a', 't', 'e', ':']) || starts_alike(
        s,
        seq!['テ', 'ン', 'プ', 'レ', 'ー', 'ト', ':'],
    )
}

/// Whether a text starts with another up to ASCII case.
pub open spec fn starts_alike(s: Seq<char>, prefix: Seq<char>) -> bool {
    &&& prefix.len() <= s.len()
    &&& forall|k: int| 0 <= k < prefix.len() ==> text_laws::alike(#[trigger] prefix[k], s[k])
}

proof fn lemma_has_prefix(s: Seq<char>, prefix: Seq<char>)
    ensures
        parse::has_prefix(s, prefix) == starts_alike(s, prefix),
{
    if prefix.len() <= s.len() {
        let front = s.take(prefix.len() as int);
        text_laws::same_text_up_to_case(front, prefix);
        if starts_alike(s, prefix) {
            assert forall|k: int| 0 <= k < prefix.len() implies text_laws::alike(
                #[trigger] front[k],
                prefix[k],
            ) by {
                assert(text_laws::alike(prefix[k], s[k]));
            }
        }
        if parse::has_prefix(s, prefix) {
            assert forall|k: int| 0 <= k < prefix.len() implies text_laws::alike(
                #[trigger] prefix[k],
                s[k],
            ) by {
                assert(text_laws::alike(front[k], prefix[k]));
            }
        }
    }
}

proof fn lemma_namespaces()
    ensures
        "Template:"@ == seq!['T', 'e', 'm', 'p', 'l', 'a', 't', 'e', ':'],
        "テンプレート:"@ == seq!['テ', 'ン', 'プ', 'レ', 'ー', 'ト', ':'],
{
    reveal_strlit("Template:");
    reveal_strlit("テンプレート:");
    assert("Template:"@ =~= seq!['T', 'e', 'm', 'p', 'l', 'a', 't', 'e', ':']);
    assert("テンプレート:"@ =~= seq!['テ', 'ン', 'プ', 'レ', 'ー', 'ト', ':']);
}

/// What is left of a name without white space around it, colon or namespace:
/// underscores are spaces, and the first letter is a capital.
pub open spec fn plain_name(name: Seq<char>) -> Seq<char> {
    text::capitalized(
        text::trimmed(
            name.map_values(
                |c: char|
                    if c == '_' {
                        ' '
                    } else {
                        c
                    },
            ),
        ),
    )
}

/// A name without a namespace is the name with its underscores turned into spaces
/// and its first letter into a capital.
pub proof fn names_without_a_namespace(name: Seq<char>)
    requires
        parse_laws::is_proper(name),
        name[0] != ':',
        !names_namespace(name),
    ensures
        parse::normalized_name(name) == plain_name(name),
{
    lemma_namespaces();
    lemma_has_prefix(name, "Template:"@);
    lemma_has_prefix(name, "テンプレート:"@);
    text::nothing_to_trim(name);
    lemma_underscores(name);
}

proof fn lemma_underscores(name: Seq<char>)
    ensures
        text::replace_char(name, '_', ' ') == name.map_values(
            |c: char|
                if c == '_' {
                    ' '
                } else {
                    c
                },
        ),
{
    let spaced = name.map_values(
        |c: char|
            if c == '_' {
                ' '
            } else {
                c
            },
    );
    let replaced = text::replace_char(name, '_', ' ');
    assert(replaced.len() == name.len()) by {
        text_laws::replacing_a_character(name, '_', ' ', 0);
    }
    assert forall|i: int| 0 <= i < name.len() implies replaced[i] == spaced[i] by {
        text_laws::replacing_a_character(name, '_', ' ', i);
    }
    assert(replaced =~= spaced);
}

proof fn lemma_letter_t(c: char)
    requires
        text_laws::alike('T', c),
    ensures
        c == 'T' || c == 't',
{
}

/// A namespace in front of a name says nothing, in whatever case it is written and
/// whatever space follows it.
pub proof fn namespaces_of_names_are_taken_off(
    namespace: Seq<char>,
    gap: Seq<char>,
    name: Seq<char>,
)
    requires
        namespace.len() == 9 && starts_alike(
            namespace,
            seq!['T', 'e', 'm', 'p', 'l', 'a', 't', 'e', ':'],
        ) || namespace == seq!['テ', 'ン', 'プ', 'レ', 'ー', 'ト', ':'],
        forall|i: int| 0 <= i < gap.len() ==> text::is_white_space(#[trigger] gap[i]),
        parse_laws::is_proper(name),
    ensures
        parse::normalized_name(namespace + gap + name) == plain_name(name),
{
    lemma_namespaces();
    let whole = namespace + gap + name;
    let latin = seq!['T', 'e', 'm', 'p', 'l', 'a', 't', 'e', ':'];
    let kana = seq!['テ', 'ン', 'プ', 'レ', 'ー', 'ト', ':'];
    let n = namespace.len() as int;
    assert(whole[0] == namespace[0]);
    assert(whole.last() == name.last());
    if namespace == kana {
        assert(whole[0] == 'テ');
        assert(!text_laws::alike(latin[0], 'テ'));
        assert(!starts_alike(whole, latin)) by {
            if starts_alike(whole, latin) {
                assert(text_laws::alike(latin[0], whole[0]));
            }
        }
        assert(starts_alike(whole, kana)) by {
            assert forall|k: int| 0 <= k < kana.len() implies text_laws::alike(
                #[trigger] kana[k],
                whole[k],
            ) by {
                assert(whole[k] == namespace[k]);
            }
        }
    } else {
        assert(text_laws::alike(latin[0], namespace[0]));
        lemma_letter_t(namespace[0]);
        assert(starts_alike(whole, latin)) by {
            assert forall|k: int| 0 <= k < latin.len() implies text_laws::alike(
                #[trigger] latin[k],
                whole[k],
            ) by {
                assert(text_laws::alike(latin[k], namespace[k]));
                assert(whole[k] == namespace[k]);
            }
        }
    }
    assert(!text::is_white_space(whole[0]));
    text::nothing_to_trim(whole);
    assert(whole[0] != ':');
    lemma_has_prefix(whole, "Template:"@);
    lemma_has_prefix(whole, "テンプレート:"@);
    assert(whole.skip(n) =~= gap + name + Seq::<char>::empty());
    lemma_trimmed_within(gap, name, Seq::empty());
    text::nothing_to_trim(name);
    lemma_underscores(name);
}

} // verus!
