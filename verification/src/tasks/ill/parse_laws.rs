//! What holds of the calls that the parser finds, whatever the wikitext.

use vstd::prelude::*;

use crate::tasks::ill::parse;
use crate::tasks::ill::parse::{CallView, TargetView, PAIRS};
use crate::text;

verus! {

/// Whether a text has something to say and no white space around it.
pub open spec fn is_proper(text: Seq<char>) -> bool {
    text.len() > 0 && !text::is_white_space(text[0]) && !text::is_white_space(text.last())
}

/// Whether a call is enclosed in braces, names an article, and has one to four
/// targets with a language and a title each.
pub open spec fn is_well_formed(call: CallView) -> bool {
    &&& parse::is_braced(call.raw)
    &&& is_proper(call.ja_title)
    &&& 1 <= call.targets.len() <= PAIRS
    &&& forall|k: int|
        0 <= k < call.targets.len() ==> is_proper((#[trigger] call.targets[k]).lang) && is_proper(
            call.targets[k].title,
        )
}

/// Whether each call stands in `s` at its place in `starts`, after the end of
/// the call before it.
pub open spec fn stand_in_order(s: Seq<char>, calls: Seq<CallView>, starts: Seq<int>) -> bool {
    &&& starts.len() == calls.len()
    &&& forall|k: int|
        0 <= k < calls.len() ==> text::occurs_at(
            s,
            (#[trigger] calls[k]).raw,
            starts[k],
        )
    &&& forall|j: int, k: int|
        0 <= j < k < calls.len() ==> (#[trigger] starts[j]) + calls[j].raw.len()
            <= #[trigger] starts[k]
}

proof fn lemma_filled_is_proper(params: Seq<Seq<char>>, k: nat)
    ensures
        match parse::filled(params, k) {
            Some(v) => is_proper(v),
            None => true,
        },
    decreases params.len(),
{
    if params.len() > 0 {
        if parse::last_index(params) == Some(k) {
            text::trimmed_has_no_outer_white_space(parse::param_value(params.last()));
        } else {
            lemma_filled_is_proper(params.drop_last(), k);
            assert(parse::filled(params, k) == parse::filled(params.drop_last(), k));
        }
    }
}

proof fn lemma_targets_are_proper(params: Seq<Seq<char>>, n: nat)
    ensures
        parse::targets_of(params, n).len() <= n,
        forall|k: int|
            0 <= k < parse::targets_of(params, n).len() ==> is_proper(
                (#[trigger] parse::targets_of(params, n)[k]).lang,
            ) && is_proper(parse::targets_of(params, n)[k].title),
    decreases n,
{
    if n > 0 {
        lemma_targets_are_proper(params, (n - 1) as nat);
        lemma_filled_is_proper(params, (2 * (n - 1) + 2) as nat);
        lemma_filled_is_proper(params, (2 * (n - 1) + 3) as nat);
    }
}

proof fn lemma_call_at_shape(s: Seq<char>, i: int)
    requires
        0 <= i,
    ensures
        match parse::call_at(s, i) {
            Some((call, end)) => {
                &&& i + 4 <= end <= s.len()
                &&& call.raw == s.subrange(i, end)
                &&& is_well_formed(call)
            },
            None => true,
        },
{
    if let Some((call, end)) = parse::call_at(s, i) {
        parse::lemma_close_from(s, i + 2, 1);
        let raw = s.subrange(i, end);
        assert(raw[raw.len() - 2] == s[end - 2]);
        assert(raw[raw.len() - 1] == s[end - 1]);
        assert(raw[0] == s[i] && raw[1] == s[i + 1]);
        let parts = parse::params_of(raw.subrange(2, raw.len() - 2));
        lemma_filled_is_proper(parts.skip(1), 1);
        lemma_targets_are_proper(parts.skip(1), parse::pairs_of(parse::normalized_name(parts[0])));
    }
}

proof fn lemma_calls_from_in_order(s: Seq<char>, i: int) -> (starts: Seq<int>)
    requires
        0 <= i,
    ensures
        stand_in_order(s, parse::calls_from(s, i), starts),
        forall|k: int| 0 <= k < starts.len() ==> i <= #[trigger] starts[k],
        forall|k: int|
            0 <= k < parse::calls_from(s, i).len() ==> is_well_formed(#[trigger] parse::calls_from(s, i)[k]),
    decreases s.len() - i,
{
    if i + 1 >= s.len() {
        Seq::empty()
    } else {
        lemma_call_at_shape(s, i);
        match parse::call_at(s, i) {
            Some((call, end)) => {
                let rest = lemma_calls_from_in_order(s, end);
                let starts = seq![i] + rest;
                let calls = parse::calls_from(s, i);
                let later = parse::calls_from(s, end);
                assert(calls =~= seq![call] + later);
                assert forall|k: int| 0 <= k < calls.len() implies text::occurs_at(
                    s,
                    (#[trigger] calls[k]).raw,
                    starts[k],
                ) && is_well_formed(calls[k]) by {
                    if k > 0 {
                        assert(calls[k] == later[k - 1]);
                        assert(starts[k] == rest[k - 1]);
                    }
                }
                assert forall|j: int, k: int| 0 <= j < k < calls.len() implies (
                #[trigger] starts[j]) + calls[j].raw.len() <= #[trigger] starts[k] by {
                    assert(starts[k] == rest[k - 1]);
                    if j > 0 {
                        assert(calls[j] == later[j - 1]);
                        assert(starts[j] == rest[j - 1]);
                    }
                }
                starts
            },
            None => lemma_calls_from_in_order(s, i + 1),
        }
    }
}

/// Every call found is well formed, and the calls stand in the wikitext
/// exactly as written, in order and without overlap.
pub proof fn found_calls_stand_in_the_text(s: Seq<char>)
    ensures
        forall|k: int| 0 <= k < parse::calls_in(s).len() ==> is_well_formed(#[trigger] parse::calls_in(s)[k]),
        exists|starts: Seq<int>| stand_in_order(s, parse::calls_in(s), starts),
{
    let starts = lemma_calls_from_in_order(s, 0);
    assert(stand_in_order(s, parse::calls_in(s), starts));
}

proof fn lemma_nothing_without_opening(s: Seq<char>, i: int)
    requires
        0 <= i,
        forall|j: int| i <= j ==> !parse::pair_at(s, j, '{', '{'),
    ensures
        parse::calls_from(s, i).len() == 0,
    decreases s.len() - i,
{
    if i + 1 < s.len() {
        lemma_nothing_without_opening(s, i + 1);
    }
}

/// Wikitext without an opening `{{` has no calls.
pub proof fn no_opening_no_calls(s: Seq<char>)
    requires
        !text::occurs(s, seq!['{', '{']),
    ensures
        parse::calls_in(s).len() == 0,
{
    assert forall|j: int| 0 <= j implies !parse::pair_at(s, j, '{', '{') by {
        if parse::pair_at(s, j, '{', '{') {
            assert(s.subrange(j, j + 2) =~= seq!['{', '{']);
            assert(text::occurs_at(s, seq!['{', '{'], j));
        }
    }
    lemma_nothing_without_opening(s, 0);
}

proof fn lemma_no_end_without_closing(s: Seq<char>, i: int, depth: nat)
    requires
        0 <= i,
        forall|j: int| 0 <= j ==> !parse::pair_at(s, j, '}', '}'),
    ensures
        parse::close_from(s, i, depth) is None,
    decreases s.len() - i,
{
    if i + 1 < s.len() {
        if parse::pair_at(s, i, '{', '{') {
            lemma_no_end_without_closing(s, i + 2, depth + 1);
        } else {
            lemma_no_end_without_closing(s, i + 1, depth);
        }
    }
}

proof fn lemma_nothing_without_closing(s: Seq<char>, i: int)
    requires
        0 <= i,
        forall|j: int| 0 <= j ==> !parse::pair_at(s, j, '}', '}'),
    ensures
        parse::calls_from(s, i).len() == 0,
    decreases s.len() - i,
{
    if i + 1 < s.len() {
        lemma_no_end_without_closing(s, i + 2, 1);
        lemma_nothing_without_closing(s, i + 1);
    }
}

/// Wikitext without a closing `}}` has no calls: an unterminated template is
/// none.
pub proof fn no_closing_no_calls(s: Seq<char>)
    requires
        !text::occurs(s, seq!['}', '}']),
    ensures
        parse::calls_in(s).len() == 0,
{
    assert forall|j: int| 0 <= j implies !parse::pair_at(s, j, '}', '}') by {
        if parse::pair_at(s, j, '}', '}') {
            assert(s.subrange(j, j + 2) =~= seq!['}', '}']);
            assert(text::occurs_at(s, seq!['}', '}'], j));
        }
    }
    lemma_nothing_without_closing(s, 0);
}

proof fn lemma_params_from_join(body: Seq<char>, start: int)
    requires
        0 <= start <= body.len(),
    ensures
        parse::params_from(body, start).len() > 0,
        text::join(parse::params_from(body, start), seq!['|']) == body.skip(start),
    decreases body.len() - start,
{
    parse::lemma_top_level_from(body, '|', start, 0);
    let params = parse::params_from(body, start);
    if let Some(k) = parse::top_level_from(body, '|', start, 0) {
        lemma_params_from_join(body, k + 1);
        assert(params.skip(1) =~= parse::params_from(body, k + 1));
        assert(body.skip(start) =~= body.subrange(start, k) + seq!['|'] + body.skip(k + 1));
    } else {
        assert(params =~= seq![body.skip(start)]);
    }
}

/// Splitting a body loses nothing: its parameters joined with `|` are the body.
pub proof fn joining_the_params_restores_the_body(body: Seq<char>)
    ensures
        text::join(parse::params_of(body), seq!['|']) == body,
{
    lemma_params_from_join(body, 0);
    assert(body.skip(0) =~= body);
}

/// A named parameter is a name, an equals sign and its value, in this order.
pub proof fn naming_splits_at_an_equals_sign(param: Seq<char>)
    ensures
        match parse::named(param) {
            Some((name, value)) => exists|before: Seq<char>|
                param == #[trigger] (before + seq!['=']) + value && name == text::trimmed(before),
            None => true,
        },
{
    parse::lemma_top_level_from(param, '=', 0, 0);
    if let Some(k) = parse::top_level_from(param, '=', 0, 0) {
        let before = param.take(k);
        assert(param =~= (before + seq!['=']) + param.skip(k + 1));
    }
}

proof fn lemma_close_shift(pre: Seq<char>, s: Seq<char>, i: int, depth: nat)
    requires
        0 <= i,
    ensures
        parse::close_from(pre + s, pre.len() + i, depth) == (match parse::close_from(s, i, depth) {
            Some(end) => Some(pre.len() + end),
            None => None,
        }),
    decreases s.len() - i,
{
    let t = pre + s;
    let n = pre.len();
    if i + 1 < s.len() {
        assert(t[n + i] == s[i] && t[n + i + 1] == s[i + 1]);
        if parse::pair_at(s, i, '{', '{') {
            lemma_close_shift(pre, s, i + 2, depth + 1);
        } else if parse::pair_at(s, i, '}', '}') {
            if depth > 1 {
                lemma_close_shift(pre, s, i + 2, (depth - 1) as nat);
            }
        } else {
            lemma_close_shift(pre, s, i + 1, depth);
        }
    }
}

proof fn lemma_calls_shift(pre: Seq<char>, s: Seq<char>, i: int)
    requires
        0 <= i,
    ensures
        parse::calls_from(pre + s, pre.len() + i) == parse::calls_from(s, i),
    decreases s.len() - i,
{
    let t = pre + s;
    let n = pre.len();
    if i + 1 < s.len() {
        assert(t[n + i] == s[i] && t[n + i + 1] == s[i + 1]);
        lemma_close_shift(pre, s, i + 2, 1);
        lemma_call_at_shape(s, i);
        if let Some(end) = parse::end_of_template(s, i) {
            parse::lemma_close_from(s, i + 2, 1);
            assert(t.subrange(n + i, n + end) =~= s.subrange(i, end));
        }
        match parse::call_at(s, i) {
            Some((call, end)) => {
                lemma_calls_shift(pre, s, end);
                assert(parse::call_at(t, n + i) == Some((call, n + end)));
            },
            None => {
                lemma_calls_shift(pre, s, i + 1);
                assert(parse::call_at(t, n + i) is None);
            },
        }
    }
}

proof fn lemma_calls_after_plain(pre: Seq<char>, s: Seq<char>, i: int)
    requires
        0 <= i <= pre.len(),
        forall|j: int| i <= j < pre.len() ==> #[trigger] pre[j] != '{',
    ensures
        parse::calls_from(pre + s, i) == parse::calls_from(s, 0),
    decreases pre.len() - i,
{
    if i == pre.len() {
        lemma_calls_shift(pre, s, 0);
    } else {
        let t = pre + s;
        assert(t[i] == pre[i]);
        lemma_calls_after_plain(pre, s, i + 1);
        if i + 1 >= t.len() {
            assert(parse::calls_from(t, i + 1) == parse::calls_from(t, i));
        }
    }
}

/// Text without an opening brace in front of a wikitext adds no call and hides
/// none.
pub proof fn plain_text_in_front_changes_no_call(pre: Seq<char>, s: Seq<char>)
    requires
        !pre.contains('{'),
    ensures
        parse::calls_in(pre + s) == parse::calls_in(s),
{
    assert forall|j: int| 0 <= j < pre.len() implies #[trigger] pre[j] != '{' by {
        assert(pre.contains(pre[j]));
    }
    lemma_calls_after_plain(pre, s, 0);
}

proof fn lemma_close_ignores_the_rest(s: Seq<char>, post: Seq<char>, i: int, depth: nat)
    requires
        0 <= i,
        parse::close_from(s, i, depth) is Some,
    ensures
        parse::close_from(s + post, i, depth) == parse::close_from(s, i, depth),
    decreases s.len() - i,
{
    let t = s + post;
    if i + 1 < s.len() {
        assert(t[i] == s[i] && t[i + 1] == s[i + 1]);
        if parse::pair_at(s, i, '{', '{') {
            lemma_close_ignores_the_rest(s, post, i + 2, depth + 1);
        } else if parse::pair_at(s, i, '}', '}') {
            if depth > 1 {
                lemma_close_ignores_the_rest(s, post, i + 2, (depth - 1) as nat);
            }
        } else {
            lemma_close_ignores_the_rest(s, post, i + 1, depth);
        }
    }
}

/// A whole interlanguage link is found wherever it stands behind plain text,
/// and the calls behind it are found after it.
pub proof fn a_whole_call_is_found_first(pre: Seq<char>, raw: Seq<char>, post: Seq<char>)
    requires
        !pre.contains('{'),
        parse::is_braced(raw),
        parse::end_of_template(raw, 0) == Some(raw.len() as int),
        parse::call_of(raw) is Some,
    ensures
        parse::calls_in(pre + raw + post) == seq![parse::call_of(raw)->0] + parse::calls_in(post),
{
    let s = raw + post;
    assert(pre + raw + post =~= pre + s);
    plain_text_in_front_changes_no_call(pre, s);
    lemma_close_ignores_the_rest(raw, post, 2, 1);
    assert(s.subrange(0, raw.len() as int) =~= raw);
    assert(parse::call_at(s, 0) == Some((parse::call_of(raw)->0, raw.len() as int)));
    lemma_calls_shift(raw, post, 0);
}

proof fn lemma_no_end_behind(t: Seq<char>, i: int, depth: nat)
    requires
        0 <= i,
        forall|j: int|
            i <= j ==> !(#[trigger] parse::pair_at(t, j, '{', '{')) && !parse::pair_at(
                t,
                j,
                '}',
                '}',
            ),
    ensures
        parse::close_from(t, i, depth) is None,
    decreases t.len() - i,
{
    if i + 1 < t.len() {
        assert(!parse::pair_at(t, i, '{', '{'));
        lemma_no_end_behind(t, i + 1, depth);
    }
}

proof fn lemma_no_pair_behind(s: Seq<char>, post: Seq<char>)
    requires
        !post.contains('{'),
        !post.contains('}'),
    ensures
        forall|j: int|
            s.len() <= j + 1 ==> !(#[trigger] parse::pair_at(s + post, j, '{', '{'))
                && !parse::pair_at(s + post, j, '}', '}'),
{
    let t = s + post;
    assert forall|j: int| s.len() <= j + 1 implies !(#[trigger] parse::pair_at(t, j, '{', '{'))
        && !parse::pair_at(t, j, '}', '}') by {
        if 0 <= j && j + 1 < t.len() {
            assert(t[j + 1] == post[j + 1 - s.len()]);
            assert(post.contains(t[j + 1]));
        }
    }
}

proof fn lemma_close_before_plain(s: Seq<char>, post: Seq<char>, i: int, depth: nat)
    requires
        0 <= i,
        !post.contains('{'),
        !post.contains('}'),
    ensures
        parse::close_from(s + post, i, depth) == parse::close_from(s, i, depth),
    decreases s.len() - i,
{
    let t = s + post;
    if i + 1 < s.len() {
        assert(t[i] == s[i] && t[i + 1] == s[i + 1]);
        if parse::pair_at(s, i, '{', '{') {
            lemma_close_before_plain(s, post, i + 2, depth + 1);
        } else if parse::pair_at(s, i, '}', '}') {
            if depth > 1 {
                lemma_close_before_plain(s, post, i + 2, (depth - 1) as nat);
            }
        } else {
            lemma_close_before_plain(s, post, i + 1, depth);
        }
    } else {
        lemma_no_pair_behind(s, post);
        lemma_no_end_behind(t, i, depth);
    }
}

proof fn lemma_calls_before_plain(s: Seq<char>, post: Seq<char>, i: int)
    requires
        0 <= i,
        !post.contains('{'),
        !post.contains('}'),
    ensures
        parse::calls_from(s + post, i) == parse::calls_from(s, i),
    decreases s.len() - i,
{
    let t = s + post;
    if i + 1 < s.len() {
        assert(t[i] == s[i] && t[i + 1] == s[i + 1]);
        lemma_close_before_plain(s, post, i + 2, 1);
        lemma_call_at_shape(s, i);
        if let Some(end) = parse::end_of_template(s, i) {
            parse::lemma_close_from(s, i + 2, 1);
            assert(t.subrange(i, end) =~= s.subrange(i, end));
        }
        match parse::call_at(s, i) {
            Some((call, end)) => {
                lemma_calls_before_plain(s, post, end);
                assert(parse::call_at(t, i) == Some((call, end)));
            },
            None => {
                lemma_calls_before_plain(s, post, i + 1);
                assert(parse::call_at(t, i) is None);
            },
        }
    } else {
        lemma_no_pair_behind(s, post);
        lemma_nothing_without_opening(t, i);
        assert(parse::calls_from(t, i) =~= parse::calls_from(s, i));
    }
}

/// Text without braces behind a wikitext adds no call and changes none.
pub proof fn plain_text_behind_changes_no_call(s: Seq<char>, post: Seq<char>)
    requires
        !post.contains('{'),
        !post.contains('}'),
    ensures
        parse::calls_in(s + post) == parse::calls_in(s),
{
    lemma_calls_before_plain(s, post, 0);
}

proof fn lemma_close_within(s: Seq<char>, end: int, i: int, depth: nat)
    requires
        0 <= i,
        parse::close_from(s, i, depth) == Some(end),
    ensures
        parse::close_from(s.take(end), i, depth) == Some(end),
    decreases s.len() - i,
{
    parse::lemma_close_from(s, i, depth);
    let t = s.take(end);
    assert(t[i] == s[i] && t[i + 1] == s[i + 1]);
    if parse::pair_at(s, i, '{', '{') {
        lemma_close_within(s, end, i + 2, depth + 1);
    } else if parse::pair_at(s, i, '}', '}') {
        if depth > 1 {
            lemma_close_within(s, end, i + 2, (depth - 1) as nat);
        }
    } else {
        lemma_close_within(s, end, i + 1, depth);
    }
}

proof fn lemma_call_stands_alone(s: Seq<char>, i: int)
    requires
        0 <= i,
    ensures
        match parse::call_at(s, i) {
            Some((call, _)) => parse::calls_in(call.raw) == seq![call],
            None => true,
        },
{
    if let Some((call, end)) = parse::call_at(s, i) {
        let pre = s.take(i);
        let raw = s.subrange(i, end);
        lemma_call_at_shape(s, i);
        lemma_close_within(s, end, i + 2, 1);
        assert(s.take(end) =~= pre + raw);
        lemma_close_shift(pre, raw, 2, 1);
        a_whole_call_is_found_first(seq![], raw, seq![]);
        assert(Seq::<char>::empty() + raw + Seq::<char>::empty() =~= raw);
        assert(parse::calls_in(Seq::<char>::empty()) =~= seq![]);
        assert(seq![call] + Seq::<CallView>::empty() =~= seq![call]);
    }
}

proof fn lemma_calls_stand_alone(s: Seq<char>, i: int, k: int)
    requires
        0 <= i,
        0 <= k < parse::calls_from(s, i).len(),
    ensures
        parse::calls_in(parse::calls_from(s, i)[k].raw) == seq![parse::calls_from(s, i)[k]],
    decreases s.len() - i,
{
    lemma_call_at_shape(s, i);
    lemma_call_stands_alone(s, i);
    match parse::call_at(s, i) {
        Some((call, end)) => {
            if k > 0 {
                lemma_calls_stand_alone(s, end, k - 1);
                assert(parse::calls_from(s, i)[k] == parse::calls_from(s, end)[k - 1]);
            }
        },
        None => {
            lemma_calls_stand_alone(s, i + 1, k);
        },
    }
}

/// The text of a call that was found, read by itself, gives that call again and
/// no other.
pub proof fn a_found_call_is_found_again(s: Seq<char>, k: int)
    requires
        0 <= k < parse::calls_in(s).len(),
    ensures
        parse::calls_in(parse::calls_in(s)[k].raw) == seq![parse::calls_in(s)[k]],
{
    lemma_calls_stand_alone(s, 0, k);
}

proof fn lemma_no_mark_within(s: Seq<char>, mark: char, start: int, k: int, i: int, depth: nat)
    requires
        0 <= start <= i <= k,
        mark != '{' && mark != '}' && mark != '[' && mark != ']',
        parse::top_level_from(s, mark, i, depth) == Some(k),
    ensures
        parse::top_level_from(s.subrange(start, k), mark, i - start, depth) is None,
    decreases k - i,
{
    parse::lemma_top_level_from(s, mark, i, depth);
    let p = s.subrange(start, k);
    if i < k {
        assert(p[i - start] == s[i]);
        if i + 1 < k {
            assert(p[i + 1 - start] == s[i + 1]);
        }
        if parse::opens_at(s, i) {
            parse::lemma_top_level_from(s, mark, i + 2, depth + 1);
            lemma_no_mark_within(s, mark, start, k, i + 2, depth + 1);
        } else if parse::closes_at(s, i) {
            let less = if depth > 0 {
                (depth - 1) as nat
            } else {
                0
            };
            parse::lemma_top_level_from(s, mark, i + 2, less);
            lemma_no_mark_within(s, mark, start, k, i + 2, less);
        } else {
            lemma_no_mark_within(s, mark, start, k, i + 1, depth);
        }
    }
}

proof fn lemma_no_mark_behind(s: Seq<char>, mark: char, start: int, i: int, depth: nat)
    requires
        0 <= start <= s.len(),
        start <= i,
        parse::top_level_from(s, mark, i, depth) is None,
    ensures
        parse::top_level_from(s.skip(start), mark, i - start, depth) is None,
    decreases s.len() - i,
{
    let p = s.skip(start);
    if i < s.len() {
        assert(p[i - start] == s[i]);
        if i + 1 < s.len() {
            assert(p[i + 1 - start] == s[i + 1]);
        }
        if parse::opens_at(s, i) {
            lemma_no_mark_behind(s, mark, start, i + 2, depth + 1);
        } else if parse::closes_at(s, i) {
            let less = if depth > 0 {
                (depth - 1) as nat
            } else {
                0
            };
            lemma_no_mark_behind(s, mark, start, i + 2, less);
        } else {
            lemma_no_mark_behind(s, mark, start, i + 1, depth);
        }
    }
}

proof fn lemma_params_split_no_further(body: Seq<char>, start: int)
    requires
        0 <= start <= body.len(),
    ensures
        forall|k: int|
            0 <= k < parse::params_from(body, start).len() ==> parse::params_of(
                #[trigger] parse::params_from(body, start)[k],
            ) == seq![parse::params_from(body, start)[k]],
    decreases body.len() - start,
{
    parse::lemma_top_level_from(body, '|', start, 0);
    let params = parse::params_from(body, start);
    if let Some(k) = parse::top_level_from(body, '|', start, 0) {
        let first = body.subrange(start, k);
        let later = parse::params_from(body, k + 1);
        lemma_no_mark_within(body, '|', start, k, start, 0);
        assert(first.skip(0) =~= first);
        lemma_params_split_no_further(body, k + 1);
        assert(params =~= seq![first] + later);
        assert forall|j: int| 0 <= j < params.len() implies parse::params_of(#[trigger] params[j])
            == seq![params[j]] by {
            if j > 0 {
                assert(params[j] == later[j - 1]);
            }
        }
    } else {
        let last = body.skip(start);
        lemma_no_mark_behind(body, '|', start, start, 0);
        assert(last.skip(0) =~= last);
        assert(params =~= seq![last]);
    }
}

/// The parameters of a body hold no separator of their own: split again, each
/// is its only part.
pub proof fn params_split_no_further(body: Seq<char>, k: int)
    requires
        0 <= k < parse::params_of(body).len(),
    ensures
        parse::params_of(parse::params_of(body)[k]) == seq![parse::params_of(body)[k]],
{
    lemma_params_split_no_further(body, 0);
}

/// A template that is not an interlanguage link is descended into: what stands
/// behind its first brace is searched as if it stood alone.
pub proof fn other_templates_are_descended_into(s: Seq<char>)
    requires
        s.len() > 0,
        parse::call_at(s, 0) is None,
    ensures
        parse::calls_in(s) == parse::calls_in(s.skip(1)),
{
    let pre = s.take(1);
    let rest = s.skip(1);
    assert(s =~= pre + rest);
    lemma_calls_shift(pre, rest, 0);
    assert(parse::calls_from(s, 0) == parse::calls_from(s, 1));
}

/// Whether `c` has no meaning of its own in a template call.
pub open spec fn is_ordinary(c: char) -> bool {
    c != '{' && c != '}' && c != '[' && c != ']' && c != '|' && c != '='
}

/// Whether a text holds ordinary characters only.
pub open spec fn is_plain(text: Seq<char>) -> bool {
    forall|i: int| 0 <= i < text.len() ==> is_ordinary(#[trigger] text[i])
}

/// A template call with one language pair, as an editor writes it.
pub open spec fn written_call(
    name: Seq<char>,
    ja_title: Seq<char>,
    lang: Seq<char>,
    title: Seq<char>,
) -> Seq<char> {
    seq!['{', '{'] + name + seq!['|'] + ja_title + seq!['|'] + lang + seq!['|'] + title + seq![
        '}',
        '}',
    ]
}

proof fn lemma_close_skips_plain(s: Seq<char>, i: int, j: int, depth: nat)
    requires
        0 <= i <= j,
        j + 1 < s.len(),
        forall|k: int| i <= k < j ==> #[trigger] s[k] != '{' && s[k] != '}',
    ensures
        parse::close_from(s, i, depth) == parse::close_from(s, j, depth),
    decreases j - i,
{
    if i < j {
        lemma_close_skips_plain(s, i + 1, j, depth);
    }
}

proof fn lemma_top_level_skips_plain(s: Seq<char>, mark: char, i: int, j: int)
    requires
        0 <= i <= j <= s.len(),
        forall|k: int| i <= k < j ==> is_ordinary(#[trigger] s[k]) && s[k] != mark,
    ensures
        parse::top_level_from(s, mark, i, 0) == parse::top_level_from(s, mark, j, 0),
    decreases j - i,
{
    if i < j {
        lemma_top_level_skips_plain(s, mark, i + 1, j);
    }
}

proof fn lemma_plain_is_unnamed(p: Seq<char>)
    requires
        is_plain(p),
    ensures
        parse::named(p) is None,
{
    lemma_top_level_skips_plain(p, '=', 0, p.len() as int);
}

proof fn lemma_trimmed_proper(p: Seq<char>)
    requires
        is_proper(p),
    ensures
        text::trimmed(p) == p,
{
}

/// The body of a call with one language pair.
spec fn written_body(
    name: Seq<char>,
    ja_title: Seq<char>,
    lang: Seq<char>,
    title: Seq<char>,
) -> Seq<char> {
    name + seq!['|'] + ja_title + seq!['|'] + lang + seq!['|'] + title
}

proof fn lemma_written_body(name: Seq<char>, ja_title: Seq<char>, lang: Seq<char>, title: Seq<char>)
    requires
        is_plain(name),
        is_plain(ja_title),
        is_plain(lang),
        is_plain(title),
    ensures
        ({
            let body = written_body(name, ja_title, lang, title);
            let a = name.len() as int;
            let b = a + 1 + ja_title.len();
            let c = b + 1 + lang.len();
            &&& body[a] == '|' && body[b] == '|' && body[c] == '|'
            &&& forall|k: int|
                0 <= k < body.len() && k != a && k != b && k != c ==> is_ordinary(#[trigger] body[k])
        }),
{
    let body = written_body(name, ja_title, lang, title);
    let a = name.len() as int;
    let b = a + 1 + ja_title.len();
    let c = b + 1 + lang.len();
    assert forall|k: int| 0 <= k < body.len() && k != a && k != b && k != c implies is_ordinary(
        #[trigger] body[k],
    ) by {
        if k < a {
            assert(body[k] == name[k]);
        } else if k < b {
            assert(body[k] == ja_title[k - a - 1]);
        } else if k < c {
            assert(body[k] == lang[k - b - 1]);
        } else {
            assert(body[k] == title[k - c - 1]);
        }
    }
}

proof fn lemma_written_end(name: Seq<char>, ja_title: Seq<char>, lang: Seq<char>, title: Seq<char>)
    requires
        is_plain(name),
        is_plain(ja_title),
        is_plain(lang),
        is_plain(title),
    ensures
        ({
            let raw = written_call(name, ja_title, lang, title);
            &&& parse::is_braced(raw)
            &&& raw.subrange(2, raw.len() - 2) == written_body(name, ja_title, lang, title)
            &&& parse::end_of_template(raw, 0) == Some(raw.len() as int)
        }),
{
    let raw = written_call(name, ja_title, lang, title);
    let n = raw.len();
    let body = written_body(name, ja_title, lang, title);
    lemma_written_body(name, ja_title, lang, title);
    assert(raw =~= seq!['{', '{'] + body + seq!['}', '}']);
    assert(raw.subrange(2, n - 2) =~= body);
    assert forall|k: int| 2 <= k < n - 2 implies #[trigger] raw[k] != '{' && raw[k] != '}' by {
        assert(raw[k] == body[k - 2]);
    }
    lemma_close_skips_plain(raw, 2, n - 2, 1);
}

proof fn lemma_written_params(
    name: Seq<char>,
    ja_title: Seq<char>,
    lang: Seq<char>,
    title: Seq<char>,
)
    requires
        is_plain(name),
        is_plain(ja_title),
        is_plain(lang),
        is_plain(title),
    ensures
        parse::params_of(written_body(name, ja_title, lang, title)) == seq![
            name,
            ja_title,
            lang,
            title,
        ],
{
    let body = written_body(name, ja_title, lang, title);
    let a = name.len() as int;
    let b = a + 1 + ja_title.len();
    let c = b + 1 + lang.len();
    lemma_written_body(name, ja_title, lang, title);
    lemma_top_level_skips_plain(body, '|', 0, a);
    lemma_top_level_skips_plain(body, '|', a + 1, b);
    lemma_top_level_skips_plain(body, '|', b + 1, c);
    lemma_top_level_skips_plain(body, '|', c + 1, body.len() as int);
    assert(parse::params_from(body, c + 1) =~= seq![title]) by {
        assert(body.skip(c + 1) =~= title);
    }
    assert(parse::params_from(body, b + 1) =~= seq![lang, title]) by {
        assert(body.subrange(b + 1, c) =~= lang);
    }
    assert(parse::params_from(body, a + 1) =~= seq![ja_title, lang, title]) by {
        assert(body.subrange(a + 1, b) =~= ja_title);
    }
    assert(body.subrange(0, a) =~= name);
    assert(parse::params_of(body) =~= seq![name, ja_title, lang, title]);
}

proof fn lemma_plain_slots(ja_title: Seq<char>, lang: Seq<char>, title: Seq<char>)
    requires
        is_plain(ja_title) && is_proper(ja_title),
        is_plain(lang) && is_proper(lang),
        is_plain(title) && is_proper(title),
    ensures
        ({
            let params = seq![ja_title, lang, title];
            &&& parse::positional_value(params, 1) == Some(ja_title)
            &&& parse::positional_value(params, 2) == Some(lang)
            &&& parse::positional_value(params, 3) == Some(title)
            &&& forall|k: nat| k > 3 ==> #[trigger] parse::positional_value(params, k) is None
        }),
{
    let params = seq![ja_title, lang, title];
    let p0 = Seq::<Seq<char>>::empty();
    let p1 = seq![ja_title];
    let p2 = seq![ja_title, lang];
    assert(params.drop_last() =~= p2);
    assert(p2.drop_last() =~= p1);
    assert(p1.drop_last() =~= p0);
    lemma_plain_is_unnamed(ja_title);
    lemma_plain_is_unnamed(lang);
    lemma_plain_is_unnamed(title);
    assert(parse::unnamed_count(p0) == 0);
    assert(parse::unnamed_count(p1) == 1);
    assert(parse::unnamed_count(p2) == 2);
    assert(parse::last_index(params) == Some(3nat));
    assert(parse::last_index(p2) == Some(2nat));
    assert(parse::last_index(p1) == Some(1nat));
    lemma_trimmed_proper(ja_title);
    lemma_trimmed_proper(lang);
    lemma_trimmed_proper(title);
    assert forall|k: nat| k > 3 implies #[trigger] parse::positional_value(params, k) is None by {
        assert(parse::positional_value(p0, k) is None);
        assert(parse::positional_value(p1, k) is None);
        assert(parse::positional_value(p2, k) is None);
    }
    assert(parse::positional_value(p1, 1) == Some(ja_title));
    assert(parse::positional_value(p2, 1) == Some(ja_title));
    assert(parse::positional_value(p2, 2) == Some(lang));
}

/// A call written with plain texts is read back as written: the Japanese
/// article name, the language and the title are those that were put in.
pub proof fn a_written_call_is_read_back(
    name: Seq<char>,
    ja_title: Seq<char>,
    lang: Seq<char>,
    title: Seq<char>,
)
    requires
        is_plain(name) && parse::is_ill_template(parse::normalized_name(name)),
        is_plain(ja_title) && is_proper(ja_title),
        is_plain(lang) && is_proper(lang),
        is_plain(title) && is_proper(title),
    ensures
        parse::calls_in(written_call(name, ja_title, lang, title)) == seq![
            CallView {
                raw: written_call(name, ja_title, lang, title),
                ja_title,
                targets: seq![TargetView { lang, title }],
            },
        ],
{
    let raw = written_call(name, ja_title, lang, title);
    let params = seq![ja_title, lang, title];
    lemma_written_end(name, ja_title, lang, title);
    lemma_written_params(name, ja_title, lang, title);
    lemma_plain_slots(ja_title, lang, title);
    let parts = parse::params_of(raw.subrange(2, raw.len() - 2));
    assert(parts[0] == name);
    assert(parts.skip(1) =~= params);
    let target = TargetView { lang, title };
    assert(parse::target_of_pair(params, 0) == Some(target));
    assert(parse::targets_of(params, 0) =~= seq![]);
    assert(parse::targets_of(params, 1) =~= seq![target]);
    assert(parse::targets_of(params, 2) =~= seq![target]) by {
        assert(parse::positional_value(params, 4) is None);
    }
    assert(parse::targets_of(params, 3) =~= seq![target]) by {
        assert(parse::positional_value(params, 6) is None);
    }
    assert(parse::targets_of(params, 4) =~= seq![target]) by {
        assert(parse::positional_value(params, 8) is None);
    }
    let call = CallView { raw, ja_title, targets: seq![target] };
    assert(parse::call_of(raw) == Some(call));
    a_whole_call_is_found_first(seq![], raw, seq![]);
    assert(Seq::<char>::empty() + raw + Seq::<char>::empty() =~= raw);
    assert(parse::calls_in(Seq::<char>::empty()) =~= seq![]);
    assert(seq![call] + Seq::<CallView>::empty() =~= seq![call]);
}

/// The templates that render a single pair give at most one target.
pub proof fn single_pair_templates_give_one_target(raw: Seq<char>)
    requires
        parse::is_single_pair_template(
            parse::normalized_name(parse::params_of(raw.subrange(2, raw.len() - 2))[0]),
        ),
    ensures
        match parse::call_of(raw) {
            Some(call) => call.targets.len() == 1,
            None => true,
        },
{
    let parts = parse::params_of(raw.subrange(2, raw.len() - 2));
    lemma_targets_are_proper(parts.skip(1), 1);
}

} // verus!
