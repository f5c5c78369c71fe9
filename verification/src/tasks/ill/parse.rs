//! Parser for interlanguage-link template calls in wikitext.
//!
//! `Template:仮リンク` and its redirects take the Japanese article name as the
//! first positional parameter, followed by up to four language code / foreign
//! title pairs (parameters 2/3, 4/5, 6/7 and 8/9).

use vstd::prelude::*;
use vstd::slice::slice_subrange;

use crate::number::parse_chars;
use crate::text::{
    capitalize, equal_ignoring_case, same, to_chars, to_text, trim, with_char_replaced,
};

verus! {

/// Number of positional parameter slots tracked, covering all language pairs.
pub const SLOTS: usize = 10;

/// Number of language pairs a call may hold.
pub const PAIRS: usize = 4;

/// An interlanguage-link template call found in an article.
#[derive(Debug, PartialEq, Eq)]
pub struct IllCall {
    /// The call exactly as it appears in the wikitext.
    pub raw: String,
    /// Japanese article name given as the first positional parameter.
    pub ja_title: String,
    /// Language targets, in the order they appear.
    pub targets: Vec<LangTarget>,
}

/// A language code paired with the title of the article on that Wikipedia.
#[derive(Debug, PartialEq, Eq)]
pub struct LangTarget {
    /// Language code as written in the template, e.g. `en`. The pseudo-code
    /// `wikidata` names a Wikidata item instead of an article.
    pub lang: String,
    /// Article title on that Wikipedia, or a Q-id when `lang` is `wikidata`.
    pub title: String,
}

/// The texts of a [`LangTarget`].
#[verifier::ext_equal]
pub struct TargetView {
    pub lang: Seq<char>,
    pub title: Seq<char>,
}

/// The texts of an [`IllCall`].
#[verifier::ext_equal]
pub struct CallView {
    pub raw: Seq<char>,
    pub ja_title: Seq<char>,
    pub targets: Seq<TargetView>,
}

impl View for LangTarget {
    type V = TargetView;

    open spec fn view(&self) -> TargetView {
        TargetView { lang: self.lang@, title: self.title@ }
    }
}

impl View for IllCall {
    type V = CallView;

    open spec fn view(&self) -> CallView {
        CallView {
            raw: self.raw@,
            ja_title: self.ja_title@,
            targets: target_views(self.targets@),
        }
    }
}

/// The views of a sequence of language targets.
pub open spec fn target_views(targets: Seq<LangTarget>) -> Seq<TargetView> {
    targets.map_values(|t: LangTarget| t@)
}

/// The views of a sequence of calls.
pub open spec fn call_views(calls: Seq<IllCall>) -> Seq<CallView> {
    calls.map_values(|c: IllCall| c@)
}

/// Whether `a` stands at `i` and `b` right after it.
pub open spec fn pair_at(s: Seq<char>, i: int, a: char, b: char) -> bool {
    0 <= i && i + 1 < s.len() && s[i] == a && s[i + 1] == b
}

/// The index just past the braces that close `depth` open templates, looking
/// from `i` on.
pub open spec fn close_from(s: Seq<char>, i: int, depth: nat) -> Option<int>
    decreases s.len() - i,
{
    if i + 1 >= s.len() {
        None
    } else if pair_at(s, i, '{', '{') {
        close_from(s, i + 2, depth + 1)
    } else if pair_at(s, i, '}', '}') {
        if depth <= 1 {
            Some(i + 2)
        } else {
            close_from(s, i + 2, (depth - 1) as nat)
        }
    } else {
        close_from(s, i + 1, depth)
    }
}

/// The index just past the `}}` that closes the template opened at `start`.
pub open spec fn end_of_template(s: Seq<char>, start: int) -> Option<int> {
    close_from(s, start + 2, 1)
}

/// Whether a template or a wikilink opens at `i`.
pub open spec fn opens_at(s: Seq<char>, i: int) -> bool {
    pair_at(s, i, '{', '{') || pair_at(s, i, '[', '[')
}

/// Whether a template or a wikilink closes at `i`.
pub open spec fn closes_at(s: Seq<char>, i: int) -> bool {
    pair_at(s, i, '}', '}') || pair_at(s, i, ']', ']')
}

/// The index of the first `mark` from `i` on that stands outside any template
/// or wikilink, where `depth` of them are open at `i`.
pub open spec fn top_level_from(s: Seq<char>, mark: char, i: int, depth: nat) -> Option<int>
    decreases s.len() - i,
{
    if i >= s.len() {
        None
    } else if opens_at(s, i) {
        top_level_from(s, mark, i + 2, depth + 1)
    } else if closes_at(s, i) {
        top_level_from(
            s,
            mark,
            i + 2,
            if depth > 0 {
                (depth - 1) as nat
            } else {
                0
            },
        )
    } else if s[i] == mark && depth == 0 {
        Some(i)
    } else {
        top_level_from(s, mark, i + 1, depth)
    }
}

/// The parts of `body` from `start` on, cut at its top-level `|` separators.
pub open spec fn params_from(body: Seq<char>, start: int) -> Seq<Seq<char>>
    decreases body.len() - start,
{
    match top_level_from(body, '|', start, 0) {
        Some(k) => if start <= k < body.len() {
            seq![body.subrange(start, k)] + params_from(body, k + 1)
        } else {
            seq![]
        },
        None => seq![body.skip(start)],
    }
}

/// The parts of a template body between its top-level `|` separators.
pub open spec fn params_of(body: Seq<char>) -> Seq<Seq<char>> {
    params_from(body, 0)
}

/// The trimmed name and the value of a parameter with a top-level `=`.
pub open spec fn named(param: Seq<char>) -> Option<(Seq<char>, Seq<char>)> {
    match top_level_from(param, '=', 0, 0) {
        Some(k) => Some((crate::text::trimmed(param.take(k)), param.skip(k + 1))),
        None => None,
    }
}

/// How many parameters carry no name.
pub open spec fn unnamed_count(params: Seq<Seq<char>>) -> nat
    decreases params.len(),
{
    if params.len() == 0 {
        0
    } else {
        unnamed_count(params.drop_last()) + if named(params.last()) is None {
            1nat
        } else {
            0
        }
    }
}

/// The positional index of the last parameter: its name when that is a plain
/// number, the next index in order when it has no name.
pub open spec fn last_index(params: Seq<Seq<char>>) -> Option<nat> {
    match named(params.last()) {
        Some((name, _)) => crate::number::parsed(name, usize::MAX as nat),
        None => Some(1 + unnamed_count(params.drop_last())),
    }
}

/// The value of a parameter, named or not.
pub open spec fn param_value(param: Seq<char>) -> Seq<char> {
    match named(param) {
        Some((_, value)) => value,
        None => param,
    }
}

/// The trimmed value that the parameters give to positional index `k`: that
/// of the last parameter with this index.
pub open spec fn positional_value(params: Seq<Seq<char>>, k: nat) -> Option<Seq<char>>
    decreases params.len(),
{
    if params.len() == 0 {
        None
    } else if last_index(params) == Some(k) {
        Some(crate::text::trimmed(param_value(params.last())))
    } else {
        positional_value(params.drop_last(), k)
    }
}

/// The value at positional index `k`, unless it is empty.
pub open spec fn filled(params: Seq<Seq<char>>, k: nat) -> Option<Seq<char>> {
    match positional_value(params, k) {
        Some(v) => if v.len() > 0 {
            Some(v)
        } else {
            None
        },
        None => None,
    }
}

/// The language target of pair `k`, when both of its parameters are filled.
pub open spec fn target_of_pair(params: Seq<Seq<char>>, k: nat) -> Option<TargetView> {
    match (filled(params, 2 * k + 2), filled(params, 2 * k + 3)) {
        (Some(lang), Some(title)) => Some(TargetView { lang, title }),
        _ => None,
    }
}

/// The language targets of the first `n` pairs.
pub open spec fn targets_of(params: Seq<Seq<char>>, n: nat) -> Seq<TargetView>
    decreases n,
{
    if n == 0 {
        seq![]
    } else {
        let before = targets_of(params, (n - 1) as nat);
        match target_of_pair(params, (n - 1) as nat) {
            Some(t) => before.push(t),
            None => before,
        }
    }
}

/// `s` without its leading colons.
pub open spec fn without_colons(s: Seq<char>) -> Seq<char>
    decreases s.len(),
{
    if s.len() > 0 && s[0] == ':' {
        without_colons(s.skip(1))
    } else {
        s
    }
}

/// Whether `s` starts with `prefix` up to the case of ASCII letters.
pub open spec fn has_prefix(s: Seq<char>, prefix: Seq<char>) -> bool {
    prefix.len() <= s.len() && crate::text::same_ignoring_case(
        s.take(prefix.len() as int),
        prefix,
    )
}

/// `name` without the template namespace prefix, in either language.
pub open spec fn without_namespace(name: Seq<char>) -> Seq<char> {
    if has_prefix(name, "Template:"@) {
        crate::text::trimmed(name.skip("Template:"@.len() as int))
    } else if has_prefix(name, "テンプレート:"@) {
        crate::text::trimmed(name.skip("テンプレート:"@.len() as int))
    } else {
        name
    }
}

/// A template name as the wiki resolves it to a page.
pub open spec fn normalized_name(name: Seq<char>) -> Seq<char> {
    let bare = crate::text::trimmed(without_colons(crate::text::trimmed(name)));
    crate::text::capitalized(
        crate::text::trimmed(crate::text::replace_char(without_namespace(bare), '_', ' ')),
    )
}

/// The normalised names of the templates that are interlanguage links.
pub open spec fn is_ill_template(name: Seq<char>) -> bool {
    ||| name == "仮リンク"@
    ||| name == "Ill"@
    ||| name == "Ill2"@
    ||| name == "Illm"@
    ||| name == "Link-interwiki"@
    ||| name == "Interlanguage link"@
    ||| name == "Interlanguage link multi"@
}

/// The templates that render only the first language pair. Later pairs never
/// reach the reader, so they are not link targets.
pub open spec fn is_single_pair_template(name: Seq<char>) -> bool {
    ||| name == "Illm"@
    ||| name == "Interlanguage link multi"@
}

/// The number of language pairs that the template renders.
pub open spec fn pairs_of(name: Seq<char>) -> nat {
    if is_single_pair_template(name) {
        1
    } else {
        PAIRS as nat
    }
}

/// Whether `raw` is enclosed in double braces.
pub open spec fn is_braced(raw: Seq<char>) -> bool {
    raw.len() >= 4 && pair_at(raw, 0, '{', '{') && pair_at(raw, raw.len() - 2, '}', '}')
}

/// What `raw`, a template call in its braces, says as an interlanguage link:
/// nothing unless the template is one, names a Japanese article, and has at
/// least one language target.
pub open spec fn call_of(raw: Seq<char>) -> Option<CallView> {
    let parts = params_of(raw.subrange(2, raw.len() - 2));
    let name = normalized_name(parts[0]);
    let params = parts.skip(1);
    let targets = targets_of(params, pairs_of(name));
    match filled(params, 1) {
        Some(ja_title) => if is_ill_template(name) && targets.len() > 0 {
            Some(CallView { raw, ja_title, targets })
        } else {
            None
        },
        None => None,
    }
}

/// The calls in `s` from `i` on, in order. A template that is not an
/// interlanguage link is descended into rather than skipped.
pub open spec fn calls_from(s: Seq<char>, i: int) -> Seq<CallView>
    decreases s.len() - i,
{
    if i + 1 >= s.len() {
        seq![]
    } else {
        match call_at(s, i) {
            Some((call, end)) => if i < end <= s.len() {
                seq![call] + calls_from(s, end)
            } else {
                seq![]
            },
            None => calls_from(s, i + 1),
        }
    }
}

/// The call that starts at `i`, with the index just past it.
pub open spec fn call_at(s: Seq<char>, i: int) -> Option<(CallView, int)> {
    if !pair_at(s, i, '{', '{') {
        None
    } else {
        match end_of_template(s, i) {
            Some(end) => match call_of(s.subrange(i, end)) {
                Some(call) => Some((call, end)),
                None => None,
            },
            None => None,
        }
    }
}

/// The interlanguage-link calls in `wikitext`, in order.
pub open spec fn calls_in(wikitext: Seq<char>) -> Seq<CallView> {
    calls_from(wikitext, 0)
}

impl Clone for LangTarget {
    fn clone(&self) -> (copy: Self)
        ensures
            copy@ == self@,
    {
        LangTarget { lang: self.lang.clone(), title: self.title.clone() }
    }
}

impl Clone for IllCall {
    fn clone(&self) -> (copy: Self)
        ensures
            copy@ == self@,
    {
        let mut targets: Vec<LangTarget> = Vec::new();
        let mut i: usize = 0;
        while i < self.targets.len()
            invariant
                i <= self.targets@.len(),
                target_views(targets@) == target_views(self.targets@).take(i as int),
            decreases self.targets@.len() - i,
        {
            let target = self.targets[i].clone();
            let ghost before = targets@;
            targets.push(target);
            i += 1;
            assert(target_views(targets@) =~= target_views(before).push(target@));
            assert(target_views(self.targets@).take(i as int) =~= target_views(self.targets@).take(
                i - 1,
            ).push(self.targets@[i - 1]@));
        }
        assert(target_views(self.targets@).take(i as int) =~= target_views(self.targets@));
        IllCall { raw: self.raw.clone(), ja_title: self.ja_title.clone(), targets }
    }
}

/// A template closes at a `}}` behind its opening.
pub proof fn lemma_close_from(s: Seq<char>, i: int, depth: nat)
    requires
        0 <= i,
    ensures
        match close_from(s, i, depth) {
            Some(end) => i + 2 <= end <= s.len() && pair_at(s, end - 2, '}', '}'),
            None => true,
        },
    decreases s.len() - i,
{
    if i + 1 < s.len() {
        if pair_at(s, i, '{', '{') {
            lemma_close_from(s, i + 2, depth + 1);
        } else if pair_at(s, i, '}', '}') {
            if depth > 1 {
                lemma_close_from(s, i + 2, (depth - 1) as nat);
            }
        } else {
            lemma_close_from(s, i + 1, depth);
        }
    }
}

/// Find the index just past the `}}` that closes the template starting at
/// `start`, or `None` when the call is unterminated.
pub fn template_end(s: &[char], start: usize) -> (end: Option<usize>)
    requires
        start + 2 <= s@.len(),
    ensures
        match end {
            Some(end) => end_of_template(s@, start as int) == Some(end as int),
            None => end_of_template(s@, start as int) is None,
        },
{
    let n: usize = s.len();
    let mut depth: usize = 1;
    let mut index: usize = start + 2;
    while index < n && n - index > 1
        invariant
            n == s@.len(),
            1 <= depth <= index <= n,
            close_from(s@, index as int, depth as nat) == end_of_template(s@, start as int),
        decreases n - index,
    {
        if s[index] == '{' && s[index + 1] == '{' {
            depth += 1;
            index += 2;
        } else if s[index] == '}' && s[index + 1] == '}' {
            depth -= 1;
            index += 2;
            if depth == 0 {
                return Some(index);
            }
        } else {
            index += 1;
        }
    }
    None
}

/// A mark outside any template or wikilink is a mark of the text.
pub proof fn lemma_top_level_from(s: Seq<char>, mark: char, i: int, depth: nat)
    requires
        0 <= i,
    ensures
        match top_level_from(s, mark, i, depth) {
            Some(k) => i <= k < s.len() && s[k] == mark,
            None => true,
        },
    decreases s.len() - i,
{
    if i < s.len() {
        if opens_at(s, i) {
            lemma_top_level_from(s, mark, i + 2, depth + 1);
        } else if closes_at(s, i) {
            lemma_top_level_from(
                s,
                mark,
                i + 2,
                if depth > 0 {
                    (depth - 1) as nat
                } else {
                    0
                },
            );
        } else if s[i] == mark && depth == 0 {
        } else {
            lemma_top_level_from(s, mark, i + 1, depth);
        }
    }
}

fn find_top_level(s: &[char], mark: char, from: usize) -> (found: Option<usize>)
    requires
        from <= s@.len(),
    ensures
        match found {
            Some(k) => top_level_from(s@, mark, from as int, 0) == Some(k as int),
            None => top_level_from(s@, mark, from as int, 0) is None,
        },
{
    let n: usize = s.len();
    let mut depth: usize = 0;
    let mut index: usize = from;
    while index < n
        invariant
            n == s@.len(),
            depth <= index <= n,
            top_level_from(s@, mark, index as int, depth as nat) == top_level_from(
                s@,
                mark,
                from as int,
                0,
            ),
        decreases n - index,
    {
        let c: char = s[index];
        let paired: bool = n - index > 1 && s[index + 1] == c;
        if paired && (c == '{' || c == '[') {
            depth += 1;
            index += 2;
        } else if paired && (c == '}' || c == ']') {
            if depth > 0 {
                depth -= 1;
            }
            index += 2;
        } else if c == mark && depth == 0 {
            return Some(index);
        } else {
            index += 1;
        }
    }
    None
}

/// Split a template body on its top-level `|` separators.
///
/// Nested templates and wikilinks are skipped so that their own separators do
/// not split the enclosing call.
pub fn split_params<'a>(body: &'a [char]) -> (params: Vec<&'a [char]>)
    ensures
        crate::text::pieces(params@) == params_of(body@),
        params@.len() > 0,
{
    let mut params: Vec<&'a [char]> = Vec::new();
    let mut start: usize = 0;
    assert(crate::text::pieces(params@) + params_of(body@) =~= params_of(body@));
    loop
        invariant
            start <= body@.len(),
            crate::text::pieces(params@) + params_from(body@, start as int) == params_of(body@),
        decreases body@.len() - start,
    {
        proof {
            lemma_top_level_from(body@, '|', start as int, 0);
        }
        let ghost before = params@;
        match find_top_level(body, '|', start) {
            Some(k) => {
                let param = slice_subrange(body, start, k);
                params.push(param);
                assert(crate::text::pieces(params@) =~= crate::text::pieces(before).push(param@));
                assert(crate::text::pieces(before) + params_from(body@, start as int)
                    =~= crate::text::pieces(params@) + params_from(body@, k + 1));
                assert(body.len() == body@.len());
                start = k + 1;
            },
            None => {
                let param = slice_subrange(body, start, body.len());
                params.push(param);
                assert(param@ =~= body@.skip(start as int));
                assert(crate::text::pieces(params@) =~= crate::text::pieces(before).push(param@));
                assert(crate::text::pieces(before) + params_from(body@, start as int)
                    =~= crate::text::pieces(params@));
                return params;
            },
        }
    }
}

/// Split a parameter into name and value at its first top-level `=`.
pub fn split_named<'a>(param: &'a [char]) -> (parts: Option<(&'a [char], &'a [char])>)
    ensures
        match parts {
            Some((name, value)) => named(param@) == Some((name@, value@)),
            None => named(param@) is None,
        },
{
    proof {
        lemma_top_level_from(param@, '=', 0, 0);
    }
    match find_top_level(param, '=', 0) {
        Some(k) => {
            let name = slice_subrange(param, 0, k);
            assert(param.len() == param@.len());
            let value = slice_subrange(param, k + 1, param.len());
            assert(name@ =~= param@.take(k as int));
            assert(value@ =~= param@.skip(k + 1));
            Some((trim(name), value))
        },
        None => None,
    }
}

/// Assign the parameters after the template name to positional slots.
///
/// Unnamed parameters fill the next free index; a parameter named with a plain
/// number overrides that index, as `MediaWiki` does. There an index counts as
/// free until an unnamed parameter fills it, so unnamed parameters are numbered
/// among themselves. Parameters named anything else never carry a link target
/// and are dropped.
pub fn collect_positional(params: &[&[char]]) -> (slots: Vec<Option<String>>)
    requires
        params@.len() < usize::MAX,
    ensures
        slots@.len() == SLOTS,
        forall|k: int|
            0 <= k < SLOTS ==> crate::text::optional_text(#[trigger] slots@[k]) == positional_value(
                crate::text::pieces(params@),
                k as nat,
            ),
{
    let ghost all = crate::text::pieces(params@);
    let mut slots: Vec<Option<String>> = Vec::new();
    while slots.len() < SLOTS
        invariant
            slots@.len() <= SLOTS,
            forall|k: int| 0 <= k < slots@.len() ==> #[trigger] slots@[k] is None,
        decreases SLOTS - slots@.len(),
    {
        slots.push(None);
    }
    let mut next: usize = 1;
    let mut i: usize = 0;
    while i < params.len()
        invariant
            i <= params@.len() < usize::MAX,
            all == crate::text::pieces(params@),
            slots@.len() == SLOTS,
            next == 1 + unnamed_count(all.take(i as int)),
            next <= i + 1,
            forall|k: int|
                0 <= k < SLOTS ==> crate::text::optional_text(#[trigger] slots@[k]) == positional_value(
                    all.take(i as int),
                    k as nat,
                ),
        decreases params@.len() - i,
    {
        let param: &[char] = params[i];
        let ghost before = slots@;
        let ghost seen = all.take(i + 1);
        proof {
            assert(seen.drop_last() =~= all.take(i as int));
            assert(seen.last() == param@);
        }
        let mut index: Option<usize> = None;
        let mut value: &[char] = param;
        match split_named(param) {
            Some((name, rest)) => {
                value = rest;
                if let Some(n) = parse_chars(name, usize::MAX as u64) {
                    index = Some(n as usize);
                }
            },
            None => {
                index = Some(next);
                next += 1;
            },
        }
        assert(value@ == param_value(param@));
        assert(match index {
            Some(k) => last_index(seen) == Some(k as nat),
            None => last_index(seen) is None,
        });
        if let Some(k) = index {
            if k < slots.len() {
                let text = to_text(trim(value));
                slots.set(k, Some(text));
            }
        }
        i += 1;
        assert forall|k: int| 0 <= k < SLOTS implies crate::text::optional_text(#[trigger] slots@[k])
            == positional_value(all.take(i as int), k as nat) by {
            assert(crate::text::optional_text(before[k]) == positional_value(all.take(i - 1), k as nat));
        }
    }
    assert(all.take(i as int) =~= all);
    slots
}

/// Read a positional slot, treating an empty value as absent.
pub fn slot(slots: &[Option<String>], index: usize) -> (value: Option<String>)
    ensures
        crate::text::optional_text(value) == (if index < slots@.len() {
            match crate::text::optional_text(slots@[index as int]) {
                Some(v) => if v.len() > 0 {
                    Some(v)
                } else {
                    None
                },
                None => None,
            }
        } else {
            None
        }),
{
    if index >= slots.len() {
        return None;
    }
    match &slots[index] {
        Some(value) => {
            if value.as_str().is_empty() {
                None
            } else {
                Some(value.clone())
            }
        },
        None => None,
    }
}

fn strip_colons<'a>(s: &'a [char]) -> (rest: &'a [char])
    ensures
        rest@ == without_colons(s@),
{
    let mut i: usize = 0;
    assert(s@.skip(0) =~= s@);
    while i < s.len() && s[i] == ':'
        invariant
            i <= s@.len(),
            without_colons(s@.skip(i as int)) == without_colons(s@),
        decreases s@.len() - i,
    {
        assert(s@.skip(i as int).skip(1) =~= s@.skip(i + 1));
        i += 1;
    }
    let rest = slice_subrange(s, i, s.len());
    assert(rest@ =~= s@.skip(i as int));
    rest
}

fn prefixed(s: &[char], prefix: &[char]) -> (yes: bool)
    ensures
        yes == has_prefix(s@, prefix@),
{
    if prefix.len() > s.len() {
        return false;
    }
    let start = slice_subrange(s, 0, prefix.len());
    assert(start@ =~= s@.take(prefix@.len() as int));
    equal_ignoring_case(start, prefix)
}

/// Strip the `Template:` namespace prefix, in either language, if present.
pub fn strip_namespace<'a>(name: &'a [char]) -> (rest: &'a [char])
    ensures
        rest@ == without_namespace(name@),
{
    let english = to_chars("Template:");
    if prefixed(name, english.as_slice()) {
        let rest = slice_subrange(name, english.len(), name.len());
        assert(rest@ =~= name@.skip(english@.len() as int));
        return trim(rest);
    }
    let japanese = to_chars("テンプレート:");
    if prefixed(name, japanese.as_slice()) {
        let rest = slice_subrange(name, japanese.len(), name.len());
        assert(rest@ =~= name@.skip(japanese@.len() as int));
        return trim(rest);
    }
    name
}

/// Normalise a template name for comparison with the known templates.
///
/// Strips leading colons and the namespace prefix, turns underscores into
/// spaces and capitalises the first ASCII letter, matching how `MediaWiki`
/// resolves a template name to a page.
pub fn normalize_name(name: &[char]) -> (normalized: String)
    ensures
        normalized@ == normalized_name(name@),
{
    let bare = trim(strip_colons(trim(name)));
    let spaced = with_char_replaced(strip_namespace(bare), '_', ' ');
    let capital = capitalize(trim(spaced.as_slice()));
    to_text(capital.as_slice())
}

fn known_template(name: &str) -> (yes: bool)
    ensures
        yes == is_ill_template(name@),
{
    same(name, "仮リンク") || same(name, "Ill") || same(name, "Ill2") || same(name, "Illm") || same(
        name,
        "Link-interwiki",
    ) || same(name, "Interlanguage link") || same(name, "Interlanguage link multi")
}

fn rendered_pairs(name: &str) -> (pairs: usize)
    ensures
        pairs == pairs_of(name@),
{
    if same(name, "Illm") || same(name, "Interlanguage link multi") {
        1
    } else {
        PAIRS
    }
}

/// Parse a `{{...}}` call, returning `None` unless it is an interlanguage link
/// with both a Japanese article name and at least one language target.
pub fn parse_call(raw: &[char]) -> (call: Option<IllCall>)
    requires
        is_braced(raw@),
    ensures
        match call {
            Some(call) => call_of(raw@) == Some(call@),
            None => call_of(raw@) is None,
        },
{
    let body = slice_subrange(raw, 2, raw.len() - 2);
    let parts = split_params(body);
    let ghost views = crate::text::pieces(parts@);
    let name = normalize_name(parts[0]);
    assert(views[0] == parts@[0]@);
    if !known_template(name.as_str()) {
        return None;
    }
    let rest = slice_subrange(parts.as_slice(), 1, parts.len());
    let ghost params = views.skip(1);
    assert(crate::text::pieces(rest@) =~= params);
    let slots = collect_positional(rest);
    assert(crate::text::optional_text(slots@[1]) == positional_value(params, 1));
    let ja_title = match slot(slots.as_slice(), 1) {
        Some(title) => title,
        None => {
            return None;
        },
    };
    let pairs: usize = rendered_pairs(name.as_str());
    let mut targets: Vec<LangTarget> = Vec::new();
    let mut k: usize = 0;
    assert(target_views(targets@) =~= targets_of(params, 0));
    while k < pairs
        invariant
            k <= pairs <= PAIRS,
            slots@.len() == SLOTS,
            forall|j: int|
                0 <= j < SLOTS ==> crate::text::optional_text(#[trigger] slots@[j]) == positional_value(
                    params,
                    j as nat,
                ),
            target_views(targets@) == targets_of(params, k as nat),
        decreases pairs - k,
    {
        let ghost before = targets@;
        assert(crate::text::optional_text(slots@[2 * k + 2]) == positional_value(params, (2 * k + 2) as nat));
        assert(crate::text::optional_text(slots@[2 * k + 3]) == positional_value(params, (2 * k + 3) as nat));
        let lang = slot(slots.as_slice(), 2 * k + 2);
        let title = slot(slots.as_slice(), 2 * k + 3);
        if let (Some(lang), Some(title)) = (lang, title) {
            let target = LangTarget { lang, title };
            targets.push(target);
            assert(target_views(targets@) =~= target_views(before).push(target@));
        }
        k += 1;
    }
    if targets.len() == 0 {
        assert(target_views(targets@).len() == 0);
        return None;
    }
    assert(target_views(targets@).len() > 0);
    Some(IllCall { raw: to_text(raw), ja_title, targets })
}

/// Collect every interlanguage-link template call in `wikitext`.
///
/// Calls nested inside other templates are found as well, because a template
/// that is not an interlanguage link is descended into rather than skipped.
#[must_use]
pub fn find_calls(wikitext: &str) -> (calls: Vec<IllCall>)
    ensures
        call_views(calls@) == calls_in(wikitext@),
{
    let chars = to_chars(wikitext);
    let s: &[char] = chars.as_slice();
    let n: usize = s.len();
    let mut calls: Vec<IllCall> = Vec::new();
    let mut index: usize = 0;
    assert(call_views(calls@) + calls_from(s@, 0) =~= calls_from(s@, 0));
    while index < n && n - index > 1
        invariant
            n == s@.len(),
            index <= n,
            call_views(calls@) + calls_from(s@, index as int) == calls_from(s@, 0),
        decreases n - index,
    {
        let mut past: usize = index + 1;
        let ghost before = calls@;
        if s[index] == '{' && s[index + 1] == '{' {
            proof {
                lemma_close_from(s@, index + 2, 1);
            }
            if let Some(end) = template_end(s, index) {
                let raw = slice_subrange(s, index, end);
                assert(raw@[raw@.len() - 2] == s@[end - 2]);
                assert(raw@[raw@.len() - 1] == s@[end - 1]);
                if let Some(call) = parse_call(raw) {
                    calls.push(call);
                    past = end;
                    assert(call_views(calls@) =~= call_views(before).push(call@));
                    assert(call_views(before) + calls_from(s@, index as int) =~= call_views(calls@)
                        + calls_from(s@, end as int));
                }
            }
        }
        index = past;
    }
    assert(call_views(calls@) + calls_from(s@, index as int) =~= call_views(calls@));
    calls
}

} // verus!
