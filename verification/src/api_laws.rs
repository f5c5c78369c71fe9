//! What requests and responses mean.

use vstd::prelude::*;

use crate::api;
use crate::api::ItemView;
use crate::json::Json;
use crate::text;
use crate::text_laws;

verus! {

/// The namespace prefix of templates is taken off, and nothing else: what
/// follows it is the name, whatever it holds, and a title without the prefix
/// stays as it is.
pub proof fn the_template_prefix_is_taken_off(name: Seq<char>, title: Seq<char>)
    ensures
        api::without_template_prefix(
            seq!['T', 'e', 'm', 'p', 'l', 'a', 't', 'e', ':'] + name,
        ) == name,
        !text_laws::stands_in(title, seq!['T', 'e', 'm', 'p', 'l', 'a', 't', 'e', ':'], 0)
            ==> api::without_template_prefix(title) == title,
{
    reveal_strlit("Template:");
    let prefix = seq!['T', 'e', 'm', 'p', 'l', 'a', 't', 'e', ':'];
    assert("Template:"@ =~= prefix);
    text_laws::starting_with(title, prefix, name);
    assert((prefix + name).skip(9) =~= name);
}

/// Whether a character ends the name of an invoked template.
pub open spec fn is_name_end(c: char) -> bool {
    c == '|' || c == '}' || c == '<' || c == '\n'
}

/// The characters that end the name of a template.
pub proof fn names_end(c: char)
    ensures
        api::ends_name(c) == is_name_end(c),
{
}

/// A page with a template in braces uses it: the name may stand among white
/// space, in any ASCII case, and whatever follows the character that ends it.
pub proof fn an_invocation_is_a_use(
    pre: Seq<char>,
    before: Seq<char>,
    written: Seq<char>,
    after: Seq<char>,
    stop: char,
    post: Seq<char>,
    name: Seq<char>,
)
    requires
        pre.len() > 0 ==> pre.last() != '{',
        is_name_end(stop),
        forall|i: int|
            0 <= i < before.len() ==> text::is_white_space(#[trigger] before[i]) && before[i]
                != '\n',
        forall|i: int|
            0 <= i < after.len() ==> text::is_white_space(#[trigger] after[i]) && after[i] != '\n',
        forall|i: int|
            0 <= i < written.len() ==> !is_name_end(#[trigger] written[i]) && written[i] != '{',
        written.len() > 0 ==> !text::is_white_space(written[0]) && !text::is_white_space(
            written.last(),
        ),
        written.len() == name.len(),
        forall|i: int| 0 <= i < name.len() ==> text_laws::alike(#[trigger] written[i], name[i]),
    ensures
        api::invokes(
            pre + seq!['{', '{'] + (before + written + after) + seq![stop] + post,
            api::without_template_prefix(
                seq!['T', 'e', 'm', 'p', 'l', 'a', 't', 'e', ':'] + name,
            ),
        ),
{
    let whole = before + written + after;
    the_template_prefix_is_taken_off(name, name);
    text_laws::trimming_takes_outer_white_space(before, written, after);
    text_laws::same_text_up_to_case(written, name);
    assert forall|i: int| 0 <= i < whole.len() implies !api::ends_name(#[trigger] whole[i])
        && whole[i] != '{' by {
        if i < before.len() {
            assert(whole[i] == before[i]);
        } else if i < before.len() + written.len() {
            assert(whole[i] == written[i - before.len()]);
        } else {
            assert(whole[i] == after[i - before.len() - written.len()]);
        }
    }
    api::a_plain_invocation_counts(pre, whole, stop, post, name);
}

/// Whether a name stands in braces at `j`: behind two opening braces, up to a
/// character that ends names, further opening braces or the end of the text, and
/// up to white space around it and ASCII case.
pub open spec fn is_named_at(content: Seq<char>, name: Seq<char>, j: int, end: int) -> bool {
    &&& text_laws::stands_in(content, seq!['{', '{'], j)
    &&& j + 2 <= end <= content.len()
    &&& end < content.len() ==> is_name_end(content[end]) || text_laws::stands_in(
        content,
        seq!['{', '{'],
        end,
    )
    &&& forall|k: int| j + 2 <= k < end ==> !is_name_end(#[trigger] content[k])
    &&& ({
        let written = text::trimmed(content.subrange(j + 2, end));
        &&& written.len() == name.len()
        &&& forall|k: int| 0 <= k < name.len() ==> text_laws::alike(#[trigger] written[k], name[k])
    })
}

proof fn lemma_name_length(s: Seq<char>) -> (n: int)
    ensures
        0 <= n <= s.len(),
        api::name_part(s) == s.take(n),
        forall|k: int| 0 <= k < n ==> !is_name_end(#[trigger] s[k]),
        n < s.len() ==> is_name_end(s[n]),
    decreases s.len(),
{
    if s.len() == 0 || is_name_end(s[0]) {
        assert(s.take(0) =~= seq![]);
        0
    } else {
        let rest = s.skip(1);
        let n = lemma_name_length(rest);
        assert(seq![s[0]] + rest.take(n) =~= s.take(n + 1));
        assert forall|k: int| 0 <= k < n + 1 implies !is_name_end(#[trigger] s[k]) by {
            if k > 0 {
                assert(s[k] == rest[k - 1]);
            }
        }
        n + 1
    }
}

/// A page that uses a template names it in braces somewhere: nothing else counts
/// as a use.
pub proof fn a_use_is_an_invocation(content: Seq<char>, name: Seq<char>)
    requires
        api::invokes(content, name),
    ensures
        exists|j: int, end: int| #[trigger] is_named_at(content, name, j, end),
{
    reveal_strlit("{{");
    let braces = seq!['{', '{'];
    assert("{{"@ =~= braces);
    let parts = text::split(content, braces);
    let i = choose|i: int|
        1 <= i < parts.len() && text::same_ignoring_case(
            text::trimmed(api::name_part(#[trigger] parts[i])),
            name,
        );
    let (a, b) = text_laws::split_parts_stand_between_separators(content, braces, 0, i);
    text_laws::occurring_is_standing(content, braces, a - 2);
    text_laws::occurring_is_standing(content, braces, b);
    let part = content.subrange(a, b);
    let n = lemma_name_length(part);
    let end = a + n;
    assert(part.take(n) =~= content.subrange(a, end));
    text_laws::same_text_up_to_case(text::trimmed(part.take(n)), name);
    assert forall|k: int| a <= k < end implies !is_name_end(#[trigger] content[k]) by {
        assert(part[k - a] == content[k]);
    }
    if n < part.len() {
        assert(part[n] == content[end]);
    }
    let written = text::trimmed(content.subrange(a, end));
    assert forall|k: int| 0 <= k < name.len() implies text_laws::alike(#[trigger] written[k], name[k]) by {
    }
    assert(is_named_at(content, name, a - 2, end));
}

/// A result of a query page with the namespace, a title and a number is a
/// template with just that title and number, not counted yet.
pub proof fn a_template_result_is_an_item(result: Json, title: Seq<char>, n: u64)
    requires
        result.member("ns"@).signed() == Some(10i64),
        result.member("title"@).text() == Some(title),
        result.member("value"@).text() == Some(crate::number::decimal(n as nat)),
    ensures
        api::item_of(result) == Some(
            ItemView {
                title,
                value: n,
                main_namespace_transclusions: 0,
                main_namespace_truncated: false,
            },
        ),
{
    crate::number::parsing_undoes_decimal(n as nat, u64::MAX as nat);
}

/// A result of another namespace, without a title or without a number is no
/// template.
pub proof fn other_results_are_no_items(result: Json)
    requires
        result.member("ns"@).signed() != Some(10i64) || result.member("title"@).text() is None
            || result.member("value"@).text() is None || crate::number::parsed(
            result.member("value"@).text()->0,
            u64::MAX as nat,
        ) is None,
    ensures
        api::item_of(result) is None,
{
}

/// What a function makes of a sequence, it makes of its parts one after another.
pub proof fn filter_map_goes_on<A, B>(a: Seq<A>, b: Seq<A>, f: spec_fn(A) -> Option<B>)
    ensures
        (a + b).filter_map(f) == a.filter_map(f) + b.filter_map(f),
    decreases b.len(),
{
    if b.len() == 0 {
        assert(a + b =~= a);
        assert(b.filter_map(f) =~= seq![]) by {
            reveal(Seq::filter_map);
        }
        assert(a.filter_map(f) + b.filter_map(f) =~= a.filter_map(f));
    } else {
        let rest = b.drop_last();
        filter_map_goes_on(a, rest, f);
        let s = a + b;
        let n = s.len() - 1;
        s.lemma_filter_map_take_succ(f, n);
        b.lemma_filter_map_take_succ(f, b.len() - 1);
        assert(s.take(n) =~= a + rest);
        assert(s.take(n + 1) =~= s);
        assert(b.take(b.len() - 1) =~= rest);
        assert(b.take(b.len() as int) =~= b);
        assert(s[n] == b[b.len() - 1]);
        assert((a + b).filter_map(f) =~= a.filter_map(f) + b.filter_map(f));
    }
}

/// What a function makes of a single value.
pub proof fn filter_map_of_one<A, B>(x: A, f: spec_fn(A) -> Option<B>)
    ensures
        seq![x].filter_map(f) == match f(x) {
            Some(y) => seq![y],
            None => seq![],
        },
{
    let s = seq![x];
    let none = Seq::<A>::empty();
    s.lemma_filter_map_take_succ(f, 0);
    assert(s.take(1) =~= s);
    assert(s.take(0) =~= none);
    assert(none.filter_map(f) =~= seq![]) by {
        reveal(Seq::filter_map);
    }
    assert(s.filter_map(f) =~= match f(x) {
        Some(y) => seq![y],
        None => seq![],
    });
}

/// The items of a page come one by one from its results, in their order.
pub proof fn items_come_one_by_one(results: Seq<Json>, result: Json)
    ensures
        api::items_of(seq![]).len() == 0,
        api::items_of(results.push(result)) == (match api::item_of(result) {
            Some(item) => api::items_of(results).push(item),
            None => api::items_of(results),
        }),
{
    let f = |result: Json| api::item_of(result);
    let none = Seq::<Json>::empty();
    filter_map_goes_on(results, seq![result], f);
    filter_map_of_one(result, f);
    assert(results + seq![result] =~= results.push(result));
    filter_map_goes_on(none, none, f);
    assert(none + none =~= none);
    assert(api::items_of(none).len() == api::items_of(none).len() + api::items_of(none).len());
    match api::item_of(result) {
        Some(item) => {
            assert(api::items_of(results) + seq![item] =~= api::items_of(results).push(item));
        },
        None => {
            assert(api::items_of(results) + Seq::<ItemView>::empty() =~= api::items_of(results));
        },
    }
}

/// The page ids of a list come one by one from its pages, in their order.
pub proof fn page_ids_come_one_by_one(pages: Seq<Json>, page: Json)
    ensures
        api::page_ids_of(seq![]).len() == 0,
        api::page_ids_of(pages.push(page)) == (match page.member("pageid"@).unsigned() {
            Some(id) => api::page_ids_of(pages).push(id),
            None => api::page_ids_of(pages),
        }),
{
    let f = |page: Json| page.member("pageid"@).unsigned();
    let none = Seq::<Json>::empty();
    filter_map_goes_on(pages, seq![page], f);
    filter_map_of_one(page, f);
    assert(pages + seq![page] =~= pages.push(page));
    filter_map_goes_on(none, none, f);
    assert(none + none =~= none);
    assert(api::page_ids_of(none).len() == api::page_ids_of(none).len() + api::page_ids_of(
        none,
    ).len());
    match page.member("pageid"@).unsigned() {
        Some(id) => {
            assert(api::page_ids_of(pages) + seq![id] =~= api::page_ids_of(pages).push(id));
        },
        None => {
            assert(api::page_ids_of(pages) + Seq::<u64>::empty() =~= api::page_ids_of(pages));
        },
    }
}

/// The wikitext of a page is that of the main slot of its first revision, as it
/// is; a page without one has none.
pub proof fn wikitext_of_a_page(page: Json)
    ensures
        ({
            let content = page.member("revisions"@).element(0).member("slots"@).member(
                "main"@,
            ).member("content"@);
            &&& content is Text ==> api::content_of(page) == content->Text_0@
            &&& content !is Text ==> api::content_of(page).len() == 0
        }),
{
}

/// How many pages use a template.
pub open spec fn pages_using(pages: Seq<Json>, name: Seq<char>) -> nat
    decreases pages.len(),
{
    if pages.len() == 0 {
        0
    } else {
        pages_using(pages.drop_last(), name) + if api::invokes(
            api::content_of(pages.last()),
            name,
        ) {
            1nat
        } else {
            0
        }
    }
}

/// Every page of a response whose wikitext uses the template counts once, and no
/// other.
pub proof fn pages_are_counted_once(resp: Json, name: Seq<char>)
    ensures
        api::invoking_pages(resp, name).len() == pages_using(
            resp.member("query"@).member("pages"@).elements(),
            name,
        ),
{
    lemma_pages_are_counted(resp.member("query"@).member("pages"@).elements(), name);
}

proof fn lemma_pages_are_counted(pages: Seq<Json>, name: Seq<char>)
    ensures
        pages.filter(|page: Json| api::invokes(api::content_of(page), name)).len() == pages_using(
            pages,
            name,
        ),
    decreases pages.len(),
{
    reveal(Seq::filter);
    if pages.len() > 0 {
        lemma_pages_are_counted(pages.drop_last(), name);
    }
}

/// A text is listed where one of the values is that string.
pub proof fn texts_are_listed(values: Seq<Json>, wanted: Seq<char>)
    ensures
        api::lists_text(values, wanted) == exists|i: int|
            0 <= i < values.len() && #[trigger] values[i] is Text && values[i]->Text_0@ == wanted,
{
    if api::lists_text(values, wanted) {
        let i = choose|i: int|
            0 <= i < values.len() && (#[trigger] values[i]).text() == Some(wanted);
        assert(values[i] is Text && values[i]->Text_0@ == wanted);
    }
    if exists|i: int|
        0 <= i < values.len() && #[trigger] values[i] is Text && values[i]->Text_0@ == wanted {
        let i = choose|i: int|
            0 <= i < values.len() && #[trigger] values[i] is Text && values[i]->Text_0@ == wanted;
        assert(values[i].text() == Some(wanted));
    }
}

/// The titles of a response are those that its pages carry.
pub proof fn titles_are_carried_by_pages(resp: Json, title: Seq<char>)
    ensures
        api::titles_in(resp).contains(title) == exists|i: int|
            0 <= i < resp.member("pages"@).members().len() && (#[trigger] resp.member(
                "pages"@,
            ).members()[i]).1.member("title"@).text() == Some(title),
{
}

/// A failure clears up on its own where there was no response, or one with a
/// status from 500 to 599.
pub proof fn transient_failures(status: u16, description: String)
    ensures
        api::Failure::Http(None).transient(),
        api::Failure::Http(Some(status)).transient() == (500 <= status <= 599),
        !api::Failure::Unknown(description).transient(),
{
}

/// The limits of the API.
pub proof fn limits_of_the_api()
    ensures
        api::TEMPLATE_NAMESPACE == 10,
        api::MAIN_NAMESPACE == 0,
        api::PAGE_SIZE == 500,
        api::RETRY_ATTEMPTS == 3,
        api::CONTENT_BATCH == 50,
        api::HIGH_LIMIT == 5000,
        api::LOW_LIMIT == 500,
{
}

} // verus!
